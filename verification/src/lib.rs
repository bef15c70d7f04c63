//! Signing of exchange API requests, the decisions of a martingale buying
//! strategy, and the bookkeeping of the websocket server that drives it.

pub mod proto;
pub mod api;
pub mod strategy_server;
pub mod strategy;
pub mod ws;
pub mod logging;
