use vstd::prelude::*;

verus! {

/// A message that the server pushes to every connected websocket client.
#[derive(Debug, Clone, PartialEq, Eq)]
pub enum SendParcel {
    /// The configuration could not be used, or the strategy was stopped.
    ConfigError(String),
    /// A report on the running strategy.
    StrategyState(String),
}

} // verus!
