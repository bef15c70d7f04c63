use vstd::prelude::*;

verus! {

/// How much the log records.
#[derive(Debug, Clone, Copy, PartialEq, Eq)]
pub enum LogLevel {
    Info,
    Debug,
}

/// The level the logger runs at, given the value of `RUST_LOG` when it is
/// set and readable: `info` gives `Info`, anything else, or no value,
/// gives `Debug`.
pub fn log_level(rust_log: Option<&str>) -> (res: LogLevel)
    ensures
        res == (if rust_log matches Some(v) && v@ == "info"@ {
            LogLevel::Info
        } else {
            LogLevel::Debug
        }),
{
    match rust_log {
        Some(v) => {
            let s = String::from_str(v);
            let info = String::from_str("info");
            if s == info {
                LogLevel::Info
            } else {
                LogLevel::Debug
            }
        },
        None => LogLevel::Debug,
    }
}

} // verus!
