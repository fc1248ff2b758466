//! Log levels and the log file's rotation rule.
use vstd::prelude::*;

verus! {

/// Severity of a log event.
#[derive(Debug, Clone, Copy, PartialEq, Eq, Structural)]
pub enum LogLevel {
    Trace,
    Debug,
    Info,
    Warn,
    Error,
}

impl LogLevel {
    /// The level's name as it appears in serialized events (lower case).
    pub fn as_str(&self) -> (r: &'static str)
        ensures
            r@ == (match *self {
                LogLevel::Trace => "trace"@,
                LogLevel::Debug => "debug"@,
                LogLevel::Info => "info"@,
                LogLevel::Warn => "warn"@,
                LogLevel::Error => "error"@,
            }),
    {
        match self {
            LogLevel::Trace => "trace",
            LogLevel::Debug => "debug",
            LogLevel::Info => "info",
            LogLevel::Warn => "warn",
            LogLevel::Error => "error",
        }
    }
}

/// Whether a log file of `current` bytes is truncated before a line of `incoming`
/// bytes is written: never when `max_bytes` is zero, else when the line would take the
/// file past `max_bytes`.
pub fn should_rotate(max_bytes: u64, current: u64, incoming: u64) -> (r: bool)
    requires
        max_bytes != 0 ==> current + incoming <= u64::MAX,
    ensures
        r == (max_bytes != 0 && current + incoming > max_bytes),
{
    if max_bytes == 0 {
        return false;
    }
    current + incoming > max_bytes
}

} // verus!
