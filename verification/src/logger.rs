//! A pluggable diagnostic sink: anything that can take a line of text. The
//! engine writes a short note per lifecycle event; a sink that discards
//! everything is the default.

use vstd::prelude::*;

verus! {

/// Somewhere a diagnostic line can go: a file, a console, or nowhere.
pub trait LogSource {
    /// Accept one diagnostic message.
    fn write(&mut self, message: &str);
}

/// A sink that discards every message.
pub struct NullLogSource {}

impl NullLogSource {
    /// A fresh discarding sink.
    pub fn new() -> (r: Self) {
        NullLogSource {  }
    }
}

impl LogSource for NullLogSource {
    fn write(&mut self, message: &str) {
    }
}

/// A logger forwarding each message to its sink.
pub struct Logger<S: LogSource> {
    log_source: S,
}

impl<S: LogSource> Logger<S> {
    /// A logger over the given sink.
    pub fn new(log_source: S) -> (r: Self) {
        Logger { log_source }
    }

    /// Hand one message to the sink.
    pub fn log(&mut self, message: &str) {
        self.log_source.write(message);
    }
}

impl Logger<NullLogSource> {
    /// A logger that discards every message.
    pub fn new_null_logger() -> (r: Self) {
        Logger { log_source: NullLogSource::new() }
    }
}

} // verus!
