//! The diagnostics sink: an injectable capability with two operations, so a
//! library user can route messages to a logger of their choice. The sink is
//! purely observational: no contract of this crate depends on it, so no
//! implementation can affect what the parser produces.

use vstd::prelude::*;

verus! {

/// The level of a trace message.
pub enum TraceLevel {
    Debug,
    Info,
}

/// A sink for trace messages. Implementations must not panic; they receive
/// plain text and own nothing of the parser's state.
pub trait Tracer: Sized {
    /// Create a new instance of the tracer.
    fn new() -> Self;

    /// Log a message at the given level.
    fn log(&self, level: TraceLevel, msg: &String) {
        match level {
            TraceLevel::Debug => self.debug(msg),
            TraceLevel::Info => self.info(msg),
        }
    }

    /// Log a debug message.
    fn debug(&self, msg: &String);

    /// Log an informational message.
    fn info(&self, msg: &String);
}

/// The default sink: drops every message, so the core has no mandatory
/// dependency on any logging facility.
pub struct DummyTracer;

impl Tracer for DummyTracer {
    fn new() -> Self {
        DummyTracer
    }

    fn debug(&self, _msg: &String) {
    }

    fn info(&self, _msg: &String) {
    }
}

} // verus!
