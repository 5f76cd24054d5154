//! An injectable diagnostic-line sink.
//!
//! The engine's results never depend on logging, so the sink is a plain
//! in-memory buffer with a constructor-time enable flag; the surrounding
//! program decides where its lines go.

use vstd::prelude::*;

verus! {

/// A buffer of diagnostic lines, collecting only while enabled.
#[derive(Debug)]
pub struct Log {
    /// Whether lines are kept; fixed at construction.
    pub enabled: bool,
    /// The collected lines, oldest first.
    pub lines: Vec<String>,
}

impl Log {
    /// An empty sink with the given enable flag.
    pub fn new(enabled: bool) -> (l: Log)
        ensures
            l.enabled == enabled,
            l.lines@.len() == 0,
    {
        Log { enabled, lines: Vec::new() }
    }
}

/// Appends one line to the sink; a disabled sink drops it.
pub fn log_s(sink: &mut Log, msg: String)
    ensures
        final(sink).enabled == old(sink).enabled,
        old(sink).enabled ==> final(sink).lines@ == old(sink).lines@.push(msg),
        !old(sink).enabled ==> final(sink).lines@ == old(sink).lines@,
{
    if sink.enabled {
        sink.lines.push(msg);
    }
}

} // verus!
