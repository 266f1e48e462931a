//! The decisions of the capture handler.
//!
//! The handler itself talks to the hardware: it learns which lines have
//! an edge pending, acknowledges one of them, reads the level that the
//! line has now, and hands both to [`capture`]. Which line comes first,
//! what the edge is called and what becomes of it when the log is full is
//! decided here.

use vstd::prelude::*;
use crate::event::{EdgeEvent, Line};
use crate::log::EdgeLog;

verus! {

/// Picks the line to service next, given which lines have an edge
/// pending: the clock comes before the data line, and with nothing
/// pending there is nothing to do.
pub fn next_pending(scl_pending: bool, sda_pending: bool) -> (line: Option<Line>)
    ensures
        scl_pending ==> line == Some(Line::Scl),
        !scl_pending && sda_pending ==> line == Some(Line::Sda),
        !scl_pending && !sda_pending ==> line is None,
{
    if scl_pending {
        Some(Line::Scl)
    } else if sda_pending {
        Some(Line::Sda)
    } else {
        None
    }
}

/// Appends the edge of `line` to the level `high` to the log. When the
/// log is full the edge is dropped and counted; what was recorded stays
/// as it is.
pub fn capture(log: &mut EdgeLog, line: Line, high: bool)
    ensures
        final(log)@ == old(log)@.append(EdgeEvent::of(line, high)),
{
    let event = EdgeEvent::from_transition(line, high);
    let _ = log.record(event);
}

} // verus!
