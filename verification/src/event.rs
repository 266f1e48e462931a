//! The two monitored lines and the four kinds of edge seen on them.

use vstd::prelude::*;

verus! {

/// One of the two lines of the bus.
#[derive(Clone, Copy, Debug, PartialEq, Eq, Structural)]
pub enum Line {
    /// The clock line.
    Scl,
    /// The data line.
    Sda,
}

/// A single transition of one line.
#[derive(Clone, Copy, Debug, PartialEq, Eq, Structural)]
pub enum EdgeEvent {
    /// The clock went from low to high.
    SclRise,
    /// The clock went from high to low.
    SclFall,
    /// The data line went from low to high.
    SdaRise,
    /// The data line went from high to low.
    SdaFall,
}

impl EdgeEvent {
    /// The edge on `line` that ends at the level `high`.
    pub open spec fn of(line: Line, high: bool) -> EdgeEvent {
        match line {
            Line::Scl => if high {
                EdgeEvent::SclRise
            } else {
                EdgeEvent::SclFall
            },
            Line::Sda => if high {
                EdgeEvent::SdaRise
            } else {
                EdgeEvent::SdaFall
            },
        }
    }

    /// The line on which the edge happened.
    pub open spec fn on(self) -> Line {
        match self {
            EdgeEvent::SclRise | EdgeEvent::SclFall => Line::Scl,
            EdgeEvent::SdaRise | EdgeEvent::SdaFall => Line::Sda,
        }
    }

    /// Whether the line is high once the edge has passed.
    pub open spec fn rising(self) -> bool {
        self == EdgeEvent::SclRise || self == EdgeEvent::SdaRise
    }

    /// Classifies a transition: `line` changed and now reads `high`.
    pub fn from_transition(line: Line, high: bool) -> (event: EdgeEvent)
        ensures
            event == EdgeEvent::of(line, high),
            event.on() == line,
            event.rising() == high,
    {
        match line {
            Line::Scl => if high {
                EdgeEvent::SclRise
            } else {
                EdgeEvent::SclFall
            },
            Line::Sda => if high {
                EdgeEvent::SdaRise
            } else {
                EdgeEvent::SdaFall
            },
        }
    }

    /// The line on which the edge happened.
    pub fn line(self) -> (line: Line)
        ensures
            line == self.on(),
    {
        match self {
            EdgeEvent::SclRise | EdgeEvent::SclFall => Line::Scl,
            EdgeEvent::SdaRise | EdgeEvent::SdaFall => Line::Sda,
        }
    }

    /// The level of the line after the edge: `true` for a rise.
    pub fn level(self) -> (high: bool)
        ensures
            high == self.rising(),
    {
        match self {
            EdgeEvent::SclRise | EdgeEvent::SdaRise => true,
            EdgeEvent::SclFall | EdgeEvent::SdaFall => false,
        }
    }
}

} // verus!
