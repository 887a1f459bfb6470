//! The same computer states, with one type per state: conversions between
//! states are `From` impls, so that impossible transitions do not even
//! compile.

use vstd::prelude::*;

verus! {

/// A computer that is off.
#[derive(Debug, PartialEq, Eq, Structural)]
pub struct Off;

/// A computer that is running.
#[derive(Debug, PartialEq, Eq, Structural)]
pub struct Running {
    /// Time from the start of the computer.
    pub uptime: u32,
    /// Time since the last mouse move (or since start if no mouse move
    /// has happened).
    pub idle_time: u32,
}

/// A computer that is asleep.
#[derive(Debug, PartialEq, Eq, Structural)]
pub struct Sleeping {
    /// Time from the start of the computer.
    pub uptime: u32,
    /// Time since the last transition to sleep.
    pub sleep_time: u32,
}

pub enum Event {
    TurnOn,
    TurnOff,
    PassTime(u32),
    MoveMouse,
}

/// Turning an off computer on starts it with both clocks at zero.
impl From<Off> for Running {
    fn from(_v: Off) -> (r: Running) {
        Running { uptime: 0, idle_time: 0 }
    }
}

impl vstd::std_specs::convert::FromSpecImpl<Off> for Running {
    open spec fn obeys_from_spec() -> bool {
        true
    }

    open spec fn from_spec(v: Off) -> Running {
        Running { uptime: 0, idle_time: 0 }
    }
}

/// Turning a running computer off forgets its clocks.
impl From<Running> for Off {
    fn from(_v: Running) -> (r: Off) {
        Off {  }
    }
}

impl vstd::std_specs::convert::FromSpecImpl<Running> for Off {
    open spec fn obeys_from_spec() -> bool {
        true
    }

    open spec fn from_spec(v: Running) -> Off {
        Off {  }
    }
}

} // verus!
