//! A small state machine for a computer that can be off, running or
//! sleeping, driven by power, time and mouse events.
//!
//! While it is on, the machine remembers the time since it was started
//! (`uptime`). While running it tracks the time since the last mouse
//! move (`idle_time`); too much idle time sends it to sleep, far too
//! much shuts it down. While sleeping it tracks the time spent asleep
//! (`sleep_time`); too much of that shuts it down as well.

use vstd::prelude::*;

verus! {

#[derive(Debug, PartialEq, Eq, Structural, Clone, Copy)]
pub enum ComputerStatus {
    Off,
    On,
    Sleeping,
}

/// The state as the contracts speak of it.
#[verifier::ext_equal]
pub struct Model {
    pub status: ComputerStatus,
    pub uptime: int,
    pub idle_time: int,
    pub sleep_time: int,
}

pub struct ComputerState {
    status: ComputerStatus,
    uptime: u32,
    idle_time: u32,
    sleep_time: u32,
}

impl View for ComputerState {
    type V = Model;

    closed spec fn view(&self) -> Model {
        Model {
            status: self.status,
            uptime: self.uptime as int,
            idle_time: self.idle_time as int,
            sleep_time: self.sleep_time as int,
        }
    }
}

pub enum Event {
    TurnOn,
    TurnOff,
    PassTime(u32),
    MoveMouse,
}

/// The machine as it comes off: everything zeroed.
pub open spec fn spec_off() -> Model {
    Model { status: ComputerStatus::Off, uptime: 0, idle_time: 0, sleep_time: 0 }
}

/// The machine freshly turned on: running, with all clocks zeroed.
pub open spec fn spec_on() -> Model {
    Model { status: ComputerStatus::On, uptime: 0, idle_time: 0, sleep_time: 0 }
}

/// What one event does to the machine.
///
/// Turning on only matters when the machine is off; turning off resets
/// it whenever it is on. Passing time adds to the clocks of the current
/// status: a running machine whose idle time passes 1500 shuts down, and
/// past 1000 it falls asleep carrying the excess as sleep time; a
/// sleeping machine whose sleep time passes 500 shuts down. A mouse move
/// wakes a sleeping machine and clears the idle and sleep clocks.
pub open spec fn spec_transition(m: Model, event: Event) -> Model {
    match event {
        Event::TurnOn => if m.status == ComputerStatus::Off {
            spec_on()
        } else {
            m
        },
        Event::TurnOff => if m.status != ComputerStatus::Off {
            spec_off()
        } else {
            m
        },
        Event::PassTime(t) => match m.status {
            ComputerStatus::On => {
                let uptime = m.uptime + t;
                let idle_time = m.idle_time + t;
                if idle_time > 1500 {
                    spec_off()
                } else if idle_time > 1000 {
                    Model {
                        status: ComputerStatus::Sleeping,
                        uptime,
                        idle_time: 0,
                        sleep_time: idle_time - 1000,
                    }
                } else {
                    Model { status: ComputerStatus::On, uptime, idle_time, ..m }
                }
            },
            ComputerStatus::Sleeping => {
                let sleep_time = m.sleep_time + t;
                if sleep_time > 500 {
                    spec_off()
                } else {
                    Model {
                        status: ComputerStatus::Sleeping,
                        uptime: m.uptime + t,
                        idle_time: 0,
                        sleep_time,
                    }
                }
            },
            ComputerStatus::Off => m,
        },
        Event::MoveMouse => Model {
            status: if m.status == ComputerStatus::Sleeping {
                ComputerStatus::On
            } else {
                m.status
            },
            idle_time: 0,
            sleep_time: 0,
            ..m
        },
    }
}

impl ComputerState {
    /// Returns a computer that is turned off.
    pub fn new_off() -> (r: Self)
        ensures
            r@ == spec_off(),
    {
        Self {
            status: ComputerStatus::Off,
            uptime: 0,
            idle_time: 0,
            sleep_time: 0,
        }
    }

    /// Returns a computer that is turned on.
    pub fn new_on() -> (r: Self)
        ensures
            r@ == spec_on(),
    {
        Self {
            status: ComputerStatus::On,
            uptime: 0,
            idle_time: 0,
            sleep_time: 0,
        }
    }

    pub fn is_on(&self) -> (r: bool)
        ensures
            r == (self@.status != ComputerStatus::Off),
    {
        self.status != ComputerStatus::Off
    }

    pub fn is_off(&self) -> (r: bool)
        ensures
            r == (self@.status == ComputerStatus::Off),
    {
        self.status == ComputerStatus::Off
    }

    pub fn is_sleeping(&self) -> (r: bool)
        ensures
            r == (self@.status == ComputerStatus::Sleeping),
    {
        self.status == ComputerStatus::Sleeping
    }

    pub fn uptime(&self) -> (r: u32)
        ensures
            r == self@.uptime,
    {
        self.uptime
    }

    pub fn idle_time(&self) -> (r: u32)
        ensures
            r == self@.idle_time,
    {
        self.idle_time
    }

    pub fn sleep_time(&self) -> (r: u32)
        ensures
            r == self@.sleep_time,
    {
        self.sleep_time
    }
}

/// Applies one event to the machine. The precondition keeps the clock
/// sums inside `u32`, which only matters for a `PassTime` event.
pub fn pc_transition(computer: ComputerState, event: Event) -> (r: ComputerState)
    requires
        event matches Event::PassTime(t) ==> {
            &&& computer@.status == ComputerStatus::On ==> computer@.uptime + t <= u32::MAX
                && computer@.idle_time + t <= u32::MAX
            &&& computer@.status == ComputerStatus::Sleeping ==> computer@.sleep_time + t
                <= u32::MAX && (computer@.sleep_time + t <= 500 ==> computer@.uptime + t
                <= u32::MAX)
        },
    ensures
        r@ == spec_transition(computer@, event),
{
    let mut computer = computer;
    match event {
        Event::TurnOn => {
            if computer.is_off() {
                computer = ComputerState::new_on();
            }
        },
        Event::TurnOff => {
            if computer.is_on() {
                computer = ComputerState::new_off();
            }
        },
        Event::PassTime(t) => match computer.status {
            ComputerStatus::On => {
                computer.uptime = computer.uptime + t;
                computer.idle_time = computer.idle_time + t;
                if computer.idle_time > 1500 {
                    computer = ComputerState::new_off();
                } else if computer.idle_time > 1000 {
                    computer.status = ComputerStatus::Sleeping;
                    computer.sleep_time = computer.idle_time - 1000;
                    computer.idle_time = 0;
                }
            },
            ComputerStatus::Sleeping => {
                computer.sleep_time = computer.sleep_time + t;
                if computer.sleep_time > 500 {
                    computer = ComputerState::new_off();
                } else {
                    computer.idle_time = 0;
                    computer.uptime = computer.uptime + t;
                }
            },
            ComputerStatus::Off => {},
        },
        Event::MoveMouse => {
            if computer.status == ComputerStatus::Sleeping {
                computer.status = ComputerStatus::On;
            }
            computer.idle_time = 0;
            computer.sleep_time = 0;
        },
    }
    computer
}

} // verus!
