//! Turning raw input readings into player actions, paced by hold and
//! repeat delays.

use vstd::prelude::*;

use crate::movement::{Action, Move, PlayerActionEvent};

verus! {

/// Input pacing configuration, in milliseconds.
#[derive(Clone, Copy, Debug, PartialEq, Eq, Structural)]
pub struct Config {
    /// How long a key must be held before it repeats.
    pub min_duration_hold: u64,
    /// The least time between repeated events while held.
    pub min_duration_repeat: u64,
}

impl Default for Config {
    /// The default pacing: repeats start after 350 ms and fire every 100 ms.
    fn default() -> (r: Config)
        ensures
            r.min_duration_hold == 350,
            r.min_duration_repeat == 100,
    {
        Config { min_duration_hold: 350, min_duration_repeat: 100 }
    }
}

/// The elapsed time from `b` to `a`, zero when `a` is earlier.
pub open spec fn spec_since(a: u64, b: u64) -> int {
    if a >= b {
        a - b
    } else {
        0
    }
}

/// Runtime difference matching [`spec_since`].
fn duration_since(a: u64, b: u64) -> (r: u64)
    ensures
        r as int == spec_since(a, b),
{
    if a >= b {
        a - b
    } else {
        0
    }
}

/// Looks for input readings and decides which player action events to send:
/// a fresh press fires at once, a held key repeats only after the hold
/// delay and then no faster than the repeat delay.
#[derive(Clone, Copy, Debug, PartialEq, Eq, Structural)]
pub struct InputSystem {
    /// Whether the current press has already fired an event.
    pub dirty: bool,
    /// When the current press began, if one is held.
    pub hold_start: Option<u64>,
    /// When the last event fired.
    pub last_event: Option<u64>,
}

impl Default for InputSystem {
    /// A system with no press held and no event sent.
    fn default() -> (r: InputSystem)
        ensures
            r == (InputSystem { dirty: false, hold_start: None, last_event: None }),
    {
        InputSystem { dirty: false, hold_start: None, last_event: None }
    }
}

impl InputSystem {
    /// One tick of the pacing state machine: the new state and the event to
    /// send, if any.
    pub open spec fn spec_run(self, action: Option<Action>, now: u64, config: Config) -> (
        InputSystem,
        Option<PlayerActionEvent>,
    ) {
        match action {
            None => (
                InputSystem { dirty: false, hold_start: None, last_event: self.last_event },
                None,
            ),
            Some(a) => {
                let started = self.hold_start is Some;
                let hs2 = if started {
                    self.hold_start
                } else {
                    Some(now)
                };
                let allow = if started {
                    let hold_ok = spec_since(now, self.hold_start->0)
                        >= config.min_duration_hold;
                    let repeat_ok = self.last_event is Some && spec_since(
                        now,
                        self.last_event->0,
                    ) >= config.min_duration_repeat;
                    hold_ok && repeat_ok
                } else {
                    true
                };
                if !self.dirty || allow {
                    (
                        InputSystem { dirty: true, hold_start: hs2, last_event: Some(now) },
                        Some(PlayerActionEvent(a)),
                    )
                } else {
                    (
                        InputSystem {
                            dirty: self.dirty,
                            hold_start: hs2,
                            last_event: self.last_event,
                        },
                        None,
                    )
                }
            },
        }
    }

    /// Feed one input reading at the given time; the returned event, when
    /// present, is to be sent to the action channel.
    pub fn run(&mut self, action: Option<Action>, now_ms: u64, config: &Config) -> (emit: Option<
        PlayerActionEvent,
    >)
        ensures
            ({
                let (s2, e) = old(self).spec_run(action, now_ms, *config);
                *final(self) == s2 && emit == e
            }),
    {
        if let Some(a) = action {
            let current_time = now_ms;
            let allow_new_event = match self.hold_start {
                Some(hold_start) => {
                    let allow_hold_events = duration_since(current_time, hold_start)
                        >= config.min_duration_hold;
                    let allow_repeat_event = match self.last_event {
                        Some(time) => duration_since(current_time, time)
                            >= config.min_duration_repeat,
                        None => false,
                    };
                    allow_hold_events && allow_repeat_event
                },
                None => {
                    self.hold_start = Some(current_time);
                    true
                },
            };
            if !self.dirty || allow_new_event {
                self.dirty = true;
                self.last_event = Some(current_time);
                Some(PlayerActionEvent(a))
            } else {
                None
            }
        } else {
            self.dirty = false;
            self.hold_start = None;
            None
        }
    }
}

/// The action of a pressed action key, when one is down.
pub fn parse_action_event(action_is_down: Option<bool>) -> (r: Option<Action>)
    ensures
        r == (match action_is_down {
            Some(true) => Some(Action::Action),
            _ => None::<Action>,
        }),
{
    match action_is_down {
        Some(true) => Some(Action::Action),
        _ => None,
    }
}

/// The movement named by the input axes: the vertical axis wins over the
/// horizontal one.
pub fn parse_move_event(dx: i32, dy: i32) -> (r: Option<Action>)
    ensures
        r == (if dy == 1 {
            Some(Action::Move(Move::Up))
        } else if dy == -1 {
            Some(Action::Move(Move::Down))
        } else if dx == -1 {
            Some(Action::Move(Move::Left))
        } else if dx == 1 {
            Some(Action::Move(Move::Right))
        } else {
            None::<Action>
        }),
{
    let direction = if dy == 1 {
        Some(Move::Up)
    } else if dy == -1 {
        Some(Move::Down)
    } else if dx == -1 {
        Some(Move::Left)
    } else if dx == 1 {
        Some(Move::Right)
    } else {
        None
    };
    match direction {
        Some(dir) => Some(Action::Move(dir)),
        None => None,
    }
}

} // verus!
