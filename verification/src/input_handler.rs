//! Keyboard control decisions: which pipeline action each key asks for, and
//! where a relative seek lands. The thread that reads keys and talks to the
//! pipeline lives outside; it performs what these decisions return.

use vstd::prelude::*;

verus! {

/// How far one arrow press seeks, in nanoseconds.
pub const SEEK_STEP_NS: u64 = 5_000_000_000;

/// A key as read from the terminal, reduced to what the controls react to.
#[derive(Clone, Copy, PartialEq, Eq, Structural, Debug)]
pub enum Key {
    Right,
    Left,
    Up,
    Down,
    Char(char),
    Ctrl(char),
    Esc,
    Other,
}

/// The two pipeline states the controls switch between.
#[derive(Clone, Copy, PartialEq, Eq, Structural, Debug)]
pub enum PlayState {
    Playing,
    Paused,
}

/// What the control thread must do for one key.
#[derive(Clone, Copy, PartialEq, Eq, Structural, Debug)]
pub enum ControlAction {
    /// Seek five seconds forward, flushing and accurate.
    SeekForward,
    /// Seek five seconds back.
    SeekBackward,
    /// Change the pipeline to the carried state.
    SetState(PlayState),
    /// Post end-of-stream on the bus and stop reading keys.
    PostEos,
    /// Nothing.
    Ignore,
}

/// The state after a key and the action it asks for: arrows seek or switch
/// the play state, space toggles it, and the quit keys post end-of-stream.
/// The pipeline is told of the state only when it changed.
pub open spec fn spec_control_step(state: PlayState, key: Key) -> (PlayState, ControlAction) {
    match key {
        Key::Right => (state, ControlAction::SeekForward),
        Key::Left => (state, ControlAction::SeekBackward),
        Key::Char(c) => if c == ' ' {
            let toggled = if state is Playing {
                PlayState::Paused
            } else {
                PlayState::Playing
            };
            (toggled, ControlAction::SetState(toggled))
        } else if c == 'q' || c == 'Q' {
            (state, ControlAction::PostEos)
        } else {
            (state, ControlAction::Ignore)
        },
        Key::Up => if state is Playing {
            (state, ControlAction::Ignore)
        } else {
            (PlayState::Playing, ControlAction::SetState(PlayState::Playing))
        },
        Key::Down => if state is Paused {
            (state, ControlAction::Ignore)
        } else {
            (PlayState::Paused, ControlAction::SetState(PlayState::Paused))
        },
        Key::Ctrl(c) => if c == 'c' {
            (state, ControlAction::PostEos)
        } else {
            (state, ControlAction::Ignore)
        },
        Key::Esc => (state, ControlAction::PostEos),
        Key::Other => (state, ControlAction::Ignore),
    }
}

/// One step of the control loop.
pub fn play_controls_step(state: PlayState, key: Key) -> (r: (PlayState, ControlAction))
    ensures
        r == spec_control_step(state, key),
{
    match key {
        Key::Right => (state, ControlAction::SeekForward),
        Key::Left => (state, ControlAction::SeekBackward),
        Key::Char(c) => {
            if c == ' ' {
                let toggled: PlayState = match state {
                    PlayState::Playing => PlayState::Paused,
                    PlayState::Paused => PlayState::Playing,
                };
                (toggled, ControlAction::SetState(toggled))
            } else if c == 'q' || c == 'Q' {
                (state, ControlAction::PostEos)
            } else {
                (state, ControlAction::Ignore)
            }
        },
        Key::Up => {
            match state {
                PlayState::Playing => (state, ControlAction::Ignore),
                PlayState::Paused => (
                    PlayState::Playing,
                    ControlAction::SetState(PlayState::Playing),
                ),
            }
        },
        Key::Down => {
            match state {
                PlayState::Paused => (state, ControlAction::Ignore),
                PlayState::Playing => (
                    PlayState::Paused,
                    ControlAction::SetState(PlayState::Paused),
                ),
            }
        },
        Key::Ctrl(c) => {
            if c == 'c' {
                (state, ControlAction::PostEos)
            } else {
                (state, ControlAction::Ignore)
            }
        },
        Key::Esc => (state, ControlAction::PostEos),
        Key::Other => (state, ControlAction::Ignore),
    }
}

/// Where a five-second relative seek lands: forward seeks clamp to the
/// duration when it is known and otherwise saturate, backward seeks stop at
/// zero.
pub fn seek_target(position_ns: u64, duration_ns: Option<u64>, forward: bool) -> (r: u64)
    ensures
        forward && duration_ns is None ==> r == if position_ns + SEEK_STEP_NS <= u64::MAX {
            (position_ns + SEEK_STEP_NS) as u64
        } else {
            u64::MAX
        },
        forward ==> (duration_ns matches Some(d) ==> r == if position_ns + SEEK_STEP_NS <= d {
            (position_ns + SEEK_STEP_NS) as u64
        } else {
            d
        }),
        !forward ==> r == if position_ns >= SEEK_STEP_NS {
            (position_ns - SEEK_STEP_NS) as u64
        } else {
            0
        },
{
    if forward {
        let stepped: u64 = if position_ns <= u64::MAX - SEEK_STEP_NS {
            position_ns + SEEK_STEP_NS
        } else {
            u64::MAX
        };
        match duration_ns {
            Some(d) => {
                if stepped <= d {
                    stepped
                } else {
                    d
                }
            },
            None => stepped,
        }
    } else {
        if position_ns >= SEEK_STEP_NS {
            position_ns - SEEK_STEP_NS
        } else {
            0
        }
    }
}

} // verus!
