//! The game-state machine: which of the four top-level modes is active, how
//! per-frame inputs and simulation outcomes are interpreted as triggers, and
//! the transition table that maps a (state, trigger) pair to the next state
//! and a side effect for the host loop to carry out.

use vstd::prelude::*;

verus! {

/// The four top-level modes; exactly one is active per frame.
#[derive(Clone, Copy, Debug, PartialEq, Eq, Structural)]
pub enum GameState {
    MainMenu,
    Playing,
    Paused,
    GameOver,
}

/// What this frame asks of the state machine. At most one trigger is derived
/// per frame; `NoInput` stands for a frame with nothing relevant pressed and
/// no fatal collision.
#[derive(Clone, Copy, Debug, PartialEq, Eq, Structural)]
pub enum Trigger {
    Exit,
    Start,
    Pause,
    PlayerHit,
    Resume,
    Restart,
    NoInput,
}

/// The side effect a transition asks the host loop to perform.
#[derive(Clone, Copy, Debug, PartialEq, Eq, Structural)]
pub enum Effect {
    /// Terminate the process (leaving the main menu by the exit input).
    Terminate,
    /// Clear obstacles and projectiles, recentre the player, reset the score.
    ResetSession,
    /// The game just ended: write the high-score store if the frame's
    /// persistence condition held.
    PersistHighScore,
    /// Nothing beyond the state change itself.
    NoEffect,
}

/// The transition table. Every (state, trigger) pair outside the six listed
/// rows leaves the state unchanged and has no effect.
pub open spec fn spec_transition(s: GameState, t: Trigger) -> (GameState, Effect) {
    match (s, t) {
        (GameState::MainMenu, Trigger::Exit) => (GameState::MainMenu, Effect::Terminate),
        (GameState::MainMenu, Trigger::Start) => (GameState::Playing, Effect::ResetSession),
        (GameState::Playing, Trigger::Pause) => (GameState::Paused, Effect::NoEffect),
        (GameState::Playing, Trigger::PlayerHit) => (GameState::GameOver, Effect::PersistHighScore),
        (GameState::Paused, Trigger::Resume) => (GameState::Playing, Effect::NoEffect),
        (GameState::GameOver, Trigger::Restart) => (GameState::Playing, Effect::ResetSession),
        _ => (s, Effect::NoEffect),
    }
}

/// Whether a (state, trigger) pair is one of the six listed rows of the
/// transition table.
pub open spec fn spec_listed(s: GameState, t: Trigger) -> bool {
    ||| (s == GameState::MainMenu && t == Trigger::Exit)
    ||| (s == GameState::MainMenu && t == Trigger::Start)
    ||| (s == GameState::Playing && t == Trigger::Pause)
    ||| (s == GameState::Playing && t == Trigger::PlayerHit)
    ||| (s == GameState::Paused && t == Trigger::Resume)
    ||| (s == GameState::GameOver && t == Trigger::Restart)
}

/// Steps the state machine: returns the next state and the side effect the
/// host loop must perform.
pub fn transition(s: GameState, t: Trigger) -> (r: (GameState, Effect))
    ensures
        r == spec_transition(s, t),
{
    match (s, t) {
        (GameState::MainMenu, Trigger::Exit) => (GameState::MainMenu, Effect::Terminate),
        (GameState::MainMenu, Trigger::Start) => (GameState::Playing, Effect::ResetSession),
        (GameState::Playing, Trigger::Pause) => (GameState::Paused, Effect::NoEffect),
        (GameState::Playing, Trigger::PlayerHit) => (
            GameState::GameOver,
            Effect::PersistHighScore,
        ),
        (GameState::Paused, Trigger::Resume) => (GameState::Playing, Effect::NoEffect),
        (GameState::GameOver, Trigger::Restart) => (GameState::Playing, Effect::ResetSession),
        _ => (s, Effect::NoEffect),
    }
}

/// The transition table is exhaustive: a (state, trigger) pair outside the
/// six listed rows leaves the state unchanged and carries no effect.
pub proof fn lemma_transition_exhaustive(s: GameState, t: Trigger)
    ensures
        !spec_listed(s, t) ==> spec_transition(s, t) == (s, Effect::NoEffect),
{
}

/// How a frame's raw inputs are read in each state. The two relevant keys
/// are overloaded by state: the escape key exits the menu or pauses play, the
/// action key starts, resumes or restarts. During play a fatal
/// player-obstacle collision outranks the pause input pressed on the same
/// frame.
pub open spec fn spec_trigger_for(
    s: GameState,
    escape_pressed: bool,
    action_pressed: bool,
    player_hit: bool,
) -> Trigger {
    match s {
        GameState::MainMenu => if escape_pressed {
            Trigger::Exit
        } else if action_pressed {
            Trigger::Start
        } else {
            Trigger::NoInput
        },
        GameState::Playing => if player_hit {
            Trigger::PlayerHit
        } else if escape_pressed {
            Trigger::Pause
        } else {
            Trigger::NoInput
        },
        GameState::Paused => if action_pressed {
            Trigger::Resume
        } else {
            Trigger::NoInput
        },
        GameState::GameOver => if action_pressed {
            Trigger::Restart
        } else {
            Trigger::NoInput
        },
    }
}

/// Derives this frame's trigger from the pressed keys and, while playing,
/// from whether the player collided with an obstacle.
pub fn trigger_for(s: GameState, escape_pressed: bool, action_pressed: bool, player_hit: bool) -> (t:
    Trigger)
    ensures
        t == spec_trigger_for(s, escape_pressed, action_pressed, player_hit),
{
    match s {
        GameState::MainMenu => if escape_pressed {
            Trigger::Exit
        } else if action_pressed {
            Trigger::Start
        } else {
            Trigger::NoInput
        },
        GameState::Playing => if player_hit {
            Trigger::PlayerHit
        } else if escape_pressed {
            Trigger::Pause
        } else {
            Trigger::NoInput
        },
        GameState::Paused => if action_pressed {
            Trigger::Resume
        } else {
            Trigger::NoInput
        },
        GameState::GameOver => if action_pressed {
            Trigger::Restart
        } else {
            Trigger::NoInput
        },
    }
}

} // verus!
