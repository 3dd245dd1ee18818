//! The lobby state machine.
//!
//! The application moves between a main menu, a joining flow, the lobby,
//! the game and replay screens. Every teardown routes through `Cleanup`,
//! which always carries a pending next state that is consumed and cleared
//! on the transition out of `Cleanup`. The pending state must be present
//! and must never itself be `Cleanup` at the moment the exit logic runs;
//! callers establish both before requesting cleanup.

use vstd::prelude::*;

verus! {

/// The application's top-level states.
#[derive(Clone, Copy, PartialEq, Eq, Structural, Debug)]
pub enum AppState {
    Cleanup,
    InGame,
    GameOver,
    MainMenu,
    Replay,
    InLobby,
    JoiningLobby,
}

/// The destination consumed by the transition out of `Cleanup`.
pub struct CleanupConfig {
    pub next_state_after_cleanup: Option<AppState>,
}

impl CleanupConfig {
    /// A configuration with no pending destination.
    pub fn new() -> (r: CleanupConfig)
        ensures
            r.next_state_after_cleanup is None,
    {
        CleanupConfig { next_state_after_cleanup: None }
    }
}

/// The current application state.
pub struct GameState {
    current: AppState,
}

impl GameState {
    /// The current state.
    pub closed spec fn spec_current(self) -> AppState {
        self.current
    }

    /// A state machine starting in the given state.
    pub fn new(initial: AppState) -> (r: GameState)
        ensures
            r.spec_current() == initial,
    {
        GameState { current: initial }
    }

    /// The current state.
    pub fn current(&self) -> (r: AppState)
        ensures
            r == self.spec_current(),
    {
        self.current
    }

    /// Moves to `next`. Re-entering the current state is refused by the
    /// state driver, so callers must move to a different state.
    pub fn set(&mut self, next: AppState)
        requires
            old(self).spec_current() != next,
        ensures
            final(self).spec_current() == next,
    {
        self.current = next;
    }
}

/// Requests a teardown: records `next` as the destination to enter after
/// cleanup and moves to `Cleanup`.
pub fn begin_cleanup(
    cleanup_config: &mut CleanupConfig,
    app_state: &mut GameState,
    next: AppState,
)
    requires
        old(app_state).spec_current() != AppState::Cleanup,
        next != AppState::Cleanup,
    ensures
        final(cleanup_config).next_state_after_cleanup == Some(next),
        final(app_state).spec_current() == AppState::Cleanup,
{
    cleanup_config.next_state_after_cleanup = Some(next);
    app_state.set(AppState::Cleanup);
}

/// The transition out of `Cleanup`: once teardown has run, consumes the
/// pending destination and moves there. Does nothing outside `Cleanup`.
/// While in `Cleanup` the pending destination must be present and must
/// not itself be `Cleanup`; violating either is a caller bug, excluded
/// here and checked (with a panic) by the unverified shell.
pub fn switch_state_after_cleanup(cleanup_config: &mut CleanupConfig, app_state: &mut GameState)
    requires
        old(app_state).spec_current() == AppState::Cleanup ==> (old(
            cleanup_config,
        ).next_state_after_cleanup matches Some(s) && s != AppState::Cleanup),
    ensures
        if old(app_state).spec_current() == AppState::Cleanup {
            &&& final(app_state).spec_current() == old(
                cleanup_config,
            ).next_state_after_cleanup.unwrap()
            &&& final(cleanup_config).next_state_after_cleanup is None
        } else {
            &&& *final(app_state) == *old(app_state)
            &&& *final(cleanup_config) == *old(cleanup_config)
        },
{
    if app_state.current() == AppState::Cleanup {
        match cleanup_config.next_state_after_cleanup {
            Some(state) => {
                app_state.set(state);
                cleanup_config.next_state_after_cleanup = None;
            },
            None => {
                proof {
                    assert(false);
                }
            },
        }
    }
}

} // verus!
