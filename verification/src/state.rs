//! The phases of the game and the machine that moves between them.
//!
//! A request for a new phase is only recorded. It takes effect when the
//! scheduler commits it between two frames, so whatever runs in the frame
//! of the request still sees the old phase.

use vstd::prelude::*;

verus! {

/// The phase the game is in.
#[derive(Clone, Copy, Debug, PartialEq, Eq, Hash, Structural)]
pub enum GameState {
    /// Assets are being loaded.
    Loading,
    /// The card table is shown and played.
    Solitaire,
    /// The menu is shown and waits for the player.
    Menu,
}

impl Default for GameState {
    /// The game begins by loading.
    fn default() -> (state: GameState)
        ensures
            state == GameState::Loading,
    {
        GameState::Loading
    }
}

/// A committed change of phase.
#[derive(Clone, Copy, Debug, PartialEq, Eq, Structural)]
pub struct StateTransition {
    pub exited: GameState,
    pub entered: GameState,
}

impl StateTransition {
    /// Whether the exit and entry hooks run: they do unless the phase that
    /// is entered is the one that is left.
    pub open spec fn runs_hooks(self) -> bool {
        self.exited != self.entered
    }

    /// Says whether the exit and entry hooks run for this transition.
    pub fn changes_phase(&self) -> (runs: bool)
        ensures
            runs == self.runs_hooks(),
    {
        self.exited != self.entered
    }
}

/// The present phase and the phase requested next, if any.
#[derive(Clone, Copy, Debug, PartialEq, Eq, Structural)]
pub struct StateMachine {
    pub current: GameState,
    pub pending: Option<GameState>,
}

impl Default for StateMachine {
    /// The machine of a new game: loading, with nothing requested.
    fn default() -> (machine: StateMachine)
        ensures
            machine == (StateMachine { current: GameState::Loading, pending: None }),
    {
        StateMachine { current: GameState::Loading, pending: None }
    }
}

impl StateMachine {
    /// The machine once the pending request, if any, has been committed.
    pub open spec fn committed(self) -> StateMachine {
        match self.pending {
            Some(next) => StateMachine { current: next, pending: None },
            None => self,
        }
    }

    /// The transition that committing the pending request reports.
    pub open spec fn transition(self) -> Option<StateTransition> {
        match self.pending {
            Some(next) => Some(StateTransition { exited: self.current, entered: next }),
            None => None,
        }
    }

    /// The machine of a new game.
    pub fn new() -> (machine: StateMachine)
        ensures
            machine == (StateMachine { current: GameState::Loading, pending: None }),
    {
        StateMachine { current: GameState::Loading, pending: None }
    }

    /// Requests a phase. Every request is accepted, whatever the present
    /// phase, and replaces an earlier request that was not yet committed.
    /// The present phase does not change.
    pub fn set(&mut self, next: GameState)
        ensures
            *final(self) == (StateMachine { current: old(self).current, pending: Some(next) }),
    {
        self.pending = Some(next);
    }

    /// Commits the pending request, as the scheduler does between frames.
    /// Without a request nothing happens and nothing is reported. With one,
    /// the requested phase becomes the present one, the request is used up,
    /// and the transition is reported, even where it leads from a phase to
    /// itself.
    pub fn apply_transition(&mut self) -> (transition: Option<StateTransition>)
        ensures
            *final(self) == old(self).committed(),
            transition == old(self).transition(),
    {
        match self.pending {
            Some(next) => {
                let exited = self.current;
                self.current = next;
                self.pending = None;
                Some(StateTransition { exited, entered: next })
            },
            None => None,
        }
    }

    /// Tells the machine that loading has completed: while the game is
    /// loading this requests the menu, in any other phase it does nothing.
    pub fn assets_loaded(&mut self)
        ensures
            *final(self) == old(self).after_loading(),
    {
        if self.current == GameState::Loading {
            self.pending = Some(GameState::Menu);
        }
    }

    /// The machine after it has been told that loading has completed.
    pub open spec fn after_loading(self) -> StateMachine {
        if self.current == GameState::Loading {
            StateMachine { current: self.current, pending: Some(GameState::Menu) }
        } else {
            self
        }
    }
}

/// A request changes nothing until it is committed, and once committed it
/// is the present phase: whatever was requested before, the last request
/// wins.
pub proof fn lemma_last_request_wins(machine: StateMachine, first: GameState, second: GameState)
    ensures
        ({
            let requested = StateMachine { current: machine.current, pending: Some(first) };
            let again = StateMachine { current: requested.current, pending: Some(second) };
            &&& again.current == machine.current
            &&& again.committed().current == second
            &&& again.committed().pending is None
        }),
{
}

} // verus!
