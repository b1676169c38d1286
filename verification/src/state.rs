//! The phases of a session.

use vstd::prelude::*;

verus! {

/// The phase a session is in: the simulation runs only during play.
#[derive(Clone, Copy, Debug, PartialEq, Eq, Hash, Structural)]
pub enum GameState {
    /// Assets are still being loaded; nothing moves.
    AssetLoading,
    /// The simulation is running.
    Play,
}

impl GameState {
    /// The phase in which a session starts.
    pub open spec fn initial() -> GameState {
        GameState::AssetLoading
    }

    /// The phase that follows once loading has finished: play, for good.
    pub open spec fn after_loading(self) -> GameState {
        GameState::Play
    }

    /// Moves on when loading has finished.
    pub fn assets_loaded(self) -> (next: GameState)
        ensures
            next == self.after_loading(),
    {
        GameState::Play
    }

    /// Whether the systems of the simulation run in this phase.
    pub fn runs_simulation(self) -> (runs: bool)
        ensures
            runs == (self == GameState::Play),
    {
        match self {
            GameState::AssetLoading => false,
            GameState::Play => true,
        }
    }
}

impl Default for GameState {
    fn default() -> (state: GameState)
        ensures
            state == GameState::initial(),
    {
        GameState::AssetLoading
    }
}

} // verus!
