//! Game logic of Task Masker: a streamer's island where chatters and
//! subscribers travel to the streamer's character to speak.
use vstd::prelude::*;

pub mod audio;
pub mod chat_interactions;
pub mod entities;
pub mod map;
pub mod ui;
pub mod visual;

verus! {

/// The screens the game moves through.
#[derive(Debug, PartialEq, Eq, Clone, Copy, Structural)]
pub enum GameState {
    Start,
    InGame,
    End,
}

impl GameState {
    /// The screen shown first.
    pub fn initial() -> (state: GameState)
        ensures
            state == GameState::Start,
    {
        GameState::Start
    }

    /// The screen that pressing Enter moves to.
    pub fn cycled(&self) -> (next: GameState)
        ensures
            next == self.spec_cycled(),
    {
        match self {
            GameState::Start => GameState::InGame,
            GameState::InGame => GameState::End,
            GameState::End => GameState::Start,
        }
    }

    pub open spec fn spec_cycled(&self) -> GameState {
        match self {
            GameState::Start => GameState::InGame,
            GameState::InGame => GameState::End,
            GameState::End => GameState::Start,
        }
    }
}

/// Pressing Enter three times brings the game back to the screen it started on.
pub proof fn lemma_screens_cycle(state: GameState)
    ensures
        state.spec_cycled().spec_cycled().spec_cycled() == state,
        state.spec_cycled() != state,
{
}

} // verus!
