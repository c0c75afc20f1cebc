//! Game progress data.
//!
//! The engine itself is pure; these types only carry the surrounding
//! application's view of a play session.  The application flips the state to
//! `StageClear` when an evaluated expression reaches ten and back to
//! `Playing` when it advances to the next puzzle; no rule of the engine ever
//! drives a transition to `GameOver`.

use vstd::prelude::*;

verus! {

/// Where a play session stands.
#[derive(Debug, Clone, PartialEq)]
pub enum GameState {
    /// A puzzle is on the table.
    Playing,
    /// The current puzzle was solved.
    StageClear,
    /// The session ended.
    GameOver,
}

impl Default for GameState {
    /// A session starts in play.
    fn default() -> (r: Self)
        ensures
            r == GameState::Playing,
    {
        GameState::Playing
    }
}

/// The counters of a play session, owned and advanced by the surrounding
/// application; the engine never reads or writes them.
pub struct GameProgress {
    pub current_stage: u32,
    pub score: u32,
    pub stages_cleared: u32,
}

impl Default for GameProgress {
    /// A session starts at stage one with nothing scored or cleared.
    fn default() -> (r: Self)
        ensures
            r.current_stage == 1,
            r.score == 0,
            r.stages_cleared == 0,
    {
        GameProgress { current_stage: 1, score: 0, stages_cleared: 0 }
    }
}

} // verus!
