//! The state of a run: which screen is up, which stage is played, and the
//! player's jump and landing flags.
use vstd::prelude::*;

pub mod game;
pub mod ending;

verus! {

/// The screen the program shows.
#[derive(Clone, Copy, Debug, PartialEq, Eq, Hash, Structural)]
pub enum AppState {
    /// A stage is being played.
    Game,
    /// The run is over and its results are shown.
    Ending,
}

/// The phase of a stage.
#[derive(Clone, Copy, Debug, PartialEq, Eq, Hash, Structural)]
pub enum GameState {
    In,
    Play,
    Out,
}

/// The whole-number and yes/no part of the game's state.
#[derive(Clone, Copy, Debug, PartialEq, Eq, Structural)]
pub struct MyApp {
    /// The current stage must be laid out anew (and the player put back).
    pub is_reset_game: bool,
    /// The stage being played, from 1.
    pub stage_count: u32,
    /// Jumps made in this run.
    pub jump_count: usize,
    /// The ending's text has come to rest; a click starts a new run.
    pub is_ending_end: bool,
    /// The game has been played through once; blocks then carry numbers.
    pub is_clear: bool,
    /// The player stands on a block.
    pub is_ground: bool,
    /// The player is on the way up after a jump.
    pub is_rising: bool,
    /// The player jumped in this frame.
    pub is_jump: bool,
    /// The player is crouching, ready to jump.
    pub is_bend: bool,
    /// The player touched a block in the last frame.
    pub is_block_hit: bool,
}

/// The state at the start of a run, keeping whether the game has been cleared.
pub open spec fn new_run(is_clear: bool) -> MyApp {
    MyApp {
        is_reset_game: false,
        stage_count: 1,
        jump_count: 0,
        is_ending_end: false,
        is_clear,
        is_ground: false,
        is_rising: false,
        is_jump: false,
        is_bend: false,
        is_block_hit: false,
    }
}

impl MyApp {
    /// The state at the start of a run.
    pub fn new_run(is_clear: bool) -> (app: MyApp)
        ensures
            app == new_run(is_clear),
    {
        MyApp {
            is_reset_game: false,
            stage_count: 1,
            jump_count: 0,
            is_ending_end: false,
            is_clear,
            is_ground: false,
            is_rising: false,
            is_jump: false,
            is_bend: false,
            is_block_hit: false,
        }
    }
}

impl Default for MyApp {
    /// The state when the program starts: stage 1, nothing cleared yet.
    fn default() -> (app: MyApp)
        ensures
            app == new_run(false),
    {
        MyApp::new_run(false)
    }
}

} // verus!
