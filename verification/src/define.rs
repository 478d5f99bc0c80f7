//! Fixed values of the game.
use vstd::prelude::*;

verus! {

/// Name of the program, used as the window title.
pub const TOOLNAME: &'static str = "jump_cube";

/// Horizontal position of the window on the screen, in pixels.
pub const DEFAULTWINDOWPOSX: i32 = 450;

/// Number of stages in a run; reaching the goal of this stage ends the run.
pub const MAXSTAGE: u32 = 3;

/// Side length of one block, in pixels.
pub const BLOCKSIZE: u32 = 20;

/// First column of the arena that may hold a loose block.
pub const FIRST_INNER_COLUMN: u32 = 2;

/// One past the last column of the arena that may hold a loose block.
pub const END_INNER_COLUMN: u32 = 49;

/// Column of the right-hand wall (the left-hand wall is column 0).
pub const RIGHT_WALL_COLUMN: u32 = 50;

/// Rows of arena per stage number: stage `n` is `ROWS_PER_STAGE * n` rows high.
pub const ROWS_PER_STAGE: u32 = 20;

/// Rows between the goal row and the ceiling.
pub const CEILING_GAP: u32 = 5;

} // verus!
