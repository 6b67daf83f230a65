//! Greedy turn-by-turn control of a star-shaped robot arm that carries items
//! across a square board until every item rests on a target cell.
//!
//! The arm has a root that walks over the board one step per turn, and leaves that
//! point away from the root in one of four directions. In a turn every leaf may make
//! a quarter turn and may pick up or put down one item. [`GameState::action`] plays one turn,
//! [`GameState::run`] plays turns until every item rests on a target or the turn
//! limit is reached.

pub mod arm;
pub mod board;
pub mod game;
pub mod geometry;
pub mod input;
pub mod nearest;
pub mod operation;
pub mod run;
pub mod text;
pub mod turn;

pub use arm::{Arm, SingleNodeArmState, StarArmState, V_MAX};
pub use board::{
    count_arrived_takoyaki, is_square, pretty_print_board_row, BoardState, Grid, N_MAX,
};
pub use game::{solve, GameState};
pub use geometry::{calc_dist, is_close, Direction, Point};
pub use input::{dimensions_ok, parse_board, parse_row};
pub use operation::{Command, Operation};
pub use run::{Run, MAX_OPERATION_TURN};
