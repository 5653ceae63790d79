use vstd::prelude::*;

pub mod arena;
pub mod ball;
pub mod constants;
pub mod error;
pub mod flight;
pub mod frame;
pub mod game;
pub mod game_status;
pub mod history;
pub mod mid_line;
pub mod paddle;
pub mod point_display;
pub mod probe;
pub mod rect;
pub mod segment;
pub mod team;
pub mod virtual_ball;
pub mod walls;
