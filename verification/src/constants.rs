use vstd::prelude::*;

verus! {

pub const WINDOW_HEIGHT: u32 = 720;

pub const WINDOW_WIDTH: u32 = WINDOW_HEIGHT * 16 / 9;

pub const FPS: u64 = 60;

pub const POINT_TO_WIN: u32 = 15;

pub const PADDLE_L_X: i32 = (WINDOW_WIDTH / 16 - PADDLE_WIDTH / 2) as i32;

pub const PADDLE_R_X: i32 = ((WINDOW_WIDTH - WINDOW_WIDTH / 16) - PADDLE_WIDTH / 2) as i32;

pub const PADDLE_L_HEIGHT: u32 = WINDOW_HEIGHT / 8;

pub const PADDLE_R_HEIGHT: u32 = WINDOW_HEIGHT / 8;

pub const PADDLE_WIDTH: u32 = WINDOW_WIDTH / 64;

pub const PADDLE_L_STEP: u32 = PADDLE_L_HEIGHT / 8;

pub const PADDLE_R_STEP: u32 = PADDLE_R_HEIGHT / 8;

pub const MID_LINE_WIDTH: u32 = WINDOW_WIDTH / 160;

pub const MID_LINE_SEGMENTS: u32 = 32;

pub const BALL_DIAMETER: u32 = (WINDOW_WIDTH + WINDOW_HEIGHT) / 140;

pub const BALL_VX: i32 = (WINDOW_WIDTH / 100) as i32;

pub const BALL_VY: i32 = BALL_VX;

pub const DISPLAY_COEFFICENT: u32 = (WINDOW_WIDTH + WINDOW_HEIGHT) / 90;

} // verus!
