use vstd::prelude::*;
use crate::ball::{first_serve, Ball, BallModel};
use crate::constants::{
    BALL_DIAMETER, BALL_VX, BALL_VY, PADDLE_L_HEIGHT, PADDLE_L_STEP, PADDLE_L_X, PADDLE_R_HEIGHT,
    PADDLE_R_STEP, PADDLE_R_X, PADDLE_WIDTH, POINT_TO_WIN, WINDOW_HEIGHT, WINDOW_WIDTH,
};
use crate::error::GameInfiniteLoop;
use crate::game_status::GameStatus;
use crate::paddle::{Paddle, PaddleModel};
use crate::point_display::{PointDisplay, PointDisplayModel};
use crate::rect::Rect;
use crate::team::TeamName;
use crate::walls::Court;

verus! {

/// What an event of the window means to the game.
#[derive(Debug, Clone, Copy, PartialEq, Eq, Structural)]
pub enum Input {
    Quit,
    Reset,
    Pause,
    Other,
}

/// A key that moves a paddle while it is held down.
#[derive(Debug, Clone, Copy, PartialEq, Eq, Structural)]
pub enum Key {
    LeftUp,
    LeftDown,
    RightUp,
    RightDown,
}

/// How a frame is to be drawn.
#[derive(Debug, Clone, Copy, PartialEq, Eq, Structural)]
pub enum Look {
    Play,
    Pause,
}

/// What one round of the game's loop leaves to do: how to draw the frame, if
/// at all, whether the next round acts, and whether the loop ends.
#[derive(Debug, Clone, Copy, PartialEq, Eq, Structural)]
pub struct Step {
    pub look: Option<Look>,
    pub draw: bool,
    pub quit: bool,
}

/// How far from the origin the ball may be, and how fast, when a frame is
/// played.
pub const RANGE: i32 = 0x10_0000;

/// Where the left paddle stands at the start.
pub open spec fn paddle_l_start() -> PaddleModel {
    PaddleModel {
        rect: Rect::placed(
            PADDLE_L_X as int,
            (WINDOW_HEIGHT - PADDLE_L_HEIGHT) / 2,
            PADDLE_WIDTH as int,
            PADDLE_L_HEIGHT as int,
        ),
        step: PADDLE_L_STEP as int,
    }
}

/// Where the right paddle stands at the start.
pub open spec fn paddle_r_start() -> PaddleModel {
    PaddleModel {
        rect: Rect::placed(
            PADDLE_R_X as int,
            (WINDOW_HEIGHT - PADDLE_R_HEIGHT) / 2,
            PADDLE_WIDTH as int,
            PADDLE_R_HEIGHT as int,
        ),
        step: PADDLE_R_STEP as int,
    }
}

/// The abscissa from which the ball is served.
pub open spec fn serve_x() -> int {
    (WINDOW_WIDTH - BALL_DIAMETER) / 2
}

/// The ordinate from which the ball is served.
pub open spec fn serve_y() -> int {
    (WINDOW_HEIGHT - BALL_DIAMETER) / 2
}

/// The field of the game: the window.
pub open spec fn window() -> Court {
    Court { x_min: 0, x_max: WINDOW_WIDTH as int, y_min: 0, y_max: WINDOW_HEIGHT as int }
}

/// What the game does with an event: nothing where the result is `None`;
/// else it takes the status given, or fails. The pause key makes a running
/// game wait and a waiting game go back to what it did before; a game that
/// waited before it waited cannot go back.
pub open spec fn decided(status: GameStatus, prev_status: GameStatus, input: Input) -> Option<
    Result<GameStatus, GameInfiniteLoop>,
> {
    match input {
        Input::Quit => Some(Ok(GameStatus::Quit)),
        Input::Reset => Some(Ok(GameStatus::Reset)),
        Input::Pause => if status == GameStatus::Waiting {
            if prev_status == GameStatus::Waiting {
                Some(Err(GameInfiniteLoop))
            } else {
                Some(Ok(prev_status))
            }
        } else {
            Some(Ok(GameStatus::Waiting))
        },
        Input::Other => None,
    }
}

/// How long the loop sleeps before the next frame, in nanoseconds, when
/// `elapsed` nanoseconds have passed since the last: what is missing to the
/// duration of a frame, and not at all where nothing is missing.
pub open spec fn rest_of_frame(fps: int, elapsed: int) -> Option<int> {
    if 1_000_000_000int / fps > elapsed {
        Some(1_000_000_000int / fps - elapsed)
    } else {
        None
    }
}

/// How long the loop sleeps before the next frame.
pub fn rest(fps: u64, elapsed: u128) -> (r: Option<u64>)
    requires
        fps > 0,
    ensures
        match r {
            Some(nanos) => rest_of_frame(fps as int, elapsed as int) == Some(nanos as int),
            None => rest_of_frame(fps as int, elapsed as int) is None,
        },
{
    let frame: u64 = 1_000_000_000u64 / fps;
    if frame as u128 > elapsed {
        Some(frame - elapsed as u64)
    } else {
        None
    }
}

/// What a game is: the paddles, the ball, the points, the frames per second,
/// what the game does and what it did before.
pub struct GameModel {
    pub paddle_l: PaddleModel,
    pub paddle_r: PaddleModel,
    pub ball: BallModel,
    pub points: PointDisplayModel,
    pub fps: int,
    pub status: GameStatus,
    pub prev_status: GameStatus,
}

/// A game that has not begun: the paddles at the middle of their sides, the
/// ball served from the middle of the window, no points, and the game
/// waiting to play.
pub open spec fn fresh(fps: int, vx_serve: int, heads: bool, permille: int) -> GameModel {
    GameModel {
        paddle_l: paddle_l_start(),
        paddle_r: paddle_r_start(),
        ball: first_serve(
            serve_x(),
            serve_y(),
            BALL_DIAMETER as int,
            BALL_VX as int,
            BALL_VY as int,
            vx_serve,
            heads,
            permille,
        ),
        points: PointDisplayModel {
            point_left: 0,
            point_right: 0,
            rects_left: seq![crate::point_display::rect_left(0)],
            rects_right: seq![crate::point_display::rect_right(0)],
        },
        fps,
        status: GameStatus::Waiting,
        prev_status: GameStatus::Play,
    }
}

impl GameModel {
    /// The parts are well formed.
    pub open spec fn wf(self) -> bool {
        &&& self.paddle_l.wf()
        &&& self.paddle_r.wf()
        &&& self.ball.wf()
        &&& self.points.wf()
    }

    /// Whether a frame can be played: the ball is near enough and slow
    /// enough, and the points have room for one more.
    pub open spec fn in_range(self) -> bool {
        &&& -RANGE <= self.ball.rect.x <= RANGE
        &&& -RANGE <= self.ball.rect.y <= RANGE
        &&& -RANGE <= self.ball.vx <= RANGE
        &&& -RANGE <= self.ball.vy <= RANGE
        &&& self.points.point_left < 9999
        &&& self.points.point_right < u32::MAX
    }

    /// The game with a new status; the old one is kept as the one before.
    pub open spec fn with_status(self, status: GameStatus) -> GameModel {
        GameModel { status, prev_status: self.status, ..self }
    }

    /// The game begun anew: paddles and ball as at the start, no points, and
    /// the game playing.
    pub open spec fn anew(self, heads: bool, permille: int) -> GameModel {
        GameModel {
            points: self.points.cleared(),
            status: GameStatus::Play,
            prev_status: self.status,
            ..fresh(self.fps, self.ball.vx_serve, heads, permille)
        }
    }

    /// The game after a key has moved its paddle: up as far as the upper side
    /// of the window, or down as far as the lower side, with the ball pushed
    /// along where it is in the way.
    pub open spec fn moved(self, key: Key) -> GameModel {
        match key {
            Key::LeftUp => GameModel {
                paddle_l: self.paddle_l.moved_up(0, self.ball),
                ball: self.paddle_l.ball_moved_up(0, self.ball),
                ..self
            },
            Key::LeftDown => GameModel {
                paddle_l: self.paddle_l.moved_down(WINDOW_HEIGHT as int, self.ball),
                ball: self.paddle_l.ball_moved_down(WINDOW_HEIGHT as int, self.ball),
                ..self
            },
            Key::RightUp => GameModel {
                paddle_r: self.paddle_r.moved_up(0, self.ball),
                ball: self.paddle_r.ball_moved_up(0, self.ball),
                ..self
            },
            Key::RightDown => GameModel {
                paddle_r: self.paddle_r.moved_down(WINDOW_HEIGHT as int, self.ball),
                ball: self.paddle_r.ball_moved_down(WINDOW_HEIGHT as int, self.ball),
                ..self
            },
        }
    }

    /// The game after the keys have moved their paddles, one after the other.
    pub open spec fn moved_all(self, keys: Seq<Key>) -> GameModel
        decreases keys.len(),
    {
        if keys.len() == 0 {
            self
        } else {
            self.moved_all(keys.drop_last()).moved(keys.last())
        }
    }

    /// The game after the ball has flown through one frame among the paddles,
    /// and the side that scored.
    pub open spec fn flown(self) -> (GameModel, Option<TeamName>) {
        let end = self.ball.after_frame(Some((self.paddle_l, self.paddle_r)), window());
        (GameModel { ball: end.0, ..self }, end.1)
    }

    /// The game after `team` has scored: one point more, and the ball served
    /// from the middle toward the side that scored.
    pub open spec fn scored(self, team: TeamName, permille: int) -> GameModel {
        GameModel {
            points: self.points.scored(team),
            ball: self.ball.served(serve_x(), serve_y(), team, permille),
            ..self
        }
    }

    /// The game at its end if a team has the points to win.
    pub open spec fn judged(self) -> GameModel {
        if self.points.point_left == POINT_TO_WIN || self.points.point_right == POINT_TO_WIN {
            self.with_status(GameStatus::End)
        } else {
            self
        }
    }

    /// The game after one frame of play: the keys move the paddles, the ball
    /// flies, a goal counts and brings a new serve, and the points may end
    /// the game.
    pub open spec fn played(self, keys: Seq<Key>, permille: int) -> GameModel {
        let flown = self.moved_all(keys).flown();
        match flown.1 {
            Some(team) => flown.0.scored(team, permille).judged(),
            None => flown.0.judged(),
        }
    }

    /// The game after one frame at its end: the ball flies on with no
    /// paddles in its way, and nothing counts.
    pub open spec fn idled(self) -> GameModel {
        GameModel { ball: self.ball.after_frame(None, window()).0, ..self }
    }

    /// What is left to do after a round of the loop that found the game in
    /// the status `before` and leaves it in the status `after`.
    pub open spec fn step(draw: bool, before: GameStatus, after: GameStatus) -> Step {
        Step {
            look: if !draw {
                None
            } else if before == GameStatus::Play {
                Some(Look::Play)
            } else if before == GameStatus::End || before == GameStatus::Waiting {
                Some(Look::Pause)
            } else {
                None
            },
            draw: after != GameStatus::Waiting,
            quit: before == GameStatus::Quit,
        }
    }
}

/// The state of a game.
pub struct Game {
    paddle_l: Paddle,
    paddle_r: Paddle,
    ball: Ball,
    point_display: PointDisplay,
    fps: u64,
    status: GameStatus,
    prev_status: GameStatus,
}

impl View for Game {
    type V = GameModel;

    closed spec fn view(&self) -> GameModel {
        GameModel {
            paddle_l: self.paddle_l@,
            paddle_r: self.paddle_r@,
            ball: self.ball@,
            points: self.point_display@,
            fps: self.fps as int,
            status: self.status,
            prev_status: self.prev_status,
        }
    }
}

fn left_paddle() -> (paddle: Paddle)
    ensures
        paddle.wf(),
        paddle@ == paddle_l_start(),
{
    Paddle::new(
        PADDLE_L_X,
        ((WINDOW_HEIGHT - PADDLE_L_HEIGHT) / 2) as i32,
        PADDLE_WIDTH,
        PADDLE_L_HEIGHT,
        PADDLE_L_STEP,
    )
}

fn right_paddle() -> (paddle: Paddle)
    ensures
        paddle.wf(),
        paddle@ == paddle_r_start(),
{
    Paddle::new(
        PADDLE_R_X,
        ((WINDOW_HEIGHT - PADDLE_R_HEIGHT) / 2) as i32,
        PADDLE_WIDTH,
        PADDLE_R_HEIGHT,
        PADDLE_R_STEP,
    )
}

fn new_ball(vx_serve: i32) -> (ball: Ball)
    requires
        vx_serve > i32::MIN,
    ensures
        ball.wf(),
        exists|heads: bool, permille: int|
            -1000 <= permille <= 1000 && ball@ == #[trigger] first_serve(
                serve_x(),
                serve_y(),
                BALL_DIAMETER as int,
                BALL_VX as int,
                BALL_VY as int,
                vx_serve as int,
                heads,
                permille,
            ),
{
    let x: i32 = ((WINDOW_WIDTH - BALL_DIAMETER) / 2) as i32;
    let y: i32 = ((WINDOW_HEIGHT - BALL_DIAMETER) / 2) as i32;
    let ball = Ball::new_rng(x, y, BALL_DIAMETER, BALL_VX, BALL_VY, vx_serve);
    proof {
        let (heads, permille) = choose|heads: bool, permille: int|
            -1000 <= permille <= 1000 && ball@ == #[trigger] first_serve(
                x as int,
                y as int,
                BALL_DIAMETER as int,
                BALL_VX as int,
                BALL_VY as int,
                vx_serve as int,
                heads,
                permille,
            );
        assert(ball@ == first_serve(
            serve_x(),
            serve_y(),
            BALL_DIAMETER as int,
            BALL_VX as int,
            BALL_VY as int,
            vx_serve as int,
            heads,
            permille,
        ));
    }
    ball
}

impl Game {
    /// Whether the game is one that `new` makes and the methods keep.
    pub open spec fn wf(&self) -> bool {
        self@.wf()
    }

    /// A game that has not begun, with a ball that is served at the
    /// horizontal speed `vx_serve`.
    pub fn new(fps: u64, vx_serve: i32) -> (game: Self)
        requires
            vx_serve > i32::MIN,
        ensures
            game.wf(),
            exists|heads: bool, permille: int|
                -1000 <= permille <= 1000 && game@ == #[trigger] fresh(
                    fps as int,
                    vx_serve as int,
                    heads,
                    permille,
                ),
    {
        let ball = new_ball(vx_serve);
        let game = Self {
            paddle_l: left_paddle(),
            paddle_r: right_paddle(),
            ball,
            point_display: PointDisplay::new(),
            fps,
            status: GameStatus::Waiting,
            prev_status: GameStatus::Play,
        };
        proof {
            let (heads, permille) = choose|heads: bool, permille: int|
                -1000 <= permille <= 1000 && ball@ == #[trigger] first_serve(
                    serve_x(),
                    serve_y(),
                    BALL_DIAMETER as int,
                    BALL_VX as int,
                    BALL_VY as int,
                    vx_serve as int,
                    heads,
                    permille,
                );
            assert(game@ == fresh(fps as int, vx_serve as int, heads, permille));
        }
        game
    }

    pub fn paddle_l(&self) -> (r: &Paddle)
        ensures
            r@ == self@.paddle_l,
    {
        &self.paddle_l
    }

    pub fn paddle_r(&self) -> (r: &Paddle)
        ensures
            r@ == self@.paddle_r,
    {
        &self.paddle_r
    }

    pub fn ball(&self) -> (r: &Ball)
        ensures
            r@ == self@.ball,
    {
        &self.ball
    }

    pub fn point_display(&self) -> (r: &PointDisplay)
        ensures
            r@ == self@.points,
    {
        &self.point_display
    }

    pub fn fps(&self) -> (r: u64)
        ensures
            r == self@.fps,
    {
        self.fps
    }

    pub fn status(&self) -> (r: GameStatus)
        ensures
            r == self@.status,
    {
        self.status
    }

    pub fn prev_status(&self) -> (r: GameStatus)
        ensures
            r == self@.prev_status,
    {
        self.prev_status
    }

    /// Gives the ball the vertical speed with which it leaves the paddle
    /// that it struck in the last frame.
    pub fn apply_spin(&mut self, vy: i32)
        requires
            old(self).wf(),
            old(self)@.ball.hit is Some,
            vy > i32::MIN,
        ensures
            final(self).wf(),
            final(self)@ == (GameModel {
                ball: BallModel {
                    vy: crate::ball::spun(vy as int, old(self)@.ball.hit->0.rebound),
                    hit: None,
                    ..old(self)@.ball
                },
                ..old(self)@
            }),
    {
        self.ball.apply_spin(vy);
    }

    /// Whether a frame can be played.
    pub fn can_play(&self) -> (r: bool)
        requires
            self.wf(),
        ensures
            r == self@.in_range(),
    {
        -RANGE <= self.ball.x() && self.ball.x() <= RANGE && -RANGE <= self.ball.y()
            && self.ball.y() <= RANGE && -RANGE <= self.ball.vx() && self.ball.vx() <= RANGE
            && -RANGE <= self.ball.vy() && self.ball.vy() <= RANGE && self.point_display.left()
            < 9999 && self.point_display.right() < u32::MAX
    }

    /// Takes a new status and keeps the old one as the one before.
    pub fn change_status(&mut self, status: GameStatus)
        ensures
            final(self)@ == old(self)@.with_status(status),
    {
        self.prev_status = self.status;
        self.status = status;
    }

    /// What the game does with an event: nothing, or take a status, or fail.
    pub fn check_event(&self, input: Input) -> (r: Option<Result<GameStatus, GameInfiniteLoop>>)
        ensures
            r == decided(self@.status, self@.prev_status, input),
    {
        match input {
            Input::Quit => Some(Ok(GameStatus::Quit)),
            Input::Reset => Some(Ok(GameStatus::Reset)),
            Input::Pause => {
                if self.status == GameStatus::Waiting {
                    if self.prev_status == GameStatus::Waiting {
                        return Some(Err(GameInfiniteLoop));
                    }
                    return Some(Ok(self.prev_status));
                }
                Some(Ok(GameStatus::Waiting))
            },
            Input::Other => None,
        }
    }

    /// Takes the status that an event decided, if it decided one.
    pub fn update_status(&mut self, decision: Option<GameStatus>)
        ensures
            final(self)@ == match decision {
                Some(status) => old(self)@.with_status(status),
                None => old(self)@,
            },
    {
        if let Some(status) = decision {
            self.change_status(status);
        }
    }

    /// Begins the game anew and lets it play.
    pub fn reset(&mut self)
        requires
            old(self).wf(),
        ensures
            final(self).wf(),
            exists|heads: bool, permille: int|
                -1000 <= permille <= 1000 && final(self)@ == #[trigger] old(self)@.anew(
                    heads,
                    permille,
                ),
    {
        let vx_serve: i32 = self.ball.vx_serve();
        self.point_display.reset();
        self.paddle_l = left_paddle();
        self.paddle_r = right_paddle();
        self.ball = new_ball(vx_serve);
        self.change_status(GameStatus::Play);
        proof {
            let (heads, permille) = choose|heads: bool, permille: int|
                -1000 <= permille <= 1000 && self.ball@ == #[trigger] first_serve(
                    serve_x(),
                    serve_y(),
                    BALL_DIAMETER as int,
                    BALL_VX as int,
                    BALL_VY as int,
                    vx_serve as int,
                    heads,
                    permille,
                );
            assert(self@ == old(self)@.anew(heads, permille));
        }
    }

    /// Lets a key move its paddle.
    fn press(&mut self, key: Key)
        requires
            old(self).wf(),
            steady(old(self)@.ball),
        ensures
            final(self).wf(),
            steady(final(self)@.ball),
            final(self)@ == old(self)@.moved(key),
    {
        match key {
            Key::LeftUp => self.paddle_l.move_up(0, &mut self.ball),
            Key::LeftDown => self.paddle_l.move_down(WINDOW_HEIGHT as i32, &mut self.ball),
            Key::RightUp => self.paddle_r.move_up(0, &mut self.ball),
            Key::RightDown => self.paddle_r.move_down(WINDOW_HEIGHT as i32, &mut self.ball),
        }
    }

    /// Plays one frame: the keys that are held down move their paddles, in
    /// the order given, then the ball flies. A goal gives a point and a new
    /// serve, and the points to win end the game.
    pub fn play(&mut self, keys: &Vec<Key>)
        requires
            old(self).wf(),
            old(self)@.in_range(),
        ensures
            final(self).wf(),
            exists|permille: int|
                -1000 <= permille <= 1000 && final(self)@ == #[trigger] old(self)@.played(
                    keys@,
                    permille,
                ),
    {
        let mut i: usize = 0;
        while i < keys.len()
            invariant
                i <= keys.len(),
                self.wf(),
                steady(self@.ball),
                self@.points == old(self)@.points,
                self@ == old(self)@.moved_all(keys@.take(i as int)),
            decreases keys.len() - i,
        {
            self.press(keys[i]);
            assert(keys@.take(i + 1).drop_last() =~= keys@.take(i as int));
            i += 1;
        }
        assert(keys@.take(i as int) =~= keys@);
        let ghost moved = self@;
        let points = self.ball.change_position(
            Some((&self.paddle_l, &self.paddle_r)),
            0,
            WINDOW_WIDTH as i32,
            0,
            WINDOW_HEIGHT as i32,
        );
        assert(self@ == moved.flown().0 && points == moved.flown().1);
        let ghost flown = self@;
        if let Some(team) = points {
            self.point_display.incr_point(team);
            self.ball.after_goal_rng(
                ((WINDOW_WIDTH - BALL_DIAMETER) / 2) as i32,
                ((WINDOW_HEIGHT - BALL_DIAMETER) / 2) as i32,
                team,
            );
        }
        let ghost served = self@;
        if self.point_display.left() == POINT_TO_WIN || self.point_display.right()
            == POINT_TO_WIN {
            self.change_status(GameStatus::End);
        }
        proof {
            match points {
                Some(team) => {
                    let permille = choose|permille: int|
                        -1000 <= permille <= 1000 && served.ball == #[trigger] flown.ball.served(
                            serve_x(),
                            serve_y(),
                            team,
                            permille,
                        );
                    assert(served == flown.scored(team, permille));
                    assert(self@ == old(self)@.played(keys@, permille));
                },
                None => {
                    assert(self@ == old(self)@.played(keys@, 0));
                },
            }
        }
    }

    /// Lets the ball fly through one frame of a game that is at its end:
    /// no paddle is in its way, and nothing counts.
    pub fn end(&mut self)
        requires
            old(self).wf(),
            old(self)@.in_range(),
        ensures
            final(self).wf(),
            final(self)@ == old(self)@.idled(),
    {
        let _ = self.ball.change_position(None, 0, WINDOW_WIDTH as i32, 0, WINDOW_HEIGHT as i32);
    }

    /// One round of the game's loop, after the events have been looked at.
    /// Where `draw` is set the game acts on its status: it plays a frame,
    /// begins anew, or lets the ball fly on at its end. The result says how
    /// the frame is to be shown, whether the next round acts, and whether
    /// the loop ends.
    pub fn step(&mut self, draw: bool, keys: &Vec<Key>) -> (r: Step)
        requires
            old(self).wf(),
            draw && (old(self)@.status == GameStatus::Play || old(self)@.status
                == GameStatus::End) ==> old(self)@.in_range(),
        ensures
            final(self).wf(),
            r == GameModel::step(draw, old(self)@.status, final(self)@.status),
            !draw ==> final(self)@ == old(self)@,
            draw ==> match old(self)@.status {
                GameStatus::Play => exists|permille: int|
                    -1000 <= permille <= 1000 && final(self)@ == #[trigger] old(self)@.played(
                        keys@,
                        permille,
                    ),
                GameStatus::Reset => exists|heads: bool, permille: int|
                    -1000 <= permille <= 1000 && final(self)@ == #[trigger] old(self)@.anew(
                        heads,
                        permille,
                    ),
                GameStatus::End => final(self)@ == old(self)@.idled(),
                _ => final(self)@ == old(self)@,
            },
    {
        let before = self.status;
        if draw {
            match before {
                GameStatus::Play => self.play(keys),
                GameStatus::Reset => self.reset(),
                GameStatus::End => self.end(),
                _ => {},
            }
        }
        Step {
            look: if !draw {
                None
            } else {
                match before {
                    GameStatus::Play => Some(Look::Play),
                    GameStatus::End => Some(Look::Pause),
                    GameStatus::Waiting => Some(Look::Pause),
                    _ => None,
                }
            },
            draw: match self.status {
                GameStatus::Waiting => false,
                _ => true,
            },
            quit: match before {
                GameStatus::Quit => true,
                _ => false,
            },
        }
    }
}

/// Whether the ball is near enough and slow enough for a paddle to push it
/// and for a frame to follow.
pub open spec fn steady(ball: BallModel) -> bool {
    &&& -RANGE <= ball.rect.x <= RANGE
    &&& -0x4000_0000 <= ball.rect.y <= RANGE
    &&& -RANGE <= ball.vx <= RANGE
    &&& -RANGE <= ball.vy <= RANGE
}

} // verus!
