use vstd::prelude::*;
use crate::frame::{
    contact, lemma_winning_within_reach, winning, Contact, Frame, Motion, Turn, IDLE_ROUNDS,
};
use crate::flight::{known_flights, lemma_frame_within_a_step, lemma_known_flights, within_a_step};
use crate::history::History;
use crate::paddle::{Paddle, PaddleModel};
use crate::probe::{reach_fits, segments};
use crate::rect::Rect;
use crate::segment::{directed, lower, magnitude, sign, trunc_div, upper, Segmet2D};
use crate::team::TeamName;
use crate::virtual_ball::VirtualBall;
use crate::walls::{court_fits, court_of, paddle_models, wall_set, wall_views, Court};

verus! {

/// Where the ball struck the side of a paddle, for the spin that the paddle
/// gives it.
#[derive(Debug, Clone, Copy, PartialEq, Eq, Structural)]
pub struct PaddleHit {
    /// How far the ball was below the middle of the range in which it can
    /// touch that side of the paddle.
    pub offset: i64,
    /// How far the upper end of that range is above its middle.
    pub half_extent: i64,
    /// The direction, 1 for down and -1 for up, in which the ball left a
    /// floor or ceiling that it struck later in the same frame; 0 if it
    /// struck none.
    pub rebound: i32,
}

impl View for PaddleHit {
    type V = Contact;

    open spec fn view(&self) -> Contact {
        Contact {
            offset: self.offset as int,
            half_extent: self.half_extent as int,
            rebound: self.rebound as int,
        }
    }
}

/// The contact that a paddle hit stands for, if there is one.
pub open spec fn hit_view(hit: Option<PaddleHit>) -> Option<Contact> {
    match hit {
        Some(hit) => Some(hit@),
        None => None,
    }
}

/// What a ball is: the square it covers, its speed, the square and speeds it
/// was made with, the horizontal speed of a serve, and the paddle hit that
/// waits for its spin.
pub struct BallModel {
    pub rect: Rect,
    pub vx: int,
    pub vy: int,
    pub rect_default: Rect,
    pub vx_default: int,
    pub vy_default: int,
    pub vx_serve: int,
    pub hit: Option<Contact>,
}

/// Whether `v` is a value of the machine integers that positions are held in.
pub open spec fn fits(v: int) -> bool {
    i32::MIN <= v <= i32::MAX
}

/// The vertical speed of a serve: the thousandths `permille` of the speed
/// `vy`, rounded toward zero.
pub open spec fn served_vy(vy: int, permille: int) -> int {
    trunc_div(permille * vy, 1000)
}

/// The vertical speed that a spin leaves: the speed `vy` that the paddle
/// gave, turned into the direction of a later rebound if there was one.
pub open spec fn spun(vy: int, rebound: int) -> int {
    if rebound == 0 {
        vy
    } else {
        directed(magnitude(vy), rebound)
    }
}

impl BallModel {
    /// The sides are those of a rectangle, the speeds can be negated, and
    /// the speeds that the ball was made with are magnitudes.
    pub open spec fn wf(self) -> bool {
        &&& self.rect.wf()
        &&& self.rect_default.wf()
        &&& i32::MIN < self.vx <= i32::MAX
        &&& i32::MIN < self.vy <= i32::MAX
        &&& 0 <= self.vx_default <= i32::MAX
        &&& 0 <= self.vy_default <= i32::MAX
        &&& i32::MIN < self.vx_serve <= i32::MAX
    }

    /// The ball as a serve leaves it: at `(x, y)` as a rectangle is placed
    /// there, flying toward the side `direction` at the speed of a serve,
    /// with the thousandths `permille` of its vertical speed, and with no
    /// paddle hit waiting.
    pub open spec fn served(self, x: int, y: int, direction: TeamName, permille: int) -> BallModel {
        BallModel {
            rect: Rect::placed(x, y, self.rect.width as int, self.rect.height as int),
            vx: match direction {
                TeamName::Right => self.vx_serve,
                TeamName::Left => -self.vx_serve,
            },
            vy: served_vy(self.vy_default, permille),
            hit: None,
            ..self
        }
    }

    /// Whether the ball can make a whole step to either side, up and down,
    /// without a corner leaving the range of coordinates.
    pub open spec fn can_travel(self) -> bool {
        &&& fits(self.rect.x - magnitude(self.vx))
        &&& fits(self.rect.x + self.rect.width + magnitude(self.vx))
        &&& fits(self.rect.y - magnitude(self.vy))
        &&& fits(self.rect.y + self.rect.height + magnitude(self.vy))
    }

    /// What stays as it is while the ball moves through one frame.
    pub open spec fn frame(
        self,
        paddles: Option<(PaddleModel, PaddleModel)>,
        court: Court,
    ) -> Frame {
        Frame {
            width: self.rect.width as int,
            height: self.rect.height as int,
            speed_x: self.vx_default,
            walls: wall_set(self.vx, self.vy, paddles, court),
        }
    }

    /// The motion at the start of a frame: the whole step is still to make,
    /// and no paddle hit waits. No step came before it: in its place stands
    /// the greatest number that a step can be.
    pub open spec fn start(self) -> Motion {
        Motion {
            x: self.rect.x as int,
            y: self.rect.y as int,
            vx: self.vx,
            vy: self.vy,
            step_x: self.vx,
            step_y: self.vy,
            before_x: i32::MAX as int,
            before_y: i32::MAX as int,
            hit: None,
        }
    }

    /// The ball where a motion has brought it.
    pub open spec fn moved(self, m: Motion) -> BallModel {
        BallModel {
            rect: Rect { x: m.x as i32, y: m.y as i32, ..self.rect },
            vx: m.vx,
            vy: m.vy,
            hit: m.hit,
            ..self
        }
    }

    /// The motion at the end of a frame, and the side that scored in it.
    pub open spec fn after_frame_motion(self, frame: Frame) -> (Motion, Option<TeamName>) {
        self.start().resolve(frame, IDLE_ROUNDS as nat)
    }

    /// The ball after one frame, and the side that scored in it.
    ///
    /// A paddle hit of an earlier frame is forgotten at the start. After a
    /// paddle hit in this frame the vertical speed is the one before the hit,
    /// in the direction of a later rebound if there was one, until the ball
    /// is given its spin.
    pub open spec fn after_frame(
        self,
        paddles: Option<(PaddleModel, PaddleModel)>,
        court: Court,
    ) -> (BallModel, Option<TeamName>) {
        let end = self.after_frame_motion(self.frame(paddles, court));
        (self.moved(end.0), end.1)
    }

    /// The ball moved up by `steps`, but not above `top`.
    pub open spec fn moved_up(self, steps: int, top: int) -> BallModel {
        BallModel { rect: Rect { y: upper(self.rect.y - steps, top) as i32, ..self.rect }, ..self }
    }

    /// The ball moved down by `steps`, but with its lower side not below
    /// `bottom`.
    pub open spec fn moved_down(self, steps: int, bottom: int) -> BallModel {
        BallModel {
            rect: Rect {
                y: lower(self.rect.y + steps, bottom - self.rect.height) as i32,
                ..self.rect
            },
            ..self
        }
    }
}

/// A new ball as its first serve leaves it: a square of side `diameter` at
/// `(x, y)`, as a rectangle is made there. It flies at the speed `vx_serve`,
/// in the direction of `vx` if `heads` and against it otherwise, and with the
/// thousandths `permille` of `vy`.
pub open spec fn first_serve(
    x: int,
    y: int,
    diameter: int,
    vx: int,
    vy: int,
    vx_serve: int,
    heads: bool,
    permille: int,
) -> BallModel {
    let rect = Rect::placed(x, y, diameter, diameter);
    BallModel {
        rect,
        vx: if heads == (vx >= 0) {
            vx_serve
        } else {
            -vx_serve
        },
        vy: served_vy(vy, permille),
        rect_default: rect,
        vx_default: magnitude(vx),
        vy_default: magnitude(vy),
        vx_serve,
        hit: None,
    }
}

/// `rand::Rng::gen_ratio` on `rand::thread_rng()`, the generator of the
/// thread: `true` with a chance of `numerator` in `denominator`. Nothing is
/// claimed of the outcome. The call panics on a zero denominator and on a
/// numerator above the denominator, which are left out here, and where the
/// system has nothing to seed the generator with, whatever the arguments.
#[verifier::external_body]
fn gen_ratio(numerator: u32, denominator: u32) -> (heads: bool)
    requires
        denominator > 0,
        numerator <= denominator,
{
    rand::Rng::gen_ratio(&mut rand::thread_rng(), numerator, denominator)
}

/// `rand::Rng::gen_range` on `rand::thread_rng()`, the generator of the
/// thread, for the closed range from `low` to `high`: the claim is that the
/// outcome lies in the range, and no more. The call panics on an empty
/// range, which is left out here, and where the system has nothing to seed
/// the generator with, whatever the arguments.
#[verifier::external_body]
fn gen_range(low: i32, high: i32) -> (r: i32)
    requires
        low <= high,
    ensures
        low <= r <= high,
{
    rand::Rng::gen_range(&mut rand::thread_rng(), low..=high)
}

/// The absolute value of a speed.
pub fn speed(v: i32) -> (r: i32)
    requires
        v > i32::MIN,
    ensures
        r == magnitude(v as int),
{
    if v < 0 {
        -v
    } else {
        v
    }
}

/// The direction of a step: -1, 0 or 1.
pub fn direction(v: i32) -> (r: i32)
    ensures
        r == sign(v as int),
{
    if v < 0 {
        -1
    } else if v == 0 {
        0
    } else {
        1
    }
}

/// A speed of the magnitude `speed` in the direction of `toward`.
pub fn turned(speed: i32, toward: i32) -> (r: i32)
    requires
        0 <= speed,
    ensures
        r == directed(speed as int, toward as int),
{
    if toward < 0 {
        -speed
    } else if toward == 0 {
        0
    } else {
        speed
    }
}

/// The vertical speed of a serve is no greater than the speed that it is a
/// part of. All of that speed is the speed itself, up or down, and none of
/// it is rest.
pub proof fn lemma_served_vy(vy: int, permille: int)
    requires
        -1000 <= permille <= 1000,
    ensures
        magnitude(served_vy(vy, permille)) <= magnitude(vy),
        permille == 1000 ==> served_vy(vy, permille) == vy,
        permille == -1000 ==> served_vy(vy, permille) == -vy,
        permille == 0 || vy == 0 ==> served_vy(vy, permille) == 0,
{
    let product = permille * vy;
    assert(magnitude(product) <= 1000 * magnitude(vy)) by (nonlinear_arith)
        requires
            product == permille * vy,
            -1000 <= permille <= 1000,
    ;
    assert(permille == 1000 ==> product == 1000 * vy) by (nonlinear_arith)
        requires
            product == permille * vy,
    ;
    assert(permille == -1000 ==> product == -1000 * vy) by (nonlinear_arith)
        requires
            product == permille * vy,
    ;
    assert(permille == 0 || vy == 0 ==> product == 0) by (nonlinear_arith)
        requires
            product == permille * vy,
    ;
    assert(served_vy(vy, permille) == trunc_div(product, 1000));
    assert(magnitude(product) / 1000 <= magnitude(vy));
    if permille == 1000 {
        crate::segment::lemma_trunc_div_exact(vy, 1000);
    }
    if permille == -1000 {
        crate::segment::lemma_trunc_div_exact(-vy, 1000);
    }
}

/// The thousandths `permille` of the speed `vy`, rounded toward zero.
fn scaled(vy: i32, permille: i32) -> (r: i32)
    requires
        vy > i32::MIN,
        -1000 <= permille <= 1000,
    ensures
        r == served_vy(vy as int, permille as int),
        magnitude(r as int) <= magnitude(vy as int),
        permille == 1000 ==> r == vy,
        permille == -1000 ==> r == -vy,
        permille == 0 || vy == 0 ==> r == 0,
{
    proof {
        lemma_served_vy(vy as int, permille as int);
    }
    assert(magnitude(permille * vy) <= 1000 * magnitude(vy as int)) by (nonlinear_arith)
        requires
            -1000 <= permille <= 1000,
    ;
    let product: i64 = permille as i64 * vy as i64;
    let m: u64 = if product < 0 {
        (-product) as u64
    } else {
        product as u64
    };
    let q: u64 = m / 1000;
    assert(m == magnitude(permille * vy));
    assert(q <= magnitude(vy as int));
    if product >= 0 {
        q as i32
    } else {
        -(q as i32)
    }
}

/// The ball.
pub struct Ball {
    rect: Rect,
    vx: i32,
    vy: i32,
    rect_default: Rect,
    vx_default: i32,
    vy_default: i32,
    vx_serve: i32,
    hit: Option<PaddleHit>,
}

impl View for Ball {
    type V = BallModel;

    closed spec fn view(&self) -> BallModel {
        BallModel {
            rect: self.rect,
            vx: self.vx as int,
            vy: self.vy as int,
            rect_default: self.rect_default,
            vx_default: self.vx_default as int,
            vy_default: self.vy_default as int,
            vx_serve: self.vx_serve as int,
            hit: hit_view(self.hit),
        }
    }
}

impl Ball {
    /// Whether the ball is one that the constructors make and the methods
    /// keep.
    pub open spec fn wf(&self) -> bool {
        self@.wf()
    }

    /// A ball whose first serve went as `heads` and `permille` say.
    ///
    /// `vx` and `vy` are the speeds of play, of which the ball keeps the
    /// magnitudes; `vx_serve` is the slower horizontal speed of a serve.
    pub fn new(
        x: i32,
        y: i32,
        diameter: u32,
        vx: i32,
        vy: i32,
        vx_serve: i32,
        heads: bool,
        permille: i32,
    ) -> (ball: Self)
        requires
            vx > i32::MIN,
            vy > i32::MIN,
            vx_serve > i32::MIN,
            -1000 <= permille <= 1000,
        ensures
            ball.wf(),
            ball@ == first_serve(
                x as int,
                y as int,
                diameter as int,
                vx as int,
                vy as int,
                vx_serve as int,
                heads,
                permille as int,
            ),
            magnitude(ball@.vy) <= magnitude(vy as int),
            permille == 1000 ==> ball@.vy == vy,
            permille == -1000 ==> ball@.vy == -vy,
            permille == 0 ==> ball@.vy == 0,
    {
        let rect = Rect::new(x, y, diameter, diameter);
        Ball {
            rect,
            vx: if heads == (vx >= 0) {
                vx_serve
            } else {
                -vx_serve
            },
            vy: scaled(vy, permille),
            rect_default: rect,
            vx_default: speed(vx),
            vy_default: speed(vy),
            vx_serve,
            hit: None,
        }
    }

    /// A ball whose first serve is drawn at random: to either side with
    /// equal chance, and with a vertical speed between `-vy` and `vy`.
    pub fn new_rng(x: i32, y: i32, diameter: u32, vx: i32, vy: i32, vx_serve: i32) -> (ball: Self)
        requires
            vx > i32::MIN,
            vy > i32::MIN,
            vx_serve > i32::MIN,
        ensures
            ball.wf(),
            exists|heads: bool, permille: int|
                -1000 <= permille <= 1000 && ball@ == #[trigger] first_serve(
                    x as int,
                    y as int,
                    diameter as int,
                    vx as int,
                    vy as int,
                    vx_serve as int,
                    heads,
                    permille,
                ),
            ball@.rect == Rect::placed(x as int, y as int, diameter as int, diameter as int),
            ball@.vx == vx_serve || ball@.vx == -vx_serve,
            magnitude(ball@.vy) <= magnitude(vy as int),
    {
        let heads = gen_ratio(1, 2);
        let permille = gen_range(-1000, 1000);
        Ball::new(x, y, diameter, vx, vy, vx_serve, heads, permille)
    }

    /// Serves the ball anew from `(x, y)` toward the side `direction`, with
    /// the thousandths `permille` of its vertical speed.
    pub fn after_goal(&mut self, x: i32, y: i32, direction: TeamName, permille: i32)
        requires
            old(self).wf(),
            -1000 <= permille <= 1000,
        ensures
            final(self).wf(),
            final(self)@ == old(self)@.served(x as int, y as int, direction, permille as int),
            magnitude(final(self)@.vy) <= old(self)@.vy_default,
            permille == 1000 ==> final(self)@.vy == old(self)@.vy_default,
            permille == -1000 ==> final(self)@.vy == -old(self)@.vy_default,
            permille == 0 ==> final(self)@.vy == 0,
    {
        self.rect = Rect::new(x, y, self.rect.width, self.rect.height);
        self.vx = match direction {
            TeamName::Right => self.vx_serve,
            TeamName::Left => -self.vx_serve,
        };
        self.vy = scaled(self.vy_default, permille);
        self.hit = None;
    }

    /// Serves the ball anew from `(x, y)` toward the side `direction`, with
    /// a vertical speed drawn at random between the ball's own, up and down.
    pub fn after_goal_rng(&mut self, x: i32, y: i32, direction: TeamName)
        requires
            old(self).wf(),
        ensures
            final(self).wf(),
            exists|permille: int|
                -1000 <= permille <= 1000 && final(self)@ == #[trigger] old(self)@.served(
                    x as int,
                    y as int,
                    direction,
                    permille,
                ),
            final(self)@.rect == Rect::placed(
                x as int,
                y as int,
                old(self)@.rect.width as int,
                old(self)@.rect.height as int,
            ),
            final(self)@.vx == match direction {
                TeamName::Right => old(self)@.vx_serve,
                TeamName::Left => -old(self)@.vx_serve,
            },
            magnitude(final(self)@.vy) <= old(self)@.vy_default,
    {
        let permille = gen_range(-1000, 1000);
        self.after_goal(x, y, direction, permille);
    }

    pub fn x(&self) -> (r: i32)
        ensures
            r == self@.rect.x,
    {
        self.rect.x
    }

    pub fn y(&self) -> (r: i32)
        ensures
            r == self@.rect.y,
    {
        self.rect.y
    }

    pub fn vx(&self) -> (r: i32)
        ensures
            r == self@.vx,
    {
        self.vx
    }

    pub fn vy(&self) -> (r: i32)
        ensures
            r == self@.vy,
    {
        self.vy
    }

    pub fn vx_default(&self) -> (r: i32)
        ensures
            r == self@.vx_default,
    {
        self.vx_default
    }

    pub fn vy_default(&self) -> (r: i32)
        ensures
            r == self@.vy_default,
    {
        self.vy_default
    }

    /// The horizontal speed of a serve.
    pub fn vx_serve(&self) -> (r: i32)
        ensures
            r == self@.vx_serve,
    {
        self.vx_serve
    }

    pub fn rect(&self) -> (r: Rect)
        ensures
            r == self@.rect,
    {
        self.rect
    }

    pub fn width(&self) -> (r: i32)
        requires
            self.wf(),
        ensures
            r == self@.rect.width,
    {
        self.rect.width as i32
    }

    pub fn height(&self) -> (r: i32)
        requires
            self.wf(),
        ensures
            r == self@.rect.height,
    {
        self.rect.height as i32
    }

    pub fn rect_default(&self) -> (r: Rect)
        ensures
            r == self@.rect_default,
    {
        self.rect_default
    }

    /// The paddle hit of the last frame, if the ball struck the side of a
    /// paddle in it and has not been given its spin since.
    pub fn paddle_hit(&self) -> (r: Option<PaddleHit>)
        ensures
            hit_view(r) == self@.hit,
    {
        self.hit
    }

    /// Gives the ball the vertical speed `vy` with which it leaves the paddle
    /// that it struck. Where the ball has struck a floor or ceiling since, it
    /// keeps the direction in which it left that. The hit waits no longer.
    pub fn apply_spin(&mut self, vy: i32)
        requires
            old(self).wf(),
            old(self)@.hit is Some,
            vy > i32::MIN,
        ensures
            final(self).wf(),
            final(self)@ == (BallModel {
                vy: spun(vy as int, old(self)@.hit->0.rebound),
                hit: None,
                ..old(self)@
            }),
    {
        let rebound = match self.hit {
            Some(hit) => hit.rebound,
            None => 0,
        };
        self.vy = if rebound == 0 {
            vy
        } else {
            turned(speed(vy), rebound)
        };
        self.hit = None;
    }

    /// Moves the ball up by `steps`, but not above `top`.
    pub fn move_up(&mut self, steps: u32, top: i32)
        requires
            old(self).wf(),
        ensures
            final(self).wf(),
            final(self)@ == old(self)@.moved_up(steps as int, top as int),
    {
        let virtual_y: i64 = self.rect.y as i64 - steps as i64;
        let next_y: i32 = if virtual_y > top as i64 {
            virtual_y as i32
        } else {
            top
        };
        self.rect.y = next_y;
    }

    /// Moves the ball down by `steps`, but with its lower side not below
    /// `bottom`.
    pub fn move_down(&mut self, steps: u32, bottom: i32)
        requires
            old(self).wf(),
            fits(bottom - old(self)@.rect.height),
        ensures
            final(self).wf(),
            final(self)@ == old(self)@.moved_down(steps as int, bottom as int),
    {
        let virtual_y: i64 = self.rect.y as i64 + steps as i64;
        let height: i64 = self.rect.height as i64;
        let next_y: i32 = if virtual_y + height < bottom as i64 {
            virtual_y as i32
        } else {
            (bottom as i64 - height) as i32
        };
        self.rect.y = next_y;
    }

    /// The move that the ball makes when it has the step `(step_x, step_y)`
    /// still to make.
    fn winning_move(&self, walls: &Vec<Vec<Segmet2D>>, step_x: i32, step_y: i32) -> (vb:
        VirtualBall)
        requires
            self.wf(),
            walls.len() == 4,
            reach_fits(self@.body(), step_x as int, step_y as int),
        ensures
            vb@ == winning(self@.body(), wall_views(walls@), step_x as int, step_y as int),
    {
        proof {
            assert(wall_views(walls@)[0] == segments(walls[0]@));
            assert(wall_views(walls@)[1] == segments(walls[1]@));
            assert(wall_views(walls@)[2] == segments(walls[2]@));
            assert(wall_views(walls@)[3] == segments(walls[3]@));
        }
        let vb_1 = if step_x >= 0 {
            self.virtual_position_move_right(0, &walls[0], step_x, step_y)
        } else {
            self.virtual_position_move_left(1, &walls[1], step_x, step_y)
        };
        let vb_2 = if step_y >= 0 {
            self.virtual_position_move_down(2, &walls[2], step_x, step_y)
        } else {
            self.virtual_position_move_up(3, &walls[3], step_x, step_y)
        };
        let step_left_1: i64 = left_of(&vb_1);
        let step_left_2: i64 = left_of(&vb_2);
        if step_left_1 >= step_left_2 {
            vb_1
        } else {
            vb_2
        }
    }

    /// Lets the ball make its next move and bounce. The frame may be over with
    /// it, and then the result is the side that scored. Else the result says
    /// whether less of the step is left than there was.
    fn turn(
        &mut self,
        walls: &Vec<Vec<Segmet2D>>,
        step_x: &mut History<i32>,
        step_y: &mut History<i32>,
        Ghost(start): Ghost<BallModel>,
        Ghost(frame): Ghost<Frame>,
        Ghost(m): Ghost<Motion>,
    ) -> (over: Result<Option<TeamName>, bool>)
        requires
            old(self).wf(),
            old(step_x).wf(),
            old(step_y).wf(),
            start.wf(),
            start.can_travel(),
            old(self)@ == start.moved(m),
            keeps_track(start, m, old(step_x)@, old(step_y)@),
            walls.len() == 4,
            wall_views(walls@) == frame.walls,
            frame.width == start.rect.width,
            frame.height == start.rect.height,
            frame.speed_x == start.vx_default,
        ensures
            final(self).wf(),
            final(step_x).wf(),
            final(step_y).wf(),
            match m.turn(frame) {
                Turn::Over(end, goal) => over == Ok::<Option<TeamName>, bool>(goal) && final(self)@
                    == start.moved(end),
                Turn::On(next) => over == Err::<Option<TeamName>, bool>(
                    next.remaining() < m.remaining(),
                ) && final(self)@ == start.moved(next) && keeps_track(
                    start,
                    next,
                    final(step_x)@,
                    final(step_y)@,
                ),
            },
    {
        let sx: i32 = step_x.first();
        let sy: i32 = step_y.first();
        proof {
            lemma_winning_within_reach(m.body(frame), frame.walls, m.step_x, m.step_y);
            assert(self@.body() == m.body(frame));
        }
        let vb = self.winning_move(walls, sx, sy);
        assert(vb@ == m.winner(frame));
        let before: i64 = speed(sx) as i64 + speed(sy) as i64;
        let left: i64 = left_of(&vb);
        self.rect.x = vb.x();
        self.rect.y = vb.y();
        match vb.indexes() {
            None => Ok(None),
            Some((id, index)) => {
                let ghost next = m.bounced(frame, vb@, id as int, index as int);
                if id < 2 {
                    self.vx = turned(speed(self.vx_default), vb.step_x());
                    if index != 0 {
                        assert(wall_views(walls@)[id as int] == segments(walls[id as int]@));
                        self.hit = Some(touch(&walls[id][index], self.height(), vb.y()));
                    }
                } else {
                    self.vy = turned(speed(self.vy), vb.step_y());
                    self.hit = match self.hit {
                        Some(hit) => Some(PaddleHit { rebound: direction(vb.step_y()), ..hit }),
                        None => None,
                    };
                }
                step_x.push(vb.step_x());
                step_y.push(vb.step_y());
                assert(self@ == start.moved(next));
                if id == 0 && index == 0 {
                    return Ok(Some(TeamName::Left));
                }
                if id == 1 && index == 0 {
                    return Ok(Some(TeamName::Right));
                }
                let stuck = step_x.first() == step_x.get_value(2).unwrap() && step_y.first()
                    == step_y.get_value(2).unwrap();
                if stuck {
                    Ok(None)
                } else {
                    Err(left < before)
                }
            },
        }
    }

    /// Whether the ball can be moved through a frame in the field with the
    /// given sides: no corner of it leaves the range of coordinates within a
    /// step, and the sides can be made longer by the ball's speed.
    pub fn can_change_position(&self, x_min: i32, x_max: i32, y_min: i32, y_max: i32) -> (ok: bool)
        requires
            self.wf(),
        ensures
            ok == (self@.can_travel() && court_fits(
                self@.vx,
                self@.vy,
                court_of(x_min, x_max, y_min, y_max),
            )),
    {
        let vx: i64 = speed(self.vx) as i64;
        let vy: i64 = speed(self.vy) as i64;
        let x: i64 = self.rect.x as i64;
        let y: i64 = self.rect.y as i64;
        let low: i64 = i32::MIN as i64;
        let high: i64 = i32::MAX as i64;
        x - vx >= low && x + self.rect.width as i64 + vx <= high && y - vy >= low && y
            + self.rect.height as i64 + vy <= high && x_min as i64 - vx >= low && x_max as i64 + vx
            <= high && y_min as i64 - vy >= low && y_max as i64 + vy <= high
    }

    /// Moves the ball through one frame and says which side scored in it.
    ///
    /// The step of the frame is the ball's speed. The ball goes as far as the
    /// walls let it, bounces off the wall that stops it first and goes on
    /// with the rest of the step, until the step is made, the ball is in a
    /// goal, or it is caught between walls. The walls are the sides of the
    /// field and, where `paddles` are given, the sides of both paddles. The
    /// side to the right is the goal in which the left team scores, the side
    /// to the left the goal in which the right team scores.
    ///
    /// Off the side of a paddle the ball leaves with a spin that this
    /// function does not work out: it keeps the place of the hit for
    /// `paddle_hit`, and `apply_spin` gives the ball its vertical speed.
    ///
    /// No frame carries the ball further than its speed, and none changes
    /// the magnitude of its vertical speed.
    ///
    /// With no paddles, a ball inside the field is inside the field after the
    /// frame. One that stays inside on its step makes the whole
    /// step; one that stays between floor and ceiling and would cross the
    /// right or the left side is stopped there, in the goal; and one that
    /// would cross the floor or the ceiling ends mirrored at it. A ball that
    /// strikes the side of a paddle, and nothing else, goes back from it by
    /// as much as it would have gone past it.
    pub fn change_position(
        &mut self,
        paddles: Option<(&Paddle, &Paddle)>,
        x_min: i32,
        x_max: i32,
        y_min: i32,
        y_max: i32,
    ) -> (goal: Option<TeamName>)
        requires
            old(self).wf(),
            paddles matches Some(pair) ==> pair.0.wf() && pair.1.wf(),
            old(self)@.can_travel(),
            court_fits(
                old(self)@.vx,
                old(self)@.vy,
                court_of(x_min, x_max, y_min, y_max),
            ),
        ensures
            final(self).wf(),
            (final(self)@, goal) == old(self)@.after_frame(
                paddle_models(paddles),
                court_of(x_min, x_max, y_min, y_max),
            ),
            known_flights(
                old(self)@,
                paddle_models(paddles),
                court_of(x_min, x_max, y_min, y_max),
                final(self)@,
                goal,
            ),
            within_a_step(old(self)@, final(self)@),
    {
        proof {
            lemma_frame_within_a_step(
                old(self)@,
                paddle_models(paddles),
                court_of(x_min, x_max, y_min, y_max),
            );
            lemma_known_flights(
                old(self)@,
                paddle_models(paddles),
                court_of(x_min, x_max, y_min, y_max),
            );
        }
        self.fly(paddles, x_min, x_max, y_min, y_max)
    }

    /// Lets the ball take turn after turn until the frame is over.
    fn fly(
        &mut self,
        paddles: Option<(&Paddle, &Paddle)>,
        x_min: i32,
        x_max: i32,
        y_min: i32,
        y_max: i32,
    ) -> (goal: Option<TeamName>)
        requires
            old(self).wf(),
            paddles matches Some(pair) ==> pair.0.wf() && pair.1.wf(),
            old(self)@.can_travel(),
            court_fits(
                old(self)@.vx,
                old(self)@.vy,
                court_of(x_min, x_max, y_min, y_max),
            ),
        ensures
            final(self).wf(),
            (final(self)@, goal) == old(self)@.after_frame(
                paddle_models(paddles),
                court_of(x_min, x_max, y_min, y_max),
            ),
    {
        let ghost court = court_of(x_min, x_max, y_min, y_max);
        let ghost start = old(self)@;
        let ghost frame = start.frame(paddle_models(paddles), court);
        let ghost mut m = start.start();
        let walls = self.build_walls(paddles, x_min, x_max, y_min, y_max);
        let mut step_x = History::new(3, i32::MAX);
        step_x.push(self.vx);
        let mut step_y = History::new(3, i32::MAX);
        step_y.push(self.vy);
        self.hit = None;
        let mut idle: u32 = IDLE_ROUNDS;
        loop
            invariant
                self.wf(),
                step_x.wf(),
                step_y.wf(),
                start == old(self)@,
                court == (court_of(x_min, x_max, y_min, y_max)),
                start.wf(),
                start.can_travel(),
                self@ == start.moved(m),
                keeps_track(start, m, step_x@, step_y@),
                frame == start.frame(paddle_models(paddles), court),
                walls.len() == 4,
                wall_views(walls@) == frame.walls,
                frame.width == start.rect.width,
                frame.height == start.rect.height,
                frame.speed_x == start.vx_default,
                idle <= IDLE_ROUNDS,
                m.resolve(frame, idle as nat) == start.after_frame_motion(frame),
            decreases m.remaining(), idle,
        {
            proof {
                m.lemma_resolve_unfolds(frame, idle as nat);
            }
            let over = self.turn(
                &walls,
                &mut step_x,
                &mut step_y,
                Ghost(start),
                Ghost(frame),
                Ghost(m),
            );
            match over {
                Ok(goal) => {
                    return goal;
                },
                Err(shorter) => {
                    if shorter {
                        idle = IDLE_ROUNDS;
                    } else if idle > 0 {
                        idle = idle - 1;
                    } else {
                        return None;
                    }
                },
            }
            proof {
                m = m.turn(frame)->On_0;
            }
        }
    }
}

/// Whether a motion and the two records of steps belong to one moment of the
/// frame that the ball `start` began: the records end with the step that is
/// left and the one before it, and on each axis the way made and the step
/// left are together no longer than the first step.
spec fn keeps_track(start: BallModel, m: Motion, steps_x: Seq<i32>, steps_y: Seq<i32>) -> bool {
    &&& fits(m.x) && fits(m.y)
    &&& steps_x.len() == 3 && steps_y.len() == 3
    &&& steps_x[0] == m.step_x && steps_x[1] == m.before_x
    &&& steps_y[0] == m.step_y && steps_y[1] == m.before_y
    &&& magnitude(m.x - start.rect.x) + magnitude(m.step_x) <= magnitude(start.vx)
    &&& magnitude(m.y - start.rect.y) + magnitude(m.step_y) <= magnitude(start.vy)
}

/// How much of the step a move leaves, both axes together.
fn left_of(vb: &VirtualBall) -> (r: i64)
    ensures
        r == vb@.remaining(),
{
    let x: i64 = vb.step_x() as i64;
    let y: i64 = vb.step_y() as i64;
    (if x < 0 {
        -x
    } else {
        x
    }) + (if y < 0 {
        -y
    } else {
        y
    })
}

/// Half of `v`, rounded toward zero.
fn halve(v: i64) -> (r: i64)
    requires
        v > i64::MIN,
    ensures
        r == trunc_div(v as int, 2),
{
    if v >= 0 {
        ((v as u64) / 2) as i64
    } else {
        -((((-v) as u64) / 2) as i64)
    }
}

/// Where a ball of height `height` that stands at `y` touches the paddle side
/// `wall`.
fn touch(wall: &Segmet2D, height: i32, y: i32) -> (hit: PaddleHit)
    ensures
        hit@ == contact(wall@, height as int, y as int),
{
    let min: i64 = wall.y_min() as i64 - height as i64;
    let max: i64 = wall.y_max() as i64;
    let mid: i64 = halve(min + max);
    PaddleHit { offset: y as i64 - mid, half_extent: mid - min, rebound: 0 }
}

} // verus!
