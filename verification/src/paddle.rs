use vstd::prelude::*;
use crate::ball::{fits, Ball, BallModel};
use crate::rect::Rect;
use crate::segment::{lower, upper, Interval, Segmet1D};

verus! {

/// What a paddle is: the rectangle it covers and how far it moves at most in
/// one frame.
pub struct PaddleModel {
    pub rect: Rect,
    pub step: int,
}

impl PaddleModel {
    /// The rectangle is one, its right and lower sides have coordinates that
    /// fit, and the step is a count.
    pub open spec fn wf(self) -> bool {
        &&& self.rect.wf()
        &&& fits(self.rect.x + self.rect.width)
        &&& fits(self.rect.y + self.rect.height)
        &&& 0 <= self.step <= u32::MAX
    }

    /// Whether the ball stands over the paddle: their extents on the x axis
    /// share a point.
    pub open spec fn under_or_over(self, ball: BallModel) -> bool {
        (Interval { a: ball.rect.x as int, b: ball.rect.x + ball.rect.width }).overlaps(
            Interval { a: self.rect.x as int, b: self.rect.x + self.rect.width },
        )
    }

    /// Whether the paddle pushes the ball when it moves up: the ball stands
    /// over the paddle, not lower than the paddle's upper side, and a whole
    /// step would carry that side past the ball's lower side.
    pub open spec fn pushes_up(self, ball: BallModel) -> bool {
        let ball_bottom = ball.rect.y + ball.rect.height;
        &&& self.rect.y >= ball_bottom
        &&& ball_bottom > self.rect.y - self.step
        &&& self.under_or_over(ball)
    }

    /// Whether the paddle pushes the ball when it moves down: the ball
    /// stands under the paddle, not higher than the paddle's lower side, and
    /// a whole step would carry that side past the ball's upper side.
    pub open spec fn pushes_down(self, ball: BallModel) -> bool {
        let paddle_bottom = self.rect.y + self.rect.height;
        &&& paddle_bottom <= ball.rect.y
        &&& ball.rect.y < paddle_bottom + self.step
        &&& self.under_or_over(ball)
    }

    /// The ball after the paddle has moved up: pushed so far that a whole
    /// step of the paddle ends under it, but not above `top`; untouched where
    /// the paddle does not push it.
    pub open spec fn ball_moved_up(self, top: int, ball: BallModel) -> BallModel {
        if self.pushes_up(ball) {
            ball.moved_up(ball.rect.y + ball.rect.height - (self.rect.y - self.step), top)
        } else {
            ball
        }
    }

    /// The paddle after it has moved up: under the ball that it pushed, or
    /// else a whole step higher, but not above `top`.
    pub open spec fn moved_up(self, top: int, ball: BallModel) -> PaddleModel {
        let y = if self.pushes_up(ball) {
            let pushed = self.ball_moved_up(top, ball);
            pushed.rect.y + pushed.rect.height
        } else {
            upper(self.rect.y - self.step, top)
        };
        PaddleModel { rect: Rect { y: y as i32, ..self.rect }, ..self }
    }

    /// The ball after the paddle has moved down: pushed so far that a whole
    /// step of the paddle ends over it, but with its lower side not below
    /// `bottom`; untouched where the paddle does not push it.
    pub open spec fn ball_moved_down(self, bottom: int, ball: BallModel) -> BallModel {
        if self.pushes_down(ball) {
            ball.moved_down(self.rect.y + self.rect.height + self.step - ball.rect.y, bottom)
        } else {
            ball
        }
    }

    /// The paddle after it has moved down: over the ball that it pushed, or
    /// else a whole step lower, but with its lower side not below `bottom`.
    pub open spec fn moved_down(self, bottom: int, ball: BallModel) -> PaddleModel {
        let y = if self.pushes_down(ball) {
            self.ball_moved_down(bottom, ball).rect.y - self.rect.height
        } else {
            lower(self.rect.y + self.step, bottom - self.rect.height)
        };
        PaddleModel { rect: Rect { y: y as i32, ..self.rect }, ..self }
    }
}

/// A paddle that pushes the ball down ends with its lower side on the ball's
/// upper side: they touch and do not overlap. Going up it ends with its upper
/// side on the ball's lower side.
pub proof fn lemma_push_ends_flush(paddle: PaddleModel, ball: BallModel, top: int, bottom: int)
    requires
        paddle.wf(),
        ball.wf(),
        fits(ball.rect.y + ball.rect.height),
        fits(top),
        fits(bottom),
        fits(bottom - ball.rect.height - paddle.rect.height),
        fits(top + ball.rect.height + paddle.rect.height),
    ensures
        paddle.pushes_down(ball) ==> paddle.moved_down(bottom, ball).rect.y + paddle.rect.height
            == paddle.ball_moved_down(bottom, ball).rect.y,
        paddle.pushes_up(ball) ==> paddle.moved_up(top, ball).rect.y == paddle.ball_moved_up(
            top,
            ball,
        ).rect.y + ball.rect.height,
{
}

/// A paddle that moves up does not end above `top`, and one that moves down
/// does not end with its lower side below `bottom`, whether it pushes the
/// ball or not.
pub proof fn lemma_paddle_stays_inside(paddle: PaddleModel, ball: BallModel, top: int, bottom: int)
    requires
        paddle.wf(),
        ball.wf(),
        fits(ball.rect.y + ball.rect.height),
        fits(top),
        fits(bottom),
        fits(bottom - ball.rect.height - paddle.rect.height),
        fits(top + ball.rect.height + paddle.rect.height),
    ensures
        paddle.moved_up(top, ball).rect.y >= top,
        paddle.moved_down(bottom, ball).rect.y + paddle.rect.height <= bottom,
{
}

/// Whether a rectangle is between `top` and `bottom`.
pub open spec fn between_top_and_bottom(rect: Rect, top: int, bottom: int) -> bool {
    top <= rect.y && rect.y + rect.height <= bottom
}

/// Paddle and ball stay in the field: where both are between `top` and
/// `bottom`, they still are when the paddle has moved up or down, whether it
/// pushes the ball or not. The paddle has moved by no more than its step, and
/// not against the way it was to go, and so has the ball.
pub proof fn lemma_paddle_and_ball_stay_between(
    paddle: PaddleModel,
    ball: BallModel,
    top: int,
    bottom: int,
)
    requires
        paddle.wf(),
        ball.wf(),
        fits(top),
        fits(bottom),
        between_top_and_bottom(paddle.rect, top, bottom),
        between_top_and_bottom(ball.rect, top, bottom),
    ensures
        between_top_and_bottom(paddle.moved_up(top, ball).rect, top, bottom),
        between_top_and_bottom(paddle.ball_moved_up(top, ball).rect, top, bottom),
        between_top_and_bottom(paddle.moved_down(bottom, ball).rect, top, bottom),
        between_top_and_bottom(paddle.ball_moved_down(bottom, ball).rect, top, bottom),
        paddle.rect.y - paddle.step <= paddle.moved_up(top, ball).rect.y <= paddle.rect.y,
        paddle.rect.y <= paddle.moved_down(bottom, ball).rect.y <= paddle.rect.y + paddle.step,
        ball.rect.y - paddle.step <= paddle.ball_moved_up(top, ball).rect.y <= ball.rect.y,
        ball.rect.y <= paddle.ball_moved_down(bottom, ball).rect.y <= ball.rect.y + paddle.step,
{
}

/// A paddle.
#[derive(Debug)]
pub struct Paddle {
    rect: Rect,
    step: u32,
}

impl View for Paddle {
    type V = PaddleModel;

    closed spec fn view(&self) -> PaddleModel {
        PaddleModel { rect: self.rect, step: self.step as int }
    }
}

impl Paddle {
    /// Whether the paddle is one that `new` makes and the moves keep.
    pub open spec fn wf(&self) -> bool {
        self@.wf()
    }

    /// A paddle that covers the rectangle made of `x`, `y`, `width` and
    /// `height` and moves by `step` at most.
    pub fn new(x: i32, y: i32, width: u32, height: u32, step: u32) -> (paddle: Self)
        ensures
            paddle.wf(),
            paddle@ == (PaddleModel {
                rect: Rect::placed(x as int, y as int, width as int, height as int),
                step: step as int,
            }),
    {
        Self { rect: Rect::new(x, y, width, height), step }
    }

    pub fn x(&self) -> (r: i32)
        ensures
            r == self@.rect.x,
    {
        self.rect.x
    }

    pub fn y(&self) -> (r: i32)
        ensures
            r == self@.rect.y,
    {
        self.rect.y
    }

    pub fn height(&self) -> (r: i32)
        requires
            self.wf(),
        ensures
            r == self@.rect.height,
    {
        self.rect.height as i32
    }

    pub fn width(&self) -> (r: i32)
        requires
            self.wf(),
        ensures
            r == self@.rect.width,
    {
        self.rect.width as i32
    }

    pub fn rect(&self) -> (r: Rect)
        ensures
            r == self@.rect,
    {
        self.rect
    }

    /// Whether the ball and the paddle share a point on the x axis.
    fn over(&self, ball: &Ball) -> (r: bool)
        requires
            self.wf(),
            ball.wf(),
            fits(ball@.rect.x + ball@.rect.width),
        ensures
            r == self@.under_or_over(ball@),
    {
        let s1 = Segmet1D::new(ball.x(), ball.x() + ball.width());
        let s2 = Segmet1D::new(self.x(), self.x() + self.width());
        s1.intersect(&s2)
    }

    /// Whether the paddle can be moved up to `top`, and down to `bottom`,
    /// with the ball in play: the ball's right and lower sides have
    /// coordinates that fit, and a ball that is pushed against `top` or
    /// `bottom` leaves the paddle a place that fits.
    pub fn can_move(&self, top: i32, bottom: i32, ball: &Ball) -> (ok: bool)
        requires
            self.wf(),
            ball.wf(),
        ensures
            ok == (fits(ball@.rect.x + ball@.rect.width) && fits(ball@.rect.y + ball@.rect.height)
                && fits(top + ball@.rect.height + self@.rect.height) && fits(
                bottom - ball@.rect.height - self@.rect.height,
            )),
    {
        let high: i64 = i32::MAX as i64;
        let low: i64 = i32::MIN as i64;
        let sides: i64 = ball.rect().height as i64 + self.rect.height as i64;
        ball.x() as i64 + ball.rect().width as i64 <= high && ball.y() as i64 + ball.rect().height as i64
            <= high && top as i64 + sides <= high && bottom as i64 - sides >= low
    }

    /// Moves the paddle up by its step, but not above `top`. A ball in its
    /// way is pushed along, as far as `top` lets it go, and the paddle ends
    /// under it.
    pub fn move_up(&mut self, top: i32, ball: &mut Ball)
        requires
            old(self).wf(),
            old(ball).wf(),
            fits(old(ball)@.rect.x + old(ball)@.rect.width),
            fits(old(ball)@.rect.y + old(ball)@.rect.height),
            fits(top + old(ball)@.rect.height + old(self)@.rect.height),
        ensures
            final(self).wf(),
            final(ball).wf(),
            final(self)@ == old(self)@.moved_up(top as int, old(ball)@),
            final(ball)@ == old(self)@.ball_moved_up(top as int, old(ball)@),
            final(self)@.rect.y >= top,
            old(self)@.pushes_up(old(ball)@) ==> final(self)@.rect.y == final(ball)@.rect.y
                + final(ball)@.rect.height,
    {
        let ball_bottom: i32 = ball.y() + ball.height();
        let paddle_top: i32 = self.y();
        let paddle_top_virtual: i64 = self.rect.y as i64 - self.step as i64;
        if (paddle_top >= ball_bottom && ball_bottom as i64 > paddle_top_virtual) && self.over(
            ball,
        ) {
            let step: u32 = (ball_bottom as i64 - paddle_top_virtual) as u32;
            ball.move_up(step, top);
            let ball_bottom: i32 = ball.y() + ball.height();
            self.rect.y = ball_bottom;
        } else if paddle_top_virtual >= top as i64 {
            self.rect.y = paddle_top_virtual as i32;
        } else {
            self.rect.y = top;
        }
    }

    /// Moves the paddle down by its step, but with its lower side not below
    /// `bottom`. A ball in its way is pushed along, as far as `bottom` lets
    /// it go, and the paddle ends over it.
    pub fn move_down(&mut self, bottom: i32, ball: &mut Ball)
        requires
            old(self).wf(),
            old(ball).wf(),
            fits(old(ball)@.rect.x + old(ball)@.rect.width),
            fits(bottom - old(ball)@.rect.height - old(self)@.rect.height),
        ensures
            final(self).wf(),
            final(ball).wf(),
            final(self)@ == old(self)@.moved_down(bottom as int, old(ball)@),
            final(ball)@ == old(self)@.ball_moved_down(bottom as int, old(ball)@),
            final(self)@.rect.y + final(self)@.rect.height <= bottom,
            old(self)@.pushes_down(old(ball)@) ==> final(self)@.rect.y + final(self)@.rect.height
                == final(ball)@.rect.y,
    {
        let ball_top: i32 = ball.y();
        let paddle_bottom: i32 = self.y() + self.height();
        let paddle_bottom_virtual: i64 = paddle_bottom as i64 + self.step as i64;
        if (paddle_bottom <= ball_top && (ball_top as i64) < paddle_bottom_virtual) && self.over(
            ball,
        ) {
            let step: u32 = (paddle_bottom_virtual - ball_top as i64) as u32;
            ball.move_down(step, bottom);
            let ball_top: i32 = ball.y();
            self.rect.y = ball_top - self.height();
        } else if paddle_bottom_virtual <= bottom as i64 {
            self.rect.y = (paddle_bottom_virtual - self.rect.height as i64) as i32;
        } else {
            self.rect.y = bottom - self.height();
        }
    }
}

} // verus!
