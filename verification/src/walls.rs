use vstd::prelude::*;
use crate::ball::{fits, speed, Ball};
use crate::paddle::{Paddle, PaddleModel};
use crate::probe::{segments, Heading};
use crate::segment::{magnitude, Segment, Segmet2D};

verus! {

/// The field in which the ball moves: the coordinates of its four sides.
pub struct Court {
    pub x_min: int,
    pub x_max: int,
    pub y_min: int,
    pub y_max: int,
}

/// The side of the field that stops a ball with the given heading. It is
/// longer than the field by the ball's speed across it at either end, so that
/// no ball slips by at a corner.
pub open spec fn boundary(heading: Heading, vx: int, vy: int, court: Court) -> Segment {
    match heading {
        Heading::Right => Segment {
            x1: court.x_max,
            y1: court.y_min - magnitude(vy),
            x2: court.x_max,
            y2: court.y_max + magnitude(vy),
        },
        Heading::Left => Segment {
            x1: court.x_min,
            y1: court.y_min - magnitude(vy),
            x2: court.x_min,
            y2: court.y_max + magnitude(vy),
        },
        Heading::Down => Segment {
            x1: court.x_min - magnitude(vx),
            y1: court.y_max,
            x2: court.x_max + magnitude(vx),
            y2: court.y_max,
        },
        Heading::Up => Segment {
            x1: court.x_min - magnitude(vx),
            y1: court.y_min,
            x2: court.x_max + magnitude(vx),
            y2: court.y_min,
        },
    }
}

/// The side of a paddle that stops a ball with the given heading: the side
/// that the ball comes upon first.
pub open spec fn paddle_edge(heading: Heading, paddle: PaddleModel) -> Segment {
    let left = paddle.rect.x as int;
    let right = paddle.rect.x + paddle.rect.width;
    let top = paddle.rect.y as int;
    let bottom = paddle.rect.y + paddle.rect.height;
    match heading {
        Heading::Right => Segment { x1: left, y1: top, x2: left, y2: bottom },
        Heading::Left => Segment { x1: right, y1: top, x2: right, y2: bottom },
        Heading::Down => Segment { x1: left, y1: top, x2: right, y2: top },
        Heading::Up => Segment { x1: left, y1: bottom, x2: right, y2: bottom },
    }
}

/// The walls that stop a ball with the given heading: first the side of the
/// field, then the left and the right paddle's, where paddles are in play.
pub open spec fn wall_list(
    heading: Heading,
    vx: int,
    vy: int,
    paddles: Option<(PaddleModel, PaddleModel)>,
    court: Court,
) -> Seq<Segment> {
    match paddles {
        Some((left, right)) => seq![
            boundary(heading, vx, vy, court),
            paddle_edge(heading, left),
            paddle_edge(heading, right),
        ],
        None => seq![boundary(heading, vx, vy, court)],
    }
}

/// The four lists of walls, in the order of their numbers: for a ball that
/// moves right, left, down and up.
pub open spec fn wall_set(
    vx: int,
    vy: int,
    paddles: Option<(PaddleModel, PaddleModel)>,
    court: Court,
) -> Seq<Seq<Segment>> {
    seq![
        wall_list(Heading::Right, vx, vy, paddles, court),
        wall_list(Heading::Left, vx, vy, paddles, court),
        wall_list(Heading::Down, vx, vy, paddles, court),
        wall_list(Heading::Up, vx, vy, paddles, court),
    ]
}

/// The field with the given sides.
pub open spec fn court_of(x_min: i32, x_max: i32, y_min: i32, y_max: i32) -> Court {
    Court { x_min: x_min as int, x_max: x_max as int, y_min: y_min as int, y_max: y_max as int }
}

/// The lists of segments that lists of walls stand for.
pub open spec fn wall_views(walls: Seq<Vec<Segmet2D>>) -> Seq<Seq<Segment>> {
    Seq::new(walls.len(), |i: int| segments(walls[i]@))
}

/// The models of a pair of paddles, if there is one.
pub open spec fn paddle_models(paddles: Option<(&Paddle, &Paddle)>) -> Option<
    (PaddleModel, PaddleModel),
> {
    match paddles {
        Some((left, right)) => Some((left@, right@)),
        None => None,
    }
}

/// Whether the sides of the field can be made longer by the speeds `vx` and
/// `vy` without leaving the range of coordinates.
pub open spec fn court_fits(vx: int, vy: int, court: Court) -> bool {
    &&& fits(court.x_min - magnitude(vx))
    &&& fits(court.x_max + magnitude(vx))
    &&& fits(court.y_min - magnitude(vy))
    &&& fits(court.y_max + magnitude(vy))
}

/// The wall that one side of a paddle is.
fn edge(heading: Heading, paddle: &Paddle) -> (s: Segmet2D)
    requires
        paddle.wf(),
    ensures
        s@ == paddle_edge(heading, paddle@),
{
    let left: i32 = paddle.x();
    let right: i32 = paddle.x() + paddle.width();
    let top: i32 = paddle.y();
    let bottom: i32 = paddle.y() + paddle.height();
    match heading {
        Heading::Right => Segmet2D::new(left, top, left, bottom),
        Heading::Left => Segmet2D::new(right, top, right, bottom),
        Heading::Down => Segmet2D::new(left, top, right, top),
        Heading::Up => Segmet2D::new(left, bottom, right, bottom),
    }
}

/// The walls that stop a ball with the given heading.
fn build_list(
    heading: Heading,
    vx: i32,
    vy: i32,
    paddles: Option<(&Paddle, &Paddle)>,
    x_min: i32,
    x_max: i32,
    y_min: i32,
    y_max: i32,
) -> (list: Vec<Segmet2D>)
    requires
        0 <= vx,
        0 <= vy,
        court_fits(vx as int, vy as int, court_of(x_min, x_max, y_min, y_max)),
        paddles matches Some(pair) ==> pair.0.wf() && pair.1.wf(),
    ensures
        segments(list@) == wall_list(
            heading,
            vx as int,
            vy as int,
            paddle_models(paddles),
            court_of(x_min, x_max, y_min, y_max),
        ),
{
    let mut list: Vec<Segmet2D> = Vec::new();
    let side = match heading {
        Heading::Right => Segmet2D::new(x_max, y_min - vy, x_max, y_max + vy),
        Heading::Left => Segmet2D::new(x_min, y_min - vy, x_min, y_max + vy),
        Heading::Down => Segmet2D::new(x_min - vx, y_max, x_max + vx, y_max),
        Heading::Up => Segmet2D::new(x_min - vx, y_min, x_max + vx, y_min),
    };
    list.push(side);
    if let Some((paddle_l, paddle_r)) = paddles {
        list.push(edge(heading, paddle_l));
        list.push(edge(heading, paddle_r));
    }
    assert(segments(list@) =~= wall_list(
        heading,
        vx as int,
        vy as int,
        paddle_models(paddles),
        court_of(x_min, x_max, y_min, y_max),
    ));
    list
}

impl Ball {
    /// The walls of a frame, for a ball of this ball's speed: four lists, for
    /// a ball that moves right, left, down and up.
    pub fn build_walls(
        &self,
        paddles: Option<(&Paddle, &Paddle)>,
        x_min: i32,
        x_max: i32,
        y_min: i32,
        y_max: i32,
    ) -> (walls: Vec<Vec<Segmet2D>>)
        requires
            self.wf(),
            paddles matches Some(pair) ==> pair.0.wf() && pair.1.wf(),
            court_fits(
                self@.vx,
                self@.vy,
                court_of(x_min, x_max, y_min, y_max),
            ),
        ensures
            walls.len() == 4,
            wall_views(walls@) == wall_set(
                self@.vx,
                self@.vy,
                paddle_models(paddles),
                court_of(x_min, x_max, y_min, y_max),
            ),
    {
        let vx: i32 = speed(self.vx());
        let vy: i32 = speed(self.vy());
        let mut walls: Vec<Vec<Segmet2D>> = Vec::new();
        walls.push(build_list(Heading::Right, vx, vy, paddles, x_min, x_max, y_min, y_max));
        walls.push(build_list(Heading::Left, vx, vy, paddles, x_min, x_max, y_min, y_max));
        walls.push(build_list(Heading::Down, vx, vy, paddles, x_min, x_max, y_min, y_max));
        walls.push(build_list(Heading::Up, vx, vy, paddles, x_min, x_max, y_min, y_max));
        assert(wall_views(walls@) =~= wall_set(
            self@.vx,
            self@.vy,
            paddle_models(paddles),
            court_of(x_min, x_max, y_min, y_max),
        ));
        walls
    }
}

} // verus!
