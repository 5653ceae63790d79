use vstd::prelude::*;
use crate::ball::{fits, Ball, BallModel};
use crate::segment::{between, magnitude, Segment, Segmet2D};
use crate::virtual_ball::{Candidate, VirtualBall};

verus! {

/// The square that the ball covers: its upper left corner and its sides.
pub struct Body {
    pub x: int,
    pub y: int,
    pub width: int,
    pub height: int,
}

/// The side toward which a ball is probed.
#[derive(Debug, Clone, Copy, PartialEq, Eq, Structural)]
pub enum Heading {
    Right,
    Left,
    Down,
    Up,
}

impl Heading {
    /// Whether the heading runs along the x axis.
    pub open spec fn horizontal(self) -> bool {
        self == Heading::Right || self == Heading::Left
    }

    /// The number of the list that holds the walls on this side.
    pub open spec fn id(self) -> int {
        match self {
            Heading::Right => 0,
            Heading::Left => 1,
            Heading::Down => 2,
            Heading::Up => 3,
        }
    }

    /// The leading corner that is tried first, as its offset from the body's
    /// upper left corner.
    pub open spec fn first_corner(self, body: Body) -> (int, int) {
        match self {
            Heading::Right => (body.width, 0),
            Heading::Left => (0, 0),
            Heading::Down => (0, body.height),
            Heading::Up => (0, 0),
        }
    }

    /// The leading corner that is tried when the first meets no wall.
    pub open spec fn second_corner(self, body: Body) -> (int, int) {
        match self {
            Heading::Right => (body.width, body.height),
            Heading::Left => (0, body.height),
            Heading::Down => (body.width, body.height),
            Heading::Up => (body.width, 0),
        }
    }
}

/// The segments that a list of walls stands for.
pub open spec fn segments(walls: Seq<Segmet2D>) -> Seq<Segment> {
    Seq::new(walls.len(), |i: int| walls[i]@)
}

/// The move that meets no wall: the whole step is made and nothing is left.
pub open spec fn unhindered(body: Body, step_x: int, step_y: int) -> Candidate {
    Candidate { x: body.x + step_x, y: body.y + step_y, step_x: 0, step_y: 0, indexes: None }
}

/// The way of one corner of the body, from where it is to where it would be
/// when the body stood at `target`.
pub open spec fn path(body: Body, corner: (int, int), target: Candidate) -> Segment {
    Segment {
        x1: body.x + corner.0,
        y1: body.y + corner.1,
        x2: target.x + corner.0,
        y2: target.y + corner.1,
    }
}

/// The move that ends where `corner` touches a wall at `point`, short of
/// `target`. What is left of the step is the way from the contact to the
/// target, turned back on the axis of the heading. The wall counts as hit
/// only if something is left on that axis.
pub open spec fn stopped(
    heading: Heading,
    id: int,
    index: int,
    corner: (int, int),
    point: (int, int),
    target: Candidate,
) -> Candidate {
    let x = point.0 - corner.0;
    let y = point.1 - corner.1;
    if heading.horizontal() {
        Candidate {
            x,
            y,
            step_x: x - target.x,
            step_y: target.y - y,
            indexes: if x - target.x != 0 {
                Some((id, index))
            } else {
                None
            },
        }
    } else {
        Candidate {
            x,
            y,
            step_x: target.x - x,
            step_y: y - target.y,
            indexes: if y - target.y != 0 {
                Some((id, index))
            } else {
                None
            },
        }
    }
}

/// The move toward `target` as one wall leaves it: stopped where the first
/// leading corner meets the wall, else where the second does, else unchanged.
pub open spec fn against(
    body: Body,
    heading: Heading,
    id: int,
    index: int,
    wall: Segment,
    target: Candidate,
) -> Candidate {
    let first = heading.first_corner(body);
    let second = heading.second_corner(body);
    match path(body, first, target).meet(wall) {
        Some(point) => stopped(heading, id, index, first, point, target),
        None => match path(body, second, target).meet(wall) {
            Some(point) => stopped(heading, id, index, second, point, target),
            None => target,
        },
    }
}

/// The move by `(step_x, step_y)` as the first `n` walls of a list leave it.
/// The walls are taken in order, each against the move that the walls before
/// it left: a later wall that is met replaces an earlier one.
pub open spec fn probe(
    body: Body,
    heading: Heading,
    id: int,
    walls: Seq<Segment>,
    step_x: int,
    step_y: int,
    n: nat,
) -> Candidate
    decreases n,
{
    if n == 0 {
        unhindered(body, step_x, step_y)
    } else {
        against(
            body,
            heading,
            id,
            n - 1,
            walls[n - 1],
            probe(body, heading, id, walls, step_x, step_y, (n - 1) as nat),
        )
    }
}

/// The move by `(step_x, step_y)` as a whole list of walls leaves it.
pub open spec fn candidate(
    body: Body,
    heading: Heading,
    id: int,
    walls: Seq<Segment>,
    step_x: int,
    step_y: int,
) -> Candidate {
    probe(body, heading, id, walls, step_x, step_y, walls.len())
}

/// Whether a move of `body` stays on the way of the step `(step_x, step_y)`:
/// it ends between the body and the end of the step, and on each axis the way
/// made and the way left are together no longer than the step.
pub open spec fn within_reach(body: Body, step_x: int, step_y: int, c: Candidate) -> bool {
    &&& between(body.x, c.x, body.x + step_x)
    &&& between(body.y, c.y, body.y + step_y)
    &&& magnitude(c.x - body.x) + magnitude(c.step_x) <= magnitude(step_x)
    &&& magnitude(c.y - body.y) + magnitude(c.step_y) <= magnitude(step_y)
}

/// Whether a move names no wall but one of the first `n` of list `id`.
pub open spec fn names_wall(c: Candidate, id: int, n: int) -> bool {
    c.indexes matches Some(hit) ==> hit.0 == id && 0 <= hit.1 < n
}

/// A wall leaves a move on the way of the step, and a move that it stops
/// names it.
pub proof fn lemma_against_within_reach(
    body: Body,
    heading: Heading,
    id: int,
    index: int,
    wall: Segment,
    step_x: int,
    step_y: int,
    target: Candidate,
)
    requires
        within_reach(body, step_x, step_y, target),
        names_wall(target, id, index),
        0 <= index,
    ensures
        within_reach(body, step_x, step_y, against(body, heading, id, index, wall, target)),
        names_wall(against(body, heading, id, index, wall, target), id, index + 1),
{
    let first = heading.first_corner(body);
    let second = heading.second_corner(body);
    match path(body, first, target).meet(wall) {
        Some(point) => {
            assert(path(body, first, target).in_box(point.0, point.1));
        },
        None => match path(body, second, target).meet(wall) {
            Some(point) => {
                assert(path(body, second, target).in_box(point.0, point.1));
            },
            None => {},
        },
    }
}

/// Whatever the walls, a probed move stays on the way of the step and names
/// no wall but one of those probed.
pub proof fn lemma_probe_within_reach(
    body: Body,
    heading: Heading,
    id: int,
    walls: Seq<Segment>,
    step_x: int,
    step_y: int,
    n: nat,
)
    ensures
        within_reach(body, step_x, step_y, probe(body, heading, id, walls, step_x, step_y, n)),
        names_wall(probe(body, heading, id, walls, step_x, step_y, n), id, n as int),
    decreases n,
{
    if n > 0 {
        lemma_probe_within_reach(body, heading, id, walls, step_x, step_y, (n - 1) as nat);
        lemma_against_within_reach(
            body,
            heading,
            id,
            n - 1,
            walls[n - 1],
            step_x,
            step_y,
            probe(body, heading, id, walls, step_x, step_y, (n - 1) as nat),
        );
    }
}

/// Across the axis of its heading a move keeps its course: what is left
/// there is a part of the step.
pub proof fn lemma_probe_keeps_course(
    body: Body,
    heading: Heading,
    id: int,
    walls: Seq<Segment>,
    step_x: int,
    step_y: int,
    n: nat,
)
    ensures
        ({
            let c = probe(body, heading, id, walls, step_x, step_y, n);
            if heading.horizontal() {
                between(0, c.step_y, step_y)
            } else {
                between(0, c.step_x, step_x)
            }
        }),
    decreases n,
{
    if n > 0 {
        let target = probe(body, heading, id, walls, step_x, step_y, (n - 1) as nat);
        lemma_probe_keeps_course(body, heading, id, walls, step_x, step_y, (n - 1) as nat);
        lemma_probe_within_reach(body, heading, id, walls, step_x, step_y, (n - 1) as nat);
        let first = heading.first_corner(body);
        let second = heading.second_corner(body);
        match path(body, first, target).meet(walls[n - 1]) {
            Some(point) => {
                assert(path(body, first, target).in_box(point.0, point.1));
            },
            None => match path(body, second, target).meet(walls[n - 1]) {
                Some(point) => {
                    assert(path(body, second, target).in_box(point.0, point.1));
                },
                None => {},
            },
        }
    }
}

/// The last wall that is met wins: where a leading corner, on its way to
/// where the walls before left the ball, meets the wall `n`, the ball is
/// stopped there, whatever stopped it before, and what is left of the step is
/// counted from where the walls before left the ball.
pub proof fn lemma_later_wall_replaces_earlier(
    body: Body,
    heading: Heading,
    id: int,
    walls: Seq<Segment>,
    step_x: int,
    step_y: int,
    n: nat,
)
    ensures
        ({
            let before = probe(body, heading, id, walls, step_x, step_y, n);
            let after = probe(body, heading, id, walls, step_x, step_y, n + 1);
            let first = heading.first_corner(body);
            let second = heading.second_corner(body);
            match path(body, first, before).meet(walls[n as int]) {
                Some(point) => after == stopped(heading, id, n as int, first, point, before),
                None => match path(body, second, before).meet(walls[n as int]) {
                    Some(point) => after == stopped(heading, id, n as int, second, point, before),
                    None => after == before,
                },
            }
        }),
{
}

/// A move that is stopped by a wall has something left on the axis of its
/// heading, and what is left there runs against the step.
pub proof fn lemma_probe_turns_back(
    body: Body,
    heading: Heading,
    id: int,
    walls: Seq<Segment>,
    step_x: int,
    step_y: int,
    n: nat,
)
    ensures
        ({
            let c = probe(body, heading, id, walls, step_x, step_y, n);
            c.indexes is Some ==> if heading.horizontal() {
                (step_x > 0 && c.step_x < 0) || (step_x < 0 && c.step_x > 0)
            } else {
                (step_y > 0 && c.step_y < 0) || (step_y < 0 && c.step_y > 0)
            }
        }),
    decreases n,
{
    if n > 0 {
        let target = probe(body, heading, id, walls, step_x, step_y, (n - 1) as nat);
        lemma_probe_turns_back(body, heading, id, walls, step_x, step_y, (n - 1) as nat);
        lemma_probe_within_reach(body, heading, id, walls, step_x, step_y, (n - 1) as nat);
        let first = heading.first_corner(body);
        let second = heading.second_corner(body);
        match path(body, first, target).meet(walls[n - 1]) {
            Some(point) => {
                assert(path(body, first, target).in_box(point.0, point.1));
            },
            None => match path(body, second, target).meet(walls[n - 1]) {
                Some(point) => {
                    assert(path(body, second, target).in_box(point.0, point.1));
                },
                None => {},
            },
        }
    }
}

impl BallModel {
    /// The square that the ball covers.
    pub open spec fn body(self) -> Body {
        Body {
            x: self.rect.x as int,
            y: self.rect.y as int,
            width: self.rect.width as int,
            height: self.rect.height as int,
        }
    }
}

/// Whether every corner of the body has coordinates that fit, where the body
/// is and at the end of the step, and the step can be turned back.
pub open spec fn reach_fits(body: Body, step_x: int, step_y: int) -> bool {
    &&& fits(body.x) && fits(body.x + body.width)
    &&& fits(body.y) && fits(body.y + body.height)
    &&& fits(body.x + step_x) && fits(body.x + body.width + step_x)
    &&& fits(body.y + step_y) && fits(body.y + body.height + step_y)
    &&& fits(-step_x) && fits(-step_y)
}

/// The move that ends where a corner touches a wall.
fn stop(
    heading: Heading,
    id: usize,
    index: usize,
    corner: (i32, i32),
    point: (i32, i32),
    target: &VirtualBall,
) -> (vb: VirtualBall)
    requires
        fits(point.0 - corner.0),
        fits(point.1 - corner.1),
        fits(point.0 - corner.0 - target@.x),
        fits(target@.x - (point.0 - corner.0)),
        fits(point.1 - corner.1 - target@.y),
        fits(target@.y - (point.1 - corner.1)),
    ensures
        vb@ == stopped(
            heading,
            id as int,
            index as int,
            (corner.0 as int, corner.1 as int),
            (point.0 as int, point.1 as int),
            target@,
        ),
{
    let x: i32 = point.0 - corner.0;
    let y: i32 = point.1 - corner.1;
    match heading {
        Heading::Right | Heading::Left => {
            let left: i32 = x - target.x();
            VirtualBall::new(
                x,
                y,
                left,
                target.y() - y,
                if left != 0 {
                    Some((id, index))
                } else {
                    None
                },
            )
        },
        Heading::Down | Heading::Up => {
            let left: i32 = y - target.y();
            VirtualBall::new(
                x,
                y,
                target.x() - x,
                left,
                if left != 0 {
                    Some((id, index))
                } else {
                    None
                },
            )
        },
    }
}

impl Ball {
    /// Where the ball comes to rest when it makes the step `(step_x,
    /// step_y)` with the given heading among the walls of list `id`.
    ///
    /// The ball's two leading corners are followed from where they are to the
    /// end of the step, and each wall in turn stops the ball where it meets
    /// the way of one of them. A wall later in the list is tried against the
    /// move as the walls before it have left it, and replaces them if it is
    /// met.
    pub fn virtual_position(
        &self,
        heading: Heading,
        id: usize,
        walls: &Vec<Segmet2D>,
        step_x: i32,
        step_y: i32,
    ) -> (vb: VirtualBall)
        requires
            self.wf(),
            reach_fits(self@.body(), step_x as int, step_y as int),
        ensures
            vb@ == candidate(
                self@.body(),
                heading,
                id as int,
                segments(walls@),
                step_x as int,
                step_y as int,
            ),
            within_reach(self@.body(), step_x as int, step_y as int, vb@),
            names_wall(vb@, id as int, walls.len() as int),
    {
        let ghost body = self@.body();
        let x: i32 = self.x();
        let y: i32 = self.y();
        let first: (i32, i32) = match heading {
            Heading::Right => (self.width(), 0),
            Heading::Left => (0, 0),
            Heading::Down => (0, self.height()),
            Heading::Up => (0, 0),
        };
        let second: (i32, i32) = match heading {
            Heading::Right => (self.width(), self.height()),
            Heading::Left => (0, self.height()),
            Heading::Down => (self.width(), self.height()),
            Heading::Up => (self.width(), 0),
        };
        let mut vb = VirtualBall::new(x + step_x, y + step_y, 0, 0, None);
        let mut i: usize = 0;
        while i < walls.len()
            invariant
                i <= walls.len(),
                self.wf(),
                body == self@.body(),
                x == body.x,
                y == body.y,
                reach_fits(body, step_x as int, step_y as int),
                (first.0 as int, first.1 as int) == heading.first_corner(body),
                (second.0 as int, second.1 as int) == heading.second_corner(body),
                vb@ == probe(
                    body,
                    heading,
                    id as int,
                    segments(walls@),
                    step_x as int,
                    step_y as int,
                    i as nat,
                ),
                within_reach(body, step_x as int, step_y as int, vb@),
                names_wall(vb@, id as int, i as int),
            decreases walls.len() - i,
        {
            let wall: &Segmet2D = &walls[i];
            let ghost target = vb@;
            proof {
                lemma_against_within_reach(
                    body,
                    heading,
                    id as int,
                    i as int,
                    wall@,
                    step_x as int,
                    step_y as int,
                    target,
                );
                assert(segments(walls@)[i as int] == wall@);
            }
            let way_first = Segmet2D::new(
                x + first.0,
                y + first.1,
                vb.x() + first.0,
                vb.y() + first.1,
            );
            let way_second = Segmet2D::new(
                x + second.0,
                y + second.1,
                vb.x() + second.0,
                vb.y() + second.1,
            );
            assert(way_first@ == path(body, heading.first_corner(body), target));
            assert(way_second@ == path(body, heading.second_corner(body), target));
            if let Some(point) = way_first.intersect(wall) {
                vb = stop(heading, id, i, first, point, &vb);
            } else if let Some(point) = way_second.intersect(wall) {
                vb = stop(heading, id, i, second, point, &vb);
            }
            i += 1;
        }
        vb
    }

    /// Where the ball comes to rest when it moves right among `walls_right`.
    pub fn virtual_position_move_right(
        &self,
        id: usize,
        walls_right: &Vec<Segmet2D>,
        step_x: i32,
        step_y: i32,
    ) -> (vb: VirtualBall)
        requires
            self.wf(),
            reach_fits(self@.body(), step_x as int, step_y as int),
        ensures
            vb@ == candidate(
                self@.body(),
                Heading::Right,
                id as int,
                segments(walls_right@),
                step_x as int,
                step_y as int,
            ),
    {
        self.virtual_position(Heading::Right, id, walls_right, step_x, step_y)
    }

    /// Where the ball comes to rest when it moves left among `walls_left`.
    pub fn virtual_position_move_left(
        &self,
        id: usize,
        walls_left: &Vec<Segmet2D>,
        step_x: i32,
        step_y: i32,
    ) -> (vb: VirtualBall)
        requires
            self.wf(),
            reach_fits(self@.body(), step_x as int, step_y as int),
        ensures
            vb@ == candidate(
                self@.body(),
                Heading::Left,
                id as int,
                segments(walls_left@),
                step_x as int,
                step_y as int,
            ),
    {
        self.virtual_position(Heading::Left, id, walls_left, step_x, step_y)
    }

    /// Where the ball comes to rest when it moves up among `walls_up`.
    pub fn virtual_position_move_up(
        &self,
        id: usize,
        walls_up: &Vec<Segmet2D>,
        step_x: i32,
        step_y: i32,
    ) -> (vb: VirtualBall)
        requires
            self.wf(),
            reach_fits(self@.body(), step_x as int, step_y as int),
        ensures
            vb@ == candidate(
                self@.body(),
                Heading::Up,
                id as int,
                segments(walls_up@),
                step_x as int,
                step_y as int,
            ),
    {
        self.virtual_position(Heading::Up, id, walls_up, step_x, step_y)
    }

    /// Where the ball comes to rest when it moves down among `walls_down`.
    pub fn virtual_position_move_down(
        &self,
        id: usize,
        walls_down: &Vec<Segmet2D>,
        step_x: i32,
        step_y: i32,
    ) -> (vb: VirtualBall)
        requires
            self.wf(),
            reach_fits(self@.body(), step_x as int, step_y as int),
        ensures
            vb@ == candidate(
                self@.body(),
                Heading::Down,
                id as int,
                segments(walls_down@),
                step_x as int,
                step_y as int,
            ),
    {
        self.virtual_position(Heading::Down, id, walls_down, step_x, step_y)
    }
}

} // verus!
