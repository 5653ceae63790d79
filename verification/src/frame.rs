use vstd::prelude::*;
use crate::probe::{
    candidate, lemma_probe_keeps_course, lemma_probe_turns_back, lemma_probe_within_reach,
    within_reach, Body, Heading,
};
use crate::segment::{between, directed, magnitude, sign, trunc_div, Segment};
use crate::team::TeamName;
use crate::virtual_ball::Candidate;

verus! {

/// Where the ball struck the side of a paddle: `offset` is the ball's
/// distance below the middle of the range in which it can touch that side,
/// `half_extent` the distance from the upper end of that range to its
/// middle. `rebound` is the direction, 1 for down and -1 for up, in which the
/// ball left a floor or ceiling that it struck later in the same frame, and 0
/// if it struck none.
pub struct Contact {
    pub offset: int,
    pub half_extent: int,
    pub rebound: int,
}

/// What does not change while a frame is resolved: the sides of the ball, the
/// horizontal speed that it has after a bounce, and the four lists of walls.
pub struct Frame {
    pub width: int,
    pub height: int,
    pub speed_x: int,
    pub walls: Seq<Seq<Segment>>,
}

/// What changes while a frame is resolved: where the ball is, its speed, the
/// step that it has still to make in this frame, the step that it had to make
/// before its last bounce, and the paddle hit that waits for its spin.
pub struct Motion {
    pub x: int,
    pub y: int,
    pub vx: int,
    pub vy: int,
    pub step_x: int,
    pub step_y: int,
    pub before_x: int,
    pub before_y: int,
    pub hit: Option<Contact>,
}

/// How many turns in a row may bring the ball no further before one more of
/// them ends the frame. After four such turns the ball has been turned back
/// twice on each axis: it stands where it stood, with the step that it had,
/// and would go on like this for ever.
pub const IDLE_ROUNDS: u32 = 3;

/// Where a ball of height `height` that stands at `y` touches the paddle side
/// `wall`. The ball can touch it from where its lower side is level with the
/// upper end of the wall down to where its upper side is level with the lower
/// end.
pub open spec fn contact(wall: Segment, height: int, y: int) -> Contact {
    let min = wall.y_min() - height;
    let max = wall.y_max();
    let mid = trunc_div(min + max, 2);
    Contact { offset: y - mid, half_extent: mid - min, rebound: 0 }
}

/// The move that a ball makes among the four lists of walls: of the move
/// along the x axis and the move along the y axis the one that leaves more of
/// the step, for it was stopped earlier, and the one along the x axis if both
/// leave as much. The move along an axis is probed to the right, or down, if
/// the step does not go the other way.
pub open spec fn winning(
    body: Body,
    walls: Seq<Seq<Segment>>,
    step_x: int,
    step_y: int,
) -> Candidate {
    let along_x = if step_x >= 0 {
        candidate(body, Heading::Right, 0, walls[0], step_x, step_y)
    } else {
        candidate(body, Heading::Left, 1, walls[1], step_x, step_y)
    };
    let along_y = if step_y >= 0 {
        candidate(body, Heading::Down, 2, walls[2], step_x, step_y)
    } else {
        candidate(body, Heading::Up, 3, walls[3], step_x, step_y)
    };
    if along_x.remaining() >= along_y.remaining() {
        along_x
    } else {
        along_y
    }
}

/// Whether a move names no wall but one of the four lists.
pub open spec fn names_listed_wall(c: Candidate, walls: Seq<Seq<Segment>>) -> bool {
    c.indexes matches Some(hit) ==> 0 <= hit.0 < 4 && 0 <= hit.1 < walls[hit.0].len()
}

/// The winning move stays on the way of the step, so that no more is left
/// after it than before, and the wall that it names is one of the lists.
pub proof fn lemma_winning_within_reach(
    body: Body,
    walls: Seq<Seq<Segment>>,
    step_x: int,
    step_y: int,
)
    ensures
        within_reach(body, step_x, step_y, winning(body, walls, step_x, step_y)),
        winning(body, walls, step_x, step_y).remaining() <= magnitude(step_x) + magnitude(step_y),
        names_listed_wall(winning(body, walls, step_x, step_y), walls),
{
    lemma_probe_within_reach(body, Heading::Right, 0, walls[0], step_x, step_y, walls[0].len());
    lemma_probe_within_reach(body, Heading::Left, 1, walls[1], step_x, step_y, walls[1].len());
    lemma_probe_within_reach(body, Heading::Down, 2, walls[2], step_x, step_y, walls[2].len());
    lemma_probe_within_reach(body, Heading::Up, 3, walls[3], step_x, step_y, walls[3].len());
}

/// The winning move, if a wall stopped it, turns the ball back on the axis of
/// that wall and keeps its course on the other: what is left of the step
/// runs against the step on the x axis, for a wall to the right or left, or
/// on the y axis, for a wall below or above, and is a part of the step on the
/// other axis.
pub proof fn lemma_winning_turns_back(
    body: Body,
    walls: Seq<Seq<Segment>>,
    step_x: int,
    step_y: int,
)
    ensures
        ({
            let c = winning(body, walls, step_x, step_y);
            match c.indexes {
                Some((id, index)) => if id < 2 {
                    &&& (step_x > 0 && c.step_x < 0) || (step_x < 0 && c.step_x > 0)
                    &&& between(0, c.step_y, step_y)
                } else {
                    &&& (step_y > 0 && c.step_y < 0) || (step_y < 0 && c.step_y > 0)
                    &&& between(0, c.step_x, step_x)
                },
                None => true,
            }
        }),
{
    lemma_winning_within_reach(body, walls, step_x, step_y);
    let right = walls[0];
    let left = walls[1];
    let down = walls[2];
    let up = walls[3];
    lemma_probe_within_reach(body, Heading::Right, 0, right, step_x, step_y, right.len());
    lemma_probe_within_reach(body, Heading::Left, 1, left, step_x, step_y, left.len());
    lemma_probe_within_reach(body, Heading::Down, 2, down, step_x, step_y, down.len());
    lemma_probe_within_reach(body, Heading::Up, 3, up, step_x, step_y, up.len());
    lemma_probe_turns_back(body, Heading::Right, 0, right, step_x, step_y, right.len());
    lemma_probe_turns_back(body, Heading::Left, 1, left, step_x, step_y, left.len());
    lemma_probe_turns_back(body, Heading::Down, 2, down, step_x, step_y, down.len());
    lemma_probe_turns_back(body, Heading::Up, 3, up, step_x, step_y, up.len());
    lemma_probe_keeps_course(body, Heading::Right, 0, right, step_x, step_y, right.len());
    lemma_probe_keeps_course(body, Heading::Left, 1, left, step_x, step_y, left.len());
    lemma_probe_keeps_course(body, Heading::Down, 2, down, step_x, step_y, down.len());
    lemma_probe_keeps_course(body, Heading::Up, 3, up, step_x, step_y, up.len());
}

/// Where the move along the x axis leaves as much of the step as the move
/// along the y axis, the ball makes the move along the x axis.
pub proof fn lemma_tie_goes_along_x(body: Body, walls: Seq<Seq<Segment>>, step_x: int, step_y: int)
    ensures
        ({
            let along_x = if step_x >= 0 {
                candidate(body, Heading::Right, 0, walls[0], step_x, step_y)
            } else {
                candidate(body, Heading::Left, 1, walls[1], step_x, step_y)
            };
            let along_y = if step_y >= 0 {
                candidate(body, Heading::Down, 2, walls[2], step_x, step_y)
            } else {
                candidate(body, Heading::Up, 3, walls[3], step_x, step_y)
            };
            &&& along_x.remaining() == along_y.remaining() ==> winning(body, walls, step_x, step_y)
                == along_x
            &&& winning(body, walls, step_x, step_y).remaining() >= along_x.remaining()
            &&& winning(body, walls, step_x, step_y).remaining() >= along_y.remaining()
        }),
{
}

/// How one bounce leaves a frame: over, with the side that scored, or to go
/// on with what is left of the step.
pub enum Turn {
    Over(Motion, Option<TeamName>),
    On(Motion),
}

impl Motion {
    /// How much of the step is left, both axes together.
    pub open spec fn remaining(self) -> int {
        magnitude(self.step_x) + magnitude(self.step_y)
    }

    /// The square that the ball covers.
    pub open spec fn body(self, frame: Frame) -> Body {
        Body { x: self.x, y: self.y, width: frame.width, height: frame.height }
    }

    /// The move that the ball makes next.
    pub open spec fn winner(self, frame: Frame) -> Candidate {
        winning(self.body(frame), frame.walls, self.step_x, self.step_y)
    }

    /// The motion after the ball has made the move `vb` and bounced off the
    /// wall that stopped it, the wall `index` of list `id`.
    ///
    /// Off a wall to the right or left the ball leaves at its horizontal
    /// speed of play, in the direction of what is left of the step; where
    /// that wall is a paddle's, the place of the hit is kept for the spin. Off
    /// a wall below or above, the vertical speed keeps its magnitude and
    /// takes the direction of what is left, and a paddle hit that waits
    /// takes note of it.
    pub open spec fn bounced(self, frame: Frame, vb: Candidate, id: int, index: int) -> Motion {
        Motion {
            x: vb.x,
            y: vb.y,
            vx: if id < 2 {
                directed(magnitude(frame.speed_x), vb.step_x)
            } else {
                self.vx
            },
            vy: if id < 2 {
                self.vy
            } else {
                directed(magnitude(self.vy), vb.step_y)
            },
            step_x: vb.step_x,
            step_y: vb.step_y,
            before_x: self.step_x,
            before_y: self.step_y,
            hit: if id < 2 {
                if index != 0 {
                    Some(contact(frame.walls[id][index], frame.height, vb.y))
                } else {
                    self.hit
                }
            } else {
                match self.hit {
                    Some(hit) => Some(Contact { rebound: sign(vb.step_y), ..hit }),
                    None => None,
                }
            },
        }
    }

    /// Whether the ball is caught between two walls: the step that is left
    /// after a bounce is the step that was left two bounces earlier.
    pub open spec fn stuck(self, vb: Candidate) -> bool {
        vb.step_x == self.before_x && vb.step_y == self.before_y
    }

    /// What the next move makes of the motion.
    ///
    /// The ball makes the winning move. If no wall stopped it, the frame is
    /// over. Else it bounces. The first wall of the right list is the goal of
    /// the right side, where the left side scores, and the first wall of the
    /// left list the goal of the left side; and a frame is over, too, when
    /// the ball is stuck.
    pub open spec fn turn(self, frame: Frame) -> Turn {
        let vb = self.winner(frame);
        match vb.indexes {
            None => Turn::Over(Motion { x: vb.x, y: vb.y, ..self }, None),
            Some((id, index)) => {
                let next = self.bounced(frame, vb, id, index);
                if id == 0 && index == 0 {
                    Turn::Over(next, Some(TeamName::Left))
                } else if id == 1 && index == 0 {
                    Turn::Over(next, Some(TeamName::Right))
                } else if self.stuck(vb) {
                    Turn::Over(next, None)
                } else {
                    Turn::On(next)
                }
            },
        }
    }

    /// The motion at the end of the frame, and the side that scored.
    ///
    /// The ball takes turn after turn until the frame is over. A turn that
    /// leaves as much of the step as there was brings the ball no further:
    /// after `idle` more of these in a row the next one ends the frame.
    pub open spec fn resolve(self, frame: Frame, idle: nat) -> (Motion, Option<TeamName>)
        decreases self.remaining(), idle,
        via Self::resolve_decreases
    {
        match self.turn(frame) {
            Turn::Over(end, goal) => (end, goal),
            Turn::On(next) => if next.remaining() < self.remaining() {
                next.resolve(frame, IDLE_ROUNDS as nat)
            } else if idle > 0 {
                next.resolve(frame, (idle - 1) as nat)
            } else {
                (next, None)
            },
        }
    }

    /// What `resolve` is, one turn further. No turn leaves more of the step
    /// than there was.
    pub proof fn lemma_resolve_unfolds(self, frame: Frame, idle: nat)
        ensures
            match self.turn(frame) {
                Turn::Over(end, goal) => self.resolve(frame, idle) == (end, goal),
                Turn::On(next) => next.remaining() <= self.remaining() && self.resolve(frame, idle)
                    == if next.remaining() < self.remaining() {
                    next.resolve(frame, IDLE_ROUNDS as nat)
                } else if idle > 0 {
                    next.resolve(frame, (idle - 1) as nat)
                } else {
                    (next, None)
                },
            },
    {
        lemma_winning_within_reach(self.body(frame), frame.walls, self.step_x, self.step_y);
    }

    #[via_fn]
    proof fn resolve_decreases(self, frame: Frame, idle: nat) {
        lemma_winning_within_reach(self.body(frame), frame.walls, self.step_x, self.step_y);
    }
}

/// The motion after a turn that brings the ball no further, if the next turn
/// is one: the frame goes on, and as much of the step is left as there was.
pub open spec fn idle_turn(m: Motion, frame: Frame) -> Option<Motion> {
    match m.turn(frame) {
        Turn::On(next) => if next.remaining() >= m.remaining() {
            Some(next)
        } else {
            None
        },
        Turn::Over(_, _) => None,
    }
}

/// A turn that brings the ball no further leaves it where it is and turns
/// the step back on one axis: on the x axis where a wall to the right or left
/// stopped the ball, on the y axis where a wall below or above did.
pub proof fn lemma_idle_turn_reverses_one_axis(m: Motion, frame: Frame)
    requires
        idle_turn(m, frame) is Some,
    ensures
        ({
            let next = idle_turn(m, frame)->0;
            &&& next.x == m.x
            &&& next.y == m.y
            &&& (next.step_x == -m.step_x && next.step_y == m.step_y && m.step_x != 0) || (
            next.step_x == m.step_x && next.step_y == -m.step_y && m.step_y != 0)
            &&& next.before_x == m.step_x
            &&& next.before_y == m.step_y
            &&& (next.step_x, next.step_y) != (m.before_x, m.before_y)
        }),
{
    lemma_winning_within_reach(m.body(frame), frame.walls, m.step_x, m.step_y);
    lemma_winning_turns_back(m.body(frame), frame.walls, m.step_x, m.step_y);
}

/// Why a frame ends after four turns in a row that bring the ball no further:
/// the ball has then turned back twice on each axis, so that it stands where
/// it stood with the step that was left, and its next move is the move that
/// began the four. It would go on like this for ever.
pub proof fn lemma_four_idle_turns_come_round(m: Motion, frame: Frame)
    requires
        idle_turn(m, frame) is Some,
        idle_turn(idle_turn(m, frame)->0, frame) is Some,
        idle_turn(idle_turn(idle_turn(m, frame)->0, frame)->0, frame) is Some,
        idle_turn(idle_turn(idle_turn(idle_turn(m, frame)->0, frame)->0, frame)->0, frame) is Some,
    ensures
        ({
            let fourth = idle_turn(
                idle_turn(idle_turn(idle_turn(m, frame)->0, frame)->0, frame)->0,
                frame,
            )->0;
            &&& fourth.x == m.x
            &&& fourth.y == m.y
            &&& fourth.step_x == m.step_x
            &&& fourth.step_y == m.step_y
            &&& fourth.winner(frame) == m.winner(frame)
        }),
{
    let first = idle_turn(m, frame)->0;
    let second = idle_turn(first, frame)->0;
    let third = idle_turn(second, frame)->0;
    lemma_idle_turn_reverses_one_axis(m, frame);
    lemma_idle_turn_reverses_one_axis(first, frame);
    lemma_idle_turn_reverses_one_axis(second, frame);
    lemma_idle_turn_reverses_one_axis(third, frame);
    let fourth = idle_turn(third, frame)->0;
    assert(fourth.body(frame) == m.body(frame));
}

} // verus!
