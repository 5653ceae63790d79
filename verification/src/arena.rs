use vstd::prelude::*;
use crate::ball::{fits, BallModel};
use crate::flight::{
    after_frames, goal_of_frame, inside, lemma_candidate_without_paddles,
    lemma_step_between_floor_and_ceiling, lemma_step_between_sides,
};
use crate::frame::{lemma_winning_within_reach, winning, Frame, Motion, Turn, IDLE_ROUNDS};
use crate::probe::{candidate, path, unhindered, Body, Heading};
use crate::segment::{
    between, lemma_level_crossing, lemma_meets_level_wall, lemma_meets_upright_wall,
    lemma_rounded_height, lemma_upright_crossing, lower, magnitude, trunc_div, upper,
};
use crate::team::TeamName;
use crate::virtual_ball::Candidate;
use crate::walls::{boundary, wall_set, Court};

verus! {

/// Whether a body is inside the field.
pub open spec fn body_inside(body: Body, court: Court) -> bool {
    &&& court.x_min <= body.x
    &&& body.x + body.width <= court.x_max
    &&& court.y_min <= body.y
    &&& body.y + body.height <= court.y_max
}

/// Whether a step along the x axis would carry a body past a side of the
/// field.
pub open spec fn crosses_side(body: Body, court: Court, step_x: int) -> bool {
    body.x + body.width + step_x > court.x_max || body.x + step_x < court.x_min
}

/// Whether a step along the y axis would carry a body past the floor or the
/// ceiling of the field.
pub open spec fn crosses_floor_or_ceiling(body: Body, court: Court, step_y: int) -> bool {
    body.y + body.height + step_y > court.y_max || body.y + step_y < court.y_min
}

/// Where a body stands against the side of the field toward which a step
/// along the x axis goes.
pub open spec fn stop_x(body: Body, court: Court, step_x: int) -> int {
    if step_x >= 0 {
        court.x_max - body.width
    } else {
        court.x_min
    }
}

/// Where a body stands against the floor or the ceiling of the field,
/// whichever a step along the y axis goes toward.
pub open spec fn stop_y(body: Body, court: Court, step_y: int) -> int {
    if step_y >= 0 {
        court.y_max - body.height
    } else {
        court.y_min
    }
}

/// The move along the x axis of a body inside a field without paddles: the
/// whole step, or, where that would carry the body past a side of the field,
/// the way to that side, on which the body is as high as its way is there.
pub proof fn lemma_along_x_in_field(
    body: Body,
    vx: int,
    vy: int,
    court: Court,
    step_x: int,
    step_y: int,
)
    requires
        body.width >= 1,
        body.height >= 1,
        body_inside(body, court),
        magnitude(step_y) <= magnitude(vy),
    ensures
        ({
            let walls = wall_set(vx, vy, None, court);
            let along_x = if step_x >= 0 {
                candidate(body, Heading::Right, 0, walls[0], step_x, step_y)
            } else {
                candidate(body, Heading::Left, 1, walls[1], step_x, step_y)
            };
            let stop = stop_x(body, court, step_x);
            let height = trunc_div(step_y * (stop - body.x) + body.y * step_x, step_x);
            if crosses_side(body, court, step_x) {
                along_x == (Candidate {
                    x: stop,
                    y: height,
                    step_x: stop - (body.x + step_x),
                    step_y: body.y + step_y - height,
                    indexes: Some(
                        (
                            if step_x >= 0 {
                                0int
                            } else {
                                1int
                            },
                            0int,
                        ),
                    ),
                })
            } else {
                along_x == unhindered(body, step_x, step_y)
            }
        }),
{
    if crosses_side(body, court, step_x) {
        let heading = if step_x >= 0 {
            Heading::Right
        } else {
            Heading::Left
        };
        let target = unhindered(body, step_x, step_y);
        lemma_candidate_without_paddles(body, heading, vx, vy, court, step_x, step_y);
        let wall = boundary(heading, vx, vy, court);
        let way = path(body, heading.first_corner(body), target);
        lemma_upright_crossing(way, wall);
        let stop = stop_x(body, court, step_x);
        assert(way.ordinate_at(wall.x1) == trunc_div(
            step_y * (stop - body.x) + body.y * step_x,
            step_x,
        ));
    } else {
        lemma_step_between_sides(body, vx, vy, court, step_x, step_y);
    }
}

/// The move along the y axis of a body inside a field without paddles: the
/// whole step, or, where that would carry the body past the floor or the
/// ceiling, the way to it, on which the body is as far to the right as its
/// way is there.
pub proof fn lemma_along_y_in_field(
    body: Body,
    vx: int,
    vy: int,
    court: Court,
    step_x: int,
    step_y: int,
)
    requires
        body.width >= 1,
        body.height >= 1,
        body_inside(body, court),
        magnitude(step_x) <= magnitude(vx),
    ensures
        ({
            let walls = wall_set(vx, vy, None, court);
            let along_y = if step_y >= 0 {
                candidate(body, Heading::Down, 2, walls[2], step_x, step_y)
            } else {
                candidate(body, Heading::Up, 3, walls[3], step_x, step_y)
            };
            let stop = stop_y(body, court, step_y);
            let place = trunc_div(step_x * (stop - body.y) + body.x * step_y, step_y);
            if crosses_floor_or_ceiling(body, court, step_y) {
                along_y == (Candidate {
                    x: place,
                    y: stop,
                    step_x: body.x + step_x - place,
                    step_y: stop - (body.y + step_y),
                    indexes: Some(
                        (
                            if step_y >= 0 {
                                2int
                            } else {
                                3int
                            },
                            0int,
                        ),
                    ),
                })
            } else {
                along_y == unhindered(body, step_x, step_y)
            }
        }),
{
    if crosses_floor_or_ceiling(body, court, step_y) {
        let heading = if step_y >= 0 {
            Heading::Down
        } else {
            Heading::Up
        };
        let target = unhindered(body, step_x, step_y);
        lemma_candidate_without_paddles(body, heading, vx, vy, court, step_x, step_y);
        let wall = boundary(heading, vx, vy, court);
        let way = path(body, heading.first_corner(body), target);
        lemma_level_crossing(way, wall);
        let stop = stop_y(body, court, step_y);
        assert(way.abscissa_at(wall.y1) == trunc_div(
            step_x * (stop - body.y) + body.x * step_y,
            step_y,
        ));
    } else {
        lemma_step_between_floor_and_ceiling(body, vx, vy, court, step_x, step_y);
    }
}

/// In a field without paddles, the move of a body inside the field ends
/// inside the field.
pub proof fn lemma_move_ends_in_field(
    body: Body,
    vx: int,
    vy: int,
    court: Court,
    step_x: int,
    step_y: int,
)
    requires
        body.width >= 1,
        body.height >= 1,
        body_inside(body, court),
        magnitude(step_x) <= magnitude(vx),
        magnitude(step_y) <= magnitude(vy),
    ensures
        ({
            let c = winning(body, wall_set(vx, vy, None, court), step_x, step_y);
            body_inside(Body { x: c.x, y: c.y, ..body }, court)
        }),
{
    lemma_along_x_in_field(body, vx, vy, court, step_x, step_y);
    lemma_along_y_in_field(body, vx, vy, court, step_x, step_y);
    let a = stop_x(body, court, step_x) - body.x;
    let b = stop_y(body, court, step_y) - body.y;
    if crosses_side(body, court, step_x) {
        lemma_rounded_height(body.y, step_y, step_x, a, 0);
        if crosses_floor_or_ceiling(body, court, step_y) {
            lemma_rounded_height(body.y, step_y, step_x, a, b);
            lemma_rounded_height(body.x, step_x, step_y, b, a);
        }
    }
    if crosses_floor_or_ceiling(body, court, step_y) {
        lemma_rounded_height(body.x, step_x, step_y, b, 0);
    }
}

/// In a field without paddles, a frame that has the ball inside the field,
/// with no more of the step left than the first step, ends with the ball
/// inside the field.
pub proof fn lemma_resolve_ends_in_field(
    start: BallModel,
    court: Court,
    m: Motion,
    idle: nat,
)
    requires
        start.wf(),
        body_inside(m.body(start.frame(None, court)), court),
        magnitude(m.step_x) <= magnitude(start.vx),
        magnitude(m.step_y) <= magnitude(start.vy),
    ensures
        ({
            let frame = start.frame(None, court);
            body_inside(m.resolve(frame, idle).0.body(frame), court)
        }),
    decreases m.remaining(), idle,
{
    let frame = start.frame(None, court);
    lemma_move_ends_in_field(m.body(frame), start.vx, start.vy, court, m.step_x, m.step_y);
    lemma_winning_within_reach(m.body(frame), frame.walls, m.step_x, m.step_y);
    m.lemma_resolve_unfolds(frame, idle);
    match m.turn(frame) {
        Turn::Over(_, _) => {},
        Turn::On(next) => {
            if next.remaining() < m.remaining() {
                lemma_resolve_ends_in_field(start, court, next, IDLE_ROUNDS as nat);
            } else if idle > 0 {
                lemma_resolve_ends_in_field(start, court, next, (idle - 1) as nat);
            }
        },
    }
}

/// The ball stays in the field: with no paddles in play, a ball that is
/// inside the field is inside the field after a frame, whatever its speed.
pub proof fn lemma_ball_stays_in_field(ball: BallModel, court: Court)
    requires
        ball.wf(),
        ball.can_travel(),
        inside(ball, court),
    ensures
        inside(ball.after_frame(None, court).0, court),
{
    let frame = ball.frame(None, court);
    lemma_resolve_ends_in_field(ball, court, ball.start(), IDLE_ROUNDS as nat);
    crate::flight::lemma_resolve_within_a_step(ball, ball.start(), frame, IDLE_ROUNDS as nat);
    let end = ball.start().resolve(frame, IDLE_ROUNDS as nat).0;
    assert(fits(end.x) && fits(end.y));
}

/// Whether the last turn of a motion brought the ball no further: the step
/// that is left is the step that was left before it, turned back on the y
/// axis.
pub open spec fn turned_on_the_spot(m: Motion) -> bool {
    m.step_x == m.before_x && m.step_y == -m.before_y && m.step_y != 0
}

/// Whether a motion is on its way across a field without paddles, in a frame
/// that began with the ball `start` inside the field: the ball is inside the
/// field, it has its first horizontal speed, and it is still to go as far
/// along the x axis as the first step would carry it. Where its last turn
/// brought it no further, it stands against the floor or the ceiling that
/// turned it back.
pub open spec fn crossing_the_field(start: BallModel, court: Court, m: Motion) -> bool {
    let body = m.body(start.frame(None, court));
    &&& body_inside(body, court)
    &&& m.x + m.step_x == start.rect.x + start.vx
    &&& between(0, m.step_x, start.vx)
    &&& magnitude(m.step_x) <= magnitude(m.before_x)
    &&& magnitude(m.step_y) <= magnitude(start.vy)
    &&& magnitude(m.step_y) <= magnitude(m.before_y)
    &&& m.vx == start.vx
    &&& turned_on_the_spot(m) ==> m.y == if m.step_y < 0 {
        court.y_max - body.height
    } else {
        court.y_min
    }
}

/// Whether a frame ended as a frame does that began with the ball `start`
/// flying across a field without paddles: in the goal toward which the ball
/// flew, where it stands against the side of the field and flies back at its
/// horizontal speed of play, or with the ball as far along the x axis as the
/// first step carries it, at its first horizontal speed.
pub open spec fn crossed_or_scored(
    start: BallModel,
    court: Court,
    end: Motion,
    goal: Option<TeamName>,
) -> bool {
    if goal is Some {
        &&& goal == Some(
            if start.vx > 0 {
                TeamName::Left
            } else {
                TeamName::Right
            },
        )
        &&& end.x == if start.vx > 0 {
            court.x_max - start.rect.width
        } else {
            court.x_min
        }
        &&& end.vx == if start.vx > 0 {
            -start.vx_default
        } else {
            start.vx_default
        }
    } else {
        end.x == start.rect.x + start.vx && end.vx == start.vx
    }
}

/// In a field without paddles that is higher than the ball, a frame that
/// crosses the field ends in the goal toward which the ball flies or with
/// the whole step made along the x axis.
pub proof fn lemma_resolve_crosses_the_field(
    start: BallModel,
    court: Court,
    m: Motion,
    idle: nat,
)
    requires
        start.wf(),
        start.rect.height < court.y_max - court.y_min,
        crossing_the_field(start, court, m),
        idle == IDLE_ROUNDS || (idle == IDLE_ROUNDS - 1 && turned_on_the_spot(m)),
    ensures
        ({
            let end = m.resolve(start.frame(None, court), idle);
            crossed_or_scored(start, court, end.0, end.1)
        }),
    decreases m.remaining(), idle,
{
    let frame = start.frame(None, court);
    let body = m.body(frame);
    lemma_along_x_in_field(body, start.vx, start.vy, court, m.step_x, m.step_y);
    lemma_along_y_in_field(body, start.vx, start.vy, court, m.step_x, m.step_y);
    lemma_move_ends_in_field(body, start.vx, start.vy, court, m.step_x, m.step_y);
    lemma_winning_within_reach(body, frame.walls, m.step_x, m.step_y);
    crate::frame::lemma_winning_turns_back(body, frame.walls, m.step_x, m.step_y);
    m.lemma_resolve_unfolds(frame, idle);
    match m.turn(frame) {
        Turn::Over(_, _) => {},
        Turn::On(next) => {
            assert(crossing_the_field(start, court, next));
            if next.remaining() < m.remaining() {
                lemma_resolve_crosses_the_field(start, court, next, IDLE_ROUNDS as nat);
            } else {
                assert(turned_on_the_spot(next));
                assert(idle == IDLE_ROUNDS);
                lemma_resolve_crosses_the_field(start, court, next, (idle - 1) as nat);
            }
        },
    }
}

/// Whether the ball `after` is what a frame leaves of the ball `before`
/// that flew across a field without paddles: in the goal toward which it
/// flew, standing against the side of the field and flying back at its
/// horizontal speed of play, or as far along the x axis as its speed carries
/// it, at the same horizontal speed.
pub open spec fn crossed_or_scored_ball(
    before: BallModel,
    court: Court,
    after: BallModel,
    goal: Option<TeamName>,
) -> bool {
    if goal is Some {
        &&& goal == Some(
            if before.vx > 0 {
                TeamName::Left
            } else {
                TeamName::Right
            },
        )
        &&& after.rect.x == if before.vx > 0 {
            court.x_max - before.rect.width
        } else {
            court.x_min
        }
        &&& after.vx == if before.vx > 0 {
            -before.vx_default
        } else {
            before.vx_default
        }
    } else {
        after.rect.x == before.rect.x + before.vx && after.vx == before.vx
    }
}

/// Whether the ball flies across a field without paddles: it is inside the
/// field, which is higher than the ball, and its speed is not the greatest
/// that there is on both axes.
pub open spec fn flies_across(ball: BallModel, court: Court) -> bool {
    &&& inside(ball, court)
    &&& ball.rect.height < court.y_max - court.y_min
    &&& !(ball.vx == i32::MAX && ball.vy == -i32::MAX)
}

/// A frame across the field: with no paddles in play, a ball that flies
/// across the field, whatever its speed and however often it bounces off
/// floor and ceiling on the way, ends the frame in the goal toward which it
/// flies or with its whole step made along the x axis. In the goal it stands
/// against the side of the field and flies back at its horizontal speed of
/// play, and the team on the other side scores.
pub proof fn lemma_frame_across_the_field(ball: BallModel, court: Court)
    requires
        ball.wf(),
        ball.can_travel(),
        flies_across(ball, court),
    ensures
        crossed_or_scored_ball(
            ball,
            court,
            ball.after_frame(None, court).0,
            ball.after_frame(None, court).1,
        ),
        inside(ball.after_frame(None, court).0, court),
{
    let frame = ball.frame(None, court);
    lemma_resolve_crosses_the_field(ball, court, ball.start(), IDLE_ROUNDS as nat);
    crate::flight::lemma_resolve_within_a_step(ball, ball.start(), frame, IDLE_ROUNDS as nat);
    lemma_ball_stays_in_field(ball, court);
    let end = ball.start().resolve(frame, IDLE_ROUNDS as nat).0;
    assert(fits(end.x) && fits(end.y));
}

/// Whether the ball can fly across the field frame after frame: it flies
/// across the field, and neither a step from the side toward which it flies
/// nor a step from the floor or the ceiling leaves the range of coordinates.
pub open spec fn can_fly_across(ball: BallModel, court: Court) -> bool {
    &&& flies_across(ball, court)
    &&& i32::MIN < ball.vx < i32::MAX
    &&& fits(court.x_max + magnitude(ball.vx))
    &&& fits(court.x_min - magnitude(ball.vx))
    &&& fits(court.y_max + magnitude(ball.vy))
    &&& fits(court.y_min - magnitude(ball.vy))
}

/// The way to the goal: with no paddles in play, a ball that flies across the
/// field with some horizontal speed reaches the side of the field toward
/// which it flies, after a number `n` of frames, however it bounces off floor
/// and ceiling on the way. Nobody scores before. In that frame the team on
/// the other side scores, and the ball is left standing against the side of
/// the field and flying back from it at its horizontal speed of play,
/// whatever its speed was.
pub proof fn lemma_way_to_the_goal(ball: BallModel, court: Court) -> (n: nat)
    requires
        ball.wf(),
        can_fly_across(ball, court),
        ball.vx != 0,
    ensures
        n >= 1,
        forall|k: nat| 1 <= k < n ==> goal_of_frame(ball, court, k) is None,
        goal_of_frame(ball, court, n) == Some(
            if ball.vx > 0 {
                TeamName::Left
            } else {
                TeamName::Right
            },
        ),
        after_frames(ball, court, n).rect.x == if ball.vx > 0 {
            court.x_max - ball.rect.width
        } else {
            court.x_min
        },
        after_frames(ball, court, n).vx == if ball.vx > 0 {
            -ball.vx_default
        } else {
            ball.vx_default
        },
    decreases
            if ball.vx > 0 {
                court.x_max - ball.rect.x
            } else {
                ball.rect.x - court.x_min
            },
{
    lemma_frame_across_the_field(ball, court);
    crate::flight::lemma_frame_within_a_step(ball, None, court);
    let next = ball.after_frame(None, court).0;
    if ball.after_frame(None, court).1 is Some {
        reveal_with_fuel(after_frames, 2);
        1
    } else {
        let m = lemma_way_to_the_goal(next, court);
        assert forall|k: nat| 1 <= k < m + 1 implies goal_of_frame(ball, court, k) is None by {
            if k > 1 {
                assert(goal_of_frame(ball, court, k) == goal_of_frame(next, court, (k - 1) as nat));
            }
        }
        m + 1
    }
}

} // verus!
