use vstd::prelude::*;
use crate::ball::BallModel;
use crate::frame::{contact, winning, Frame, Motion, Turn, IDLE_ROUNDS};
use crate::paddle::PaddleModel;
use crate::probe::{against, candidate, path, probe, stopped, unhindered, Body, Heading};
use crate::rect::Rect;
use crate::segment::{
    between, directed, lemma_meets_level_wall, lemma_meets_upright_wall,
    lemma_misses_wall_out_of_reach, lower, magnitude, upper, Segment,
};
use crate::team::TeamName;
use crate::virtual_ball::Candidate;
use crate::walls::{boundary, paddle_edge, wall_list, wall_set, Court};

verus! {

/// Whether the ball is inside the field.
pub open spec fn inside(ball: BallModel, court: Court) -> bool {
    &&& court.x_min <= ball.rect.x
    &&& ball.rect.x + ball.rect.width <= court.x_max
    &&& court.y_min <= ball.rect.y
    &&& ball.rect.y + ball.rect.height <= court.y_max
}

/// Whether the ball is between the left and right sides of the field, and
/// still is when it has made the step of a frame. It may touch a side.
pub open spec fn stays_between_sides(ball: BallModel, court: Court) -> bool {
    &&& court.x_min <= ball.rect.x + lower(0, ball.vx)
    &&& ball.rect.x + ball.rect.width + upper(0, ball.vx) <= court.x_max
}

/// Whether the ball is between the ceiling and the floor of the field, and
/// still is when it has made the step of a frame. It may touch them.
pub open spec fn stays_between_floor_and_ceiling(ball: BallModel, court: Court) -> bool {
    &&& court.y_min <= ball.rect.y + lower(0, ball.vy)
    &&& ball.rect.y + ball.rect.height + upper(0, ball.vy) <= court.y_max
}

/// Whether the ball flies free in a field with no paddles: it is inside the
/// field and still is when it has made the step of a frame.
pub open spec fn flies_free(ball: BallModel, court: Court) -> bool {
    stays_between_sides(ball, court) && stays_between_floor_and_ceiling(ball, court)
}

/// Whether the ball flies into the goal on the right: it is inside the field,
/// stays between floor and ceiling, and the step of a frame would carry its
/// right side past the right side of the field.
pub open spec fn flies_into_right_goal(ball: BallModel, court: Court) -> bool {
    &&& inside(ball, court)
    &&& stays_between_floor_and_ceiling(ball, court)
    &&& ball.vx > 0
    &&& court.x_max < ball.rect.x + ball.rect.width + ball.vx
}

/// Whether the ball flies into the goal on the left: it is inside the field,
/// stays between floor and ceiling, and the step of a frame would carry its
/// left side past the left side of the field.
pub open spec fn flies_into_left_goal(ball: BallModel, court: Court) -> bool {
    &&& inside(ball, court)
    &&& stays_between_floor_and_ceiling(ball, court)
    &&& ball.vx < 0
    &&& ball.rect.x + ball.vx < court.x_min
}

/// Among the field's sides alone, a list of walls is its one side, and the
/// move that it leaves is the move that this side leaves.
pub proof fn lemma_candidate_without_paddles(
    body: Body,
    heading: Heading,
    vx: int,
    vy: int,
    court: Court,
    step_x: int,
    step_y: int,
)
    ensures
        candidate(
            body,
            heading,
            heading.id(),
            wall_list(heading, vx, vy, None, court),
            step_x,
            step_y,
        ) == against(
            body,
            heading,
            heading.id(),
            0,
            boundary(heading, vx, vy, court),
            unhindered(body, step_x, step_y),
        ),
        wall_set(vx, vy, None, court)[heading.id()] == wall_list(heading, vx, vy, None, court),
{
    reveal_with_fuel(probe, 2);
    let walls = wall_list(heading, vx, vy, None, court);
    assert(walls.len() == 1);
    assert(walls[0] == boundary(heading, vx, vy, court));
}

/// With no paddles in play, a ball that is between the sides of the field
/// and still is at the end of a step is not stopped on the x axis, if the
/// sides are long enough for the way of its upper corners.
pub proof fn lemma_step_between_sides(
    body: Body,
    vx: int,
    vy: int,
    court: Court,
    step_x: int,
    step_y: int,
)
    requires
        body.width >= 0,
        body.height >= 0,
        court.x_min <= body.x + lower(0, step_x),
        body.x + body.width + upper(0, step_x) <= court.x_max,
        court.y_min < court.y_max,
        court.y_min - magnitude(vy) <= body.y + lower(0, step_y),
        body.y + upper(0, step_y) <= court.y_max + magnitude(vy),
    ensures
        ({
            let walls = wall_set(vx, vy, None, court);
            if step_x >= 0 {
                candidate(body, Heading::Right, 0, walls[0], step_x, step_y)
            } else {
                candidate(body, Heading::Left, 1, walls[1], step_x, step_y)
            }
        }) == unhindered(body, step_x, step_y),
{
    let target = unhindered(body, step_x, step_y);
    let heading = if step_x >= 0 {
        Heading::Right
    } else {
        Heading::Left
    };
    lemma_candidate_without_paddles(body, heading, vx, vy, court, step_x, step_y);
    let wall = boundary(heading, vx, vy, court);
    let first = path(body, heading.first_corner(body), target);
    let second = path(body, heading.second_corner(body), target);
    if step_x == 0 {
        assert(first.determinant(wall) == 0) by (nonlinear_arith)
            requires
                first.determinant(wall) == (first.y1 - first.y2) * (wall.x2 - wall.x1) - (wall.y1
                    - wall.y2) * (first.x2 - first.x1),
                wall.x1 == wall.x2,
                first.x1 == first.x2,
        ;
        assert(second.determinant(wall) == 0) by (nonlinear_arith)
            requires
                second.determinant(wall) == (second.y1 - second.y2) * (wall.x2 - wall.x1) - (
                wall.y1 - wall.y2) * (second.x2 - second.x1),
                wall.x1 == wall.x2,
                second.x1 == second.x2,
        ;
    } else if between(first.x1, wall.x1, first.x2) {
        lemma_meets_upright_wall(first, wall);
    } else {
        lemma_misses_wall_out_of_reach(first, wall);
        lemma_misses_wall_out_of_reach(second, wall);
    }
}

/// With no paddles in play, a ball that is between ceiling and floor and
/// still is at the end of a step is not stopped on the y axis, if floor and
/// ceiling are long enough for the way of its left corners.
pub proof fn lemma_step_between_floor_and_ceiling(
    body: Body,
    vx: int,
    vy: int,
    court: Court,
    step_x: int,
    step_y: int,
)
    requires
        body.width >= 0,
        body.height >= 0,
        court.y_min <= body.y + lower(0, step_y),
        body.y + body.height + upper(0, step_y) <= court.y_max,
        court.x_min < court.x_max,
        court.x_min - magnitude(vx) <= body.x + lower(0, step_x),
        body.x + upper(0, step_x) <= court.x_max + magnitude(vx),
    ensures
        ({
            let walls = wall_set(vx, vy, None, court);
            if step_y >= 0 {
                candidate(body, Heading::Down, 2, walls[2], step_x, step_y)
            } else {
                candidate(body, Heading::Up, 3, walls[3], step_x, step_y)
            }
        }) == unhindered(body, step_x, step_y),
{
    let target = unhindered(body, step_x, step_y);
    let heading = if step_y >= 0 {
        Heading::Down
    } else {
        Heading::Up
    };
    lemma_candidate_without_paddles(body, heading, vx, vy, court, step_x, step_y);
    let wall = boundary(heading, vx, vy, court);
    let first = path(body, heading.first_corner(body), target);
    let second = path(body, heading.second_corner(body), target);
    if step_y == 0 {
        assert(first.determinant(wall) == 0) by (nonlinear_arith)
            requires
                first.determinant(wall) == (first.y1 - first.y2) * (wall.x2 - wall.x1) - (wall.y1
                    - wall.y2) * (first.x2 - first.x1),
                wall.y1 == wall.y2,
                first.y1 == first.y2,
        ;
        assert(second.determinant(wall) == 0) by (nonlinear_arith)
            requires
                second.determinant(wall) == (second.y1 - second.y2) * (wall.x2 - wall.x1) - (
                wall.y1 - wall.y2) * (second.x2 - second.x1),
                wall.y1 == wall.y2,
                second.y1 == second.y2,
        ;
    } else if between(first.y1, wall.y1, first.y2) {
        lemma_meets_level_wall(first, wall);
    } else {
        lemma_misses_wall_out_of_reach(first, wall);
        lemma_misses_wall_out_of_reach(second, wall);
    }
}

/// Free flight: with no paddles in play, a ball that is inside the field and
/// still is at the end of its step makes the whole step. It ends displaced by
/// its speed, with its speed unchanged, and nobody scores.
pub proof fn lemma_free_flight(ball: BallModel, court: Court)
    requires
        ball.wf(),
        flies_free(ball, court),
    ensures
        ball.after_frame(None, court) == (
            ball.moved(
                Motion { x: ball.rect.x + ball.vx, y: ball.rect.y + ball.vy, ..ball.start() },
            ),
            None::<TeamName>,
        ),
{
    lemma_step_between_sides(ball.body(), ball.vx, ball.vy, court, ball.vx, ball.vy);
    lemma_step_between_floor_and_ceiling(ball.body(), ball.vx, ball.vy, court, ball.vx, ball.vy);
    let frame = ball.frame(None, court);
    let m = ball.start();
    assert(m.body(frame) == ball.body());
    assert(m.winner(frame) == unhindered(ball.body(), ball.vx, ball.vy));
    m.lemma_resolve_unfolds(frame, IDLE_ROUNDS as nat);
}

/// The goal on the right: with no paddles in play, a ball inside the field
/// that flies to the right, stays between floor and ceiling, and would cross
/// the right side of the field in this frame is stopped with its right side
/// on it. The left team scores, and the ball is left flying to the left at
/// its horizontal speed of play, its vertical speed unchanged.
pub proof fn lemma_goal_on_the_right(ball: BallModel, court: Court)
    requires
        ball.wf(),
        ball.can_travel(),
        flies_into_right_goal(ball, court),
    ensures
        ({
            let end = ball.after_frame(None, court);
            &&& end.1 == Some(TeamName::Left)
            &&& end.0.rect.x + end.0.rect.width == court.x_max
            &&& between(ball.rect.y as int, end.0.rect.y as int, ball.rect.y + ball.vy)
            &&& end.0.vx == -ball.vx_default
            &&& end.0.vy == ball.vy
            &&& end.0.hit is None
        }),
{
    let frame = ball.frame(None, court);
    let m = ball.start();
    let body = ball.body();
    assert(m.body(frame) == body);
    lemma_step_between_floor_and_ceiling(body, ball.vx, ball.vy, court, ball.vx, ball.vy);
    lemma_candidate_without_paddles(body, Heading::Right, ball.vx, ball.vy, court, ball.vx, ball.vy);
    let wall = boundary(Heading::Right, ball.vx, ball.vy, court);
    let target = unhindered(body, ball.vx, ball.vy);
    let way = path(body, Heading::Right.first_corner(body), target);
    lemma_meets_upright_wall(way, wall);
    let point = way.meet(wall)->0;
    let along_x = stopped(Heading::Right, 0, 0, Heading::Right.first_corner(body), point, target);
    assert(candidate(body, Heading::Right, 0, frame.walls[0], ball.vx, ball.vy) == along_x);
    assert(m.winner(frame) == along_x);
    m.lemma_resolve_unfolds(frame, IDLE_ROUNDS as nat);
}

/// The goal on the left: with no paddles in play, a ball inside the field
/// that flies to the left, stays between floor and ceiling, and would cross
/// the left side of the field in this frame is stopped with its left side on
/// it. The right team scores, and the ball is left flying to the right at its
/// horizontal speed of play, its vertical speed unchanged.
pub proof fn lemma_goal_on_the_left(ball: BallModel, court: Court)
    requires
        ball.wf(),
        ball.can_travel(),
        flies_into_left_goal(ball, court),
    ensures
        ({
            let end = ball.after_frame(None, court);
            &&& end.1 == Some(TeamName::Right)
            &&& end.0.rect.x == court.x_min
            &&& between(ball.rect.y as int, end.0.rect.y as int, ball.rect.y + ball.vy)
            &&& end.0.vx == ball.vx_default
            &&& end.0.vy == ball.vy
            &&& end.0.hit is None
        }),
{
    let frame = ball.frame(None, court);
    let m = ball.start();
    let body = ball.body();
    assert(m.body(frame) == body);
    lemma_step_between_floor_and_ceiling(body, ball.vx, ball.vy, court, ball.vx, ball.vy);
    lemma_candidate_without_paddles(body, Heading::Left, ball.vx, ball.vy, court, ball.vx, ball.vy);
    let wall = boundary(Heading::Left, ball.vx, ball.vy, court);
    let target = unhindered(body, ball.vx, ball.vy);
    let way = path(body, Heading::Left.first_corner(body), target);
    lemma_meets_upright_wall(way, wall);
    let point = way.meet(wall)->0;
    let along_x = stopped(Heading::Left, 1, 0, Heading::Left.first_corner(body), point, target);
    assert(candidate(body, Heading::Left, 1, frame.walls[1], ball.vx, ball.vy) == along_x);
    assert(m.winner(frame) == along_x);
    m.lemma_resolve_unfolds(frame, IDLE_ROUNDS as nat);
}

/// The ball after `n` frames with no paddles in play.
pub open spec fn after_frames(ball: BallModel, court: Court, n: nat) -> BallModel
    decreases n,
{
    if n == 0 {
        ball
    } else {
        after_frames(ball.after_frame(None, court).0, court, (n - 1) as nat)
    }
}

/// The side that scores in the last of `n` frames with no paddles in play.
pub open spec fn goal_of_frame(ball: BallModel, court: Court, n: nat) -> Option<TeamName>
    decreases n,
{
    if n <= 1 {
        ball.after_frame(None, court).1
    } else {
        goal_of_frame(ball.after_frame(None, court).0, court, (n - 1) as nat)
    }
}

/// Every bounce turns the ball back. Off a wall to the right or left it
/// leaves against the step that brought it there, at the horizontal speed of
/// play whatever its speed was. Off a wall below or above it leaves against
/// the step that brought it there, at the vertical speed that it had.
pub proof fn lemma_bounce_turns_back(m: Motion, frame: Frame)
    requires
        frame.speed_x >= 0,
    ensures
        match m.winner(frame).indexes {
            Some((id, index)) => {
                let next = m.bounced(frame, m.winner(frame), id, index);
                if id < 2 {
                    m.step_x != 0 && next.vx == directed(frame.speed_x, -m.step_x) && next.vy
                        == m.vy
                } else {
                    m.step_y != 0 && next.vy == directed(magnitude(m.vy), -m.step_y) && next.vx
                        == m.vx
                }
            },
            None => true,
        },
{
    crate::frame::lemma_winning_turns_back(m.body(frame), frame.walls, m.step_x, m.step_y);
}

/// A frame ends in a goal when the ball is stopped by the first wall of the
/// right or left list: the left team scores on the right and the right team
/// on the left, whatever happened before in the frame.
pub proof fn lemma_goal_ends_frame(m: Motion, frame: Frame, idle: nat)
    ensures
        m.winner(frame).indexes == Some((0int, 0int)) ==> m.resolve(frame, idle).1 == Some(
            TeamName::Left,
        ),
        m.winner(frame).indexes == Some((1int, 0int)) ==> m.resolve(frame, idle).1 == Some(
            TeamName::Right,
        ),
{
    m.lemma_resolve_unfolds(frame, idle);
}

/// A ball that stands against the floor and is to go straight down, or
/// against the ceiling and is to go straight up, is turned back on the spot:
/// it stays where it is, and the whole step is left, the other way.
proof fn lemma_turned_back_on_the_spot(
    body: Body,
    vx: int,
    vy: int,
    court: Court,
    step_y: int,
)
    requires
        body.width >= 0,
        body.height >= 0,
        step_y != 0,
        court.x_min < court.x_max,
        court.x_min <= body.x <= court.x_max,
        step_y > 0 ==> body.y + body.height == court.y_max,
        step_y < 0 ==> body.y == court.y_min,
    ensures
        winning(body, wall_set(vx, vy, None, court), 0, step_y) == (crate::virtual_ball::Candidate {
            x: body.x,
            y: body.y,
            step_x: 0,
            step_y: -step_y,
            indexes: Some(
                (
                    if step_y > 0 {
                        2int
                    } else {
                        3int
                    },
                    0int,
                ),
            ),
        }),
{
    let target = unhindered(body, 0, step_y);
    // along the x axis both ways are upright, as the side of the field is
    lemma_candidate_without_paddles(body, Heading::Right, vx, vy, court, 0, step_y);
    let side = boundary(Heading::Right, vx, vy, court);
    let first = path(body, Heading::Right.first_corner(body), target);
    let second = path(body, Heading::Right.second_corner(body), target);
    assert(first.determinant(side) == 0) by (nonlinear_arith)
        requires
            first.determinant(side) == (first.y1 - first.y2) * (side.x2 - side.x1) - (side.y1
                - side.y2) * (first.x2 - first.x1),
            side.x1 == side.x2,
            first.x1 == first.x2,
    ;
    assert(second.determinant(side) == 0) by (nonlinear_arith)
        requires
            second.determinant(side) == (second.y1 - second.y2) * (side.x2 - side.x1) - (side.y1
                - side.y2) * (second.x2 - second.x1),
            side.x1 == side.x2,
            second.x1 == second.x2,
    ;
    assert(candidate(body, Heading::Right, 0, wall_set(vx, vy, None, court)[0], 0, step_y)
        == target);
    if step_y > 0 {
        lemma_candidate_without_paddles(body, Heading::Down, vx, vy, court, 0, step_y);
        let floor = boundary(Heading::Down, vx, vy, court);
        let way = path(body, Heading::Down.first_corner(body), target);
        lemma_meets_level_wall(way, floor);
    } else {
        lemma_candidate_without_paddles(body, Heading::Up, vx, vy, court, 0, step_y);
        let ceiling = boundary(Heading::Up, vx, vy, court);
        let way = path(body, Heading::Up.first_corner(body), target);
        lemma_meets_level_wall(way, ceiling);
    }
}

/// A ball caught between floor and ceiling: with no paddles in play, a ball
/// that fills the field from floor to ceiling and is to move straight up or
/// down bounces twice on the spot, and then the frame is over. The ball is
/// where it was, with the speed that it had, and nobody scores.
pub proof fn lemma_caught_ball_is_frozen(ball: BallModel, court: Court)
    requires
        ball.wf(),
        ball.can_travel(),
        ball.vx == 0,
        ball.vy != 0,
        ball.rect.y == court.y_min,
        ball.rect.y + ball.rect.height == court.y_max,
        court.x_min < court.x_max,
        court.x_min <= ball.rect.x <= court.x_max,
    ensures
        ball.after_frame(None, court) == (BallModel { hit: None, ..ball }, None::<TeamName>),
{
    let frame = ball.frame(None, court);
    let m = ball.start();
    let body = ball.body();
    assert(m.body(frame) == body);
    lemma_turned_back_on_the_spot(body, ball.vx, ball.vy, court, ball.vy);
    m.lemma_resolve_unfolds(frame, IDLE_ROUNDS as nat);
    let back = m.turn(frame)->On_0;
    assert(back.body(frame) == body);
    lemma_turned_back_on_the_spot(body, ball.vx, ball.vy, court, -ball.vy);
    back.lemma_resolve_unfolds(frame, (IDLE_ROUNDS - 1) as nat);
    let end = back.turn(frame)->Over_0;
    assert(ball.moved(end) == (BallModel { hit: None, ..ball }));
}

/// Whether the ball bounces off the floor in a field with no paddles: it is
/// inside the field and stays between the sides, the step of a frame would
/// carry its lower side past the floor, and what is left of the step then
/// does not carry it to the ceiling.
pub open spec fn bounces_off_floor(ball: BallModel, court: Court) -> bool {
    &&& inside(ball, court)
    &&& stays_between_sides(ball, court)
    &&& ball.vy > 0
    &&& court.y_max < ball.rect.y + ball.rect.height + ball.vy
    &&& court.y_min <= 2 * (court.y_max - ball.rect.height) - (ball.rect.y + ball.vy)
}

/// Whether the ball bounces off the ceiling in a field with no paddles: it
/// is inside the field and stays between the sides, the step of a frame
/// would carry its upper side past the ceiling, and what is left of the step
/// then does not carry it to the floor. Its speed is not the greatest that
/// there is on both axes: what is left of such a step can pass for the step
/// that a frame begins with, and the ball for one that is stuck.
pub open spec fn bounces_off_ceiling(ball: BallModel, court: Court) -> bool {
    &&& inside(ball, court)
    &&& stays_between_sides(ball, court)
    &&& ball.vy < 0
    &&& ball.rect.y + ball.vy < court.y_min
    &&& 2 * court.y_min - (ball.rect.y + ball.vy) + ball.rect.height <= court.y_max
    &&& !(ball.vx == i32::MAX && ball.vy == -i32::MAX)
}

/// The bounce off the floor: with no paddles in play, a ball that bounces off
/// the floor ends where it would have ended without the floor, mirrored at
/// the height at which it stands on the floor. It has made its whole step
/// along the x axis. Its vertical speed is turned back and as great as it
/// was, its horizontal speed is unchanged, and nobody scores.
pub proof fn lemma_bounce_off_the_floor(ball: BallModel, court: Court)
    requires
        ball.wf(),
        ball.can_travel(),
        bounces_off_floor(ball, court),
    ensures
        ball.after_frame(None, court) == (
            BallModel {
                rect: Rect {
                    x: (ball.rect.x + ball.vx) as i32,
                    y: (2 * (court.y_max - ball.rect.height) - (ball.rect.y + ball.vy)) as i32,
                    ..ball.rect
                },
                vy: -ball.vy,
                hit: None,
                ..ball
            },
            None::<TeamName>,
        ),
{
    let frame = ball.frame(None, court);
    let m = ball.start();
    let body = ball.body();
    let target = unhindered(body, ball.vx, ball.vy);
    assert(m.body(frame) == body);
    // the first turn ends on the floor
    lemma_step_between_sides(body, ball.vx, ball.vy, court, ball.vx, ball.vy);
    lemma_candidate_without_paddles(body, Heading::Down, ball.vx, ball.vy, court, ball.vx, ball.vy);
    let floor = boundary(Heading::Down, ball.vx, ball.vy, court);
    let way = path(body, Heading::Down.first_corner(body), target);
    lemma_meets_level_wall(way, floor);
    let point = way.meet(floor)->0;
    let along_y = stopped(Heading::Down, 2, 0, Heading::Down.first_corner(body), point, target);
    assert(candidate(body, Heading::Down, 2, frame.walls[2], ball.vx, ball.vy) == along_y);
    assert(m.winner(frame) == along_y);
    m.lemma_resolve_unfolds(frame, IDLE_ROUNDS as nat);
    let up = m.turn(frame)->On_0;
    assert(between(body.x, point.0, target.x) && point.1 == court.y_max);
    assert(up.x == point.0 && up.y == court.y_max - body.height);
    assert(up.step_x == target.x - point.0 && up.step_y == court.y_max - body.height - target.y);
    // the second turn makes what is left of the step
    let landed = up.body(frame);
    lemma_step_between_sides(landed, ball.vx, ball.vy, court, up.step_x, up.step_y);
    lemma_step_between_floor_and_ceiling(landed, ball.vx, ball.vy, court, up.step_x, up.step_y);
    assert(up.winner(frame) == unhindered(landed, up.step_x, up.step_y));
    up.lemma_resolve_unfolds(frame, IDLE_ROUNDS as nat);
    up.lemma_resolve_unfolds(frame, (IDLE_ROUNDS - 1) as nat);
}

/// The bounce off the ceiling: with no paddles in play, a ball that bounces
/// off the ceiling ends where it would have ended without the ceiling,
/// mirrored at the ceiling. It has made its whole step along the x axis. Its
/// vertical speed is turned back and as great as it was, its horizontal speed
/// is unchanged, and nobody scores.
pub proof fn lemma_bounce_off_the_ceiling(ball: BallModel, court: Court)
    requires
        ball.wf(),
        ball.can_travel(),
        bounces_off_ceiling(ball, court),
    ensures
        ball.after_frame(None, court) == (
            BallModel {
                rect: Rect {
                    x: (ball.rect.x + ball.vx) as i32,
                    y: (2 * court.y_min - (ball.rect.y + ball.vy)) as i32,
                    ..ball.rect
                },
                vy: -ball.vy,
                hit: None,
                ..ball
            },
            None::<TeamName>,
        ),
{
    let frame = ball.frame(None, court);
    let m = ball.start();
    let body = ball.body();
    let target = unhindered(body, ball.vx, ball.vy);
    assert(m.body(frame) == body);
    // the first turn ends on the ceiling
    lemma_step_between_sides(body, ball.vx, ball.vy, court, ball.vx, ball.vy);
    lemma_candidate_without_paddles(body, Heading::Up, ball.vx, ball.vy, court, ball.vx, ball.vy);
    let ceiling = boundary(Heading::Up, ball.vx, ball.vy, court);
    let way = path(body, Heading::Up.first_corner(body), target);
    lemma_meets_level_wall(way, ceiling);
    let point = way.meet(ceiling)->0;
    let along_y = stopped(Heading::Up, 3, 0, Heading::Up.first_corner(body), point, target);
    assert(candidate(body, Heading::Up, 3, frame.walls[3], ball.vx, ball.vy) == along_y);
    assert(m.winner(frame) == along_y);
    m.lemma_resolve_unfolds(frame, IDLE_ROUNDS as nat);
    let down = m.turn(frame)->On_0;
    assert(between(body.x, point.0, target.x) && point.1 == court.y_min);
    assert(down.x == point.0 && down.y == court.y_min);
    assert(down.step_x == target.x - point.0 && down.step_y == court.y_min - target.y);
    // the second turn makes what is left of the step
    let landed = down.body(frame);
    lemma_step_between_sides(landed, ball.vx, ball.vy, court, down.step_x, down.step_y);
    lemma_step_between_floor_and_ceiling(landed, ball.vx, ball.vy, court, down.step_x, down.step_y);
    assert(down.winner(frame) == unhindered(landed, down.step_x, down.step_y));
    down.lemma_resolve_unfolds(frame, IDLE_ROUNDS as nat);
    down.lemma_resolve_unfolds(frame, (IDLE_ROUNDS - 1) as nat);
}

/// With paddles in play, a list of walls is the side of the field and a side
/// of each paddle, and the move that it leaves is the move that the three
/// leave one after the other.
proof fn lemma_candidate_with_paddles(
    body: Body,
    heading: Heading,
    vx: int,
    vy: int,
    left: PaddleModel,
    right: PaddleModel,
    court: Court,
    step_x: int,
    step_y: int,
)
    ensures
        candidate(
            body,
            heading,
            heading.id(),
            wall_list(heading, vx, vy, Some((left, right)), court),
            step_x,
            step_y,
        ) == against(
            body,
            heading,
            heading.id(),
            2,
            paddle_edge(heading, right),
            against(
                body,
                heading,
                heading.id(),
                1,
                paddle_edge(heading, left),
                against(
                    body,
                    heading,
                    heading.id(),
                    0,
                    boundary(heading, vx, vy, court),
                    unhindered(body, step_x, step_y),
                ),
            ),
        ),
        wall_set(vx, vy, Some((left, right)), court)[heading.id()] == wall_list(
            heading,
            vx,
            vy,
            Some((left, right)),
            court,
        ),
{
    reveal_with_fuel(probe, 4);
    let walls = wall_list(heading, vx, vy, Some((left, right)), court);
    assert(walls.len() == 3);
    assert(walls[0] == boundary(heading, vx, vy, court));
    assert(walls[1] == paddle_edge(heading, left));
    assert(walls[2] == paddle_edge(heading, right));
}

/// A wall that neither leading corner reaches on its way to `target` leaves
/// the move as it is.
proof fn lemma_wall_out_of_reach(
    body: Body,
    heading: Heading,
    index: int,
    wall: Segment,
    target: Candidate,
)
    requires
        out_of_reach(body, heading, wall, target.x - body.x, target.y - body.y),
    ensures
        against(body, heading, heading.id(), index, wall, target) == target,
{
    let first = path(body, heading.first_corner(body), target);
    let second = path(body, heading.second_corner(body), target);
    if (wall.x1 == wall.x2 && target.x == body.x) || (wall.y1 == wall.y2 && target.y == body.y) {
        // the ways run along the wall
        assert(first.determinant(wall) == 0) by (nonlinear_arith)
            requires
                first.determinant(wall) == (first.y1 - first.y2) * (wall.x2 - wall.x1) - (wall.y1
                    - wall.y2) * (first.x2 - first.x1),
                (wall.x1 == wall.x2 && first.x1 == first.x2) || (wall.y1 == wall.y2 && first.y1
                    == first.y2),
        ;
        assert(second.determinant(wall) == 0) by (nonlinear_arith)
            requires
                second.determinant(wall) == (second.y1 - second.y2) * (wall.x2 - wall.x1) - (
                wall.y1 - wall.y2) * (second.x2 - second.x1),
                (wall.x1 == wall.x2 && second.x1 == second.x2) || (wall.y1 == wall.y2 && second.y1
                    == second.y2),
        ;
    } else {
        lemma_misses_wall_out_of_reach(first, wall);
        lemma_misses_wall_out_of_reach(second, wall);
    }
}

/// Whether no level side of the field or of a paddle is in the way of the
/// ball on the step of a frame: neither the floor or a paddle's upper side in
/// the way of its lower side, if it does not go up, nor the ceiling or a
/// paddle's lower side in the way of its upper side, if it goes up.
pub open spec fn no_level_wall_in_the_way(
    ball: BallModel,
    left: PaddleModel,
    right: PaddleModel,
    court: Court,
) -> bool {
    let top = ball.rect.y as int;
    let bottom = ball.rect.y + ball.rect.height;
    if ball.vy >= 0 {
        &&& !between(bottom, court.y_max, bottom + ball.vy)
        &&& !between(bottom, left.rect.y as int, bottom + ball.vy)
        &&& !between(bottom, right.rect.y as int, bottom + ball.vy)
    } else {
        &&& !between(top, court.y_min, top + ball.vy)
        &&& !between(top, left.rect.y + left.rect.height, top + ball.vy)
        &&& !between(top, right.rect.y + right.rect.height, top + ball.vy)
    }
}

/// Whether the ball strikes the right paddle from the left and nothing else:
/// on the step of a frame its right side would cross the paddle's left side,
/// which is long enough for the way of the ball's upper right corner; it
/// reaches neither the right side of the field, nor the left paddle, nor a
/// level wall; and on the way back, with what is left of the step, it does
/// not reach the left side of the field or the right side of the left
/// paddle.
pub open spec fn strikes_right_paddle(
    ball: BallModel,
    left: PaddleModel,
    right: PaddleModel,
    court: Court,
) -> bool {
    let front = ball.rect.x + ball.rect.width;
    let back = 2 * (right.rect.x - ball.rect.width) - (ball.rect.x + ball.vx);
    &&& ball.vx > 0
    &&& front <= right.rect.x < front + ball.vx
    &&& right.rect.y <= ball.rect.y + lower(0, ball.vy)
    &&& ball.rect.y + upper(0, ball.vy) <= right.rect.y + right.rect.height
    &&& front + ball.vx < court.x_max
    &&& !between(front, left.rect.x as int, front + ball.vx)
    &&& no_level_wall_in_the_way(ball, left, right, court)
    &&& court.x_min < back
    &&& !between(right.rect.x - ball.rect.width, left.rect.x + left.rect.width, back)
}

/// Whether a wall is out of reach of both leading corners of a body on a
/// step: an upright wall whose abscissa they do not reach or along which
/// they move, or a level wall whose ordinate they do not reach or along
/// which they move.
pub open spec fn out_of_reach(
    body: Body,
    heading: Heading,
    wall: Segment,
    step_x: int,
    step_y: int,
) -> bool {
    let first = heading.first_corner(body);
    let second = heading.second_corner(body);
    ||| wall.x1 == wall.x2 && step_x == 0
    ||| wall.y1 == wall.y2 && step_y == 0
    ||| wall.x1 == wall.x2 && !between(body.x + first.0, wall.x1, body.x + step_x + first.0)
        && !between(body.x + second.0, wall.x1, body.x + step_x + second.0)
    ||| wall.y1 == wall.y2 && !between(body.y + first.1, wall.y1, body.y + step_y + first.1)
        && !between(body.y + second.1, wall.y1, body.y + step_y + second.1)
}

/// Whether every wall of a list, with paddles in play, is out of reach of a
/// body on a step.
pub open spec fn list_out_of_reach(
    body: Body,
    heading: Heading,
    vx: int,
    vy: int,
    left: PaddleModel,
    right: PaddleModel,
    court: Court,
    step_x: int,
    step_y: int,
) -> bool {
    &&& out_of_reach(body, heading, boundary(heading, vx, vy, court), step_x, step_y)
    &&& out_of_reach(body, heading, paddle_edge(heading, left), step_x, step_y)
    &&& out_of_reach(body, heading, paddle_edge(heading, right), step_x, step_y)
}

/// A list of walls that are all out of reach leaves the whole step.
proof fn lemma_list_out_of_reach(
    body: Body,
    heading: Heading,
    vx: int,
    vy: int,
    left: PaddleModel,
    right: PaddleModel,
    court: Court,
    step_x: int,
    step_y: int,
)
    requires
        list_out_of_reach(body, heading, vx, vy, left, right, court, step_x, step_y),
    ensures
        candidate(
            body,
            heading,
            heading.id(),
            wall_set(vx, vy, Some((left, right)), court)[heading.id()],
            step_x,
            step_y,
        ) == unhindered(body, step_x, step_y),
{
    let target = unhindered(body, step_x, step_y);
    lemma_candidate_with_paddles(body, heading, vx, vy, left, right, court, step_x, step_y);
    lemma_wall_out_of_reach(body, heading, 0, boundary(heading, vx, vy, court), target);
    lemma_wall_out_of_reach(body, heading, 1, paddle_edge(heading, left), target);
    lemma_wall_out_of_reach(body, heading, 2, paddle_edge(heading, right), target);
}

/// The heading on the x axis of a step.
pub open spec fn heading_x(step_x: int) -> Heading {
    if step_x >= 0 {
        Heading::Right
    } else {
        Heading::Left
    }
}

/// The heading on the y axis of a step.
pub open spec fn heading_y(step_y: int) -> Heading {
    if step_y >= 0 {
        Heading::Down
    } else {
        Heading::Up
    }
}

/// With paddles in play, a ball that reaches no wall on a step makes the
/// whole step.
proof fn lemma_free_step_with_paddles(
    body: Body,
    vx: int,
    vy: int,
    left: PaddleModel,
    right: PaddleModel,
    court: Court,
    step_x: int,
    step_y: int,
)
    requires
        list_out_of_reach(body, heading_x(step_x), vx, vy, left, right, court, step_x, step_y),
        list_out_of_reach(body, heading_y(step_y), vx, vy, left, right, court, step_x, step_y),
    ensures
        winning(body, wall_set(vx, vy, Some((left, right)), court), step_x, step_y) == unhindered(
            body,
            step_x,
            step_y,
        ),
{
    lemma_list_out_of_reach(body, heading_x(step_x), vx, vy, left, right, court, step_x, step_y);
    lemma_list_out_of_reach(body, heading_y(step_y), vx, vy, left, right, court, step_x, step_y);
}

/// The first move of a ball that strikes the right paddle from the left and
/// nothing else: it ends with the ball's right side on the paddle's left
/// side, at a height `y` between where the step begins and where it ends.
proof fn lemma_strike_first_move(
    ball: BallModel,
    left: PaddleModel,
    right: PaddleModel,
    court: Court,
) -> (y: int)
    requires
        ball.wf(),
        left.wf(),
        right.wf(),
        strikes_right_paddle(ball, left, right, court),
    ensures
        between(ball.rect.y as int, y, ball.rect.y + ball.vy),
        winning(
            ball.body(),
            wall_set(ball.vx, ball.vy, Some((left, right)), court),
            ball.vx,
            ball.vy,
        ) == (Candidate {
            x: right.rect.x - ball.rect.width,
            y,
            step_x: right.rect.x - ball.rect.width - (ball.rect.x + ball.vx),
            step_y: ball.rect.y + ball.vy - y,
            indexes: Some((0int, 2int)),
        }),
{
    let body = ball.body();
    let target = unhindered(body, ball.vx, ball.vy);
    lemma_list_out_of_reach(
        body,
        heading_y(ball.vy),
        ball.vx,
        ball.vy,
        left,
        right,
        court,
        ball.vx,
        ball.vy,
    );
    lemma_candidate_with_paddles(
        body,
        Heading::Right,
        ball.vx,
        ball.vy,
        left,
        right,
        court,
        ball.vx,
        ball.vy,
    );
    lemma_wall_out_of_reach(
        body,
        Heading::Right,
        0,
        boundary(Heading::Right, ball.vx, ball.vy, court),
        target,
    );
    lemma_wall_out_of_reach(body, Heading::Right, 1, paddle_edge(Heading::Right, left), target);
    let side = paddle_edge(Heading::Right, right);
    let way = path(body, Heading::Right.first_corner(body), target);
    lemma_meets_upright_wall(way, side);
    let point = way.meet(side)->0;
    point.1
}

/// The strike on the right paddle: a ball that strikes the right paddle from
/// the left, and nothing else, goes back from the paddle by as much as it
/// would have gone past it. It has made its whole step along the y axis. It
/// flies to the left at its horizontal speed of play, nobody scores, and the
/// place of the hit waits for the spin: the ball touched the paddle at a
/// height between where its step began and where it ended.
pub proof fn lemma_strike_on_the_right_paddle(
    ball: BallModel,
    left: PaddleModel,
    right: PaddleModel,
    court: Court,
)
    requires
        ball.wf(),
        ball.can_travel(),
        left.wf(),
        right.wf(),
        strikes_right_paddle(ball, left, right, court),
    ensures
        ({
            let end = ball.after_frame(Some((left, right)), court);
            &&& end.1 is None
            &&& end.0.rect.x == 2 * (right.rect.x - ball.rect.width) - (ball.rect.x + ball.vx)
            &&& end.0.rect.y == ball.rect.y + ball.vy
            &&& end.0.vx == -ball.vx_default
            &&& end.0.vy == ball.vy
            &&& exists|y: int|
                between(ball.rect.y as int, y, ball.rect.y + ball.vy) && end.0.hit == Some(
                    #[trigger] contact(
                        paddle_edge(Heading::Right, right),
                        ball.rect.height as int,
                        y,
                    ),
                )
        }),
{
    let frame = ball.frame(Some((left, right)), court);
    let m = ball.start();
    assert(m.body(frame) == ball.body());
    let y = lemma_strike_first_move(ball, left, right, court);
    lemma_candidate_with_paddles(
        ball.body(),
        Heading::Right,
        ball.vx,
        ball.vy,
        left,
        right,
        court,
        ball.vx,
        ball.vy,
    );
    m.lemma_resolve_unfolds(frame, IDLE_ROUNDS as nat);
    let back = m.turn(frame)->On_0;
    assert(back.hit == Some(
        contact(paddle_edge(Heading::Right, right), ball.rect.height as int, y),
    ));
    lemma_level_wall_off_the_way_back(ball, court.y_max, court.y_min, y);
    lemma_level_wall_off_the_way_back(
        ball,
        left.rect.y as int,
        left.rect.y + left.rect.height,
        y,
    );
    lemma_level_wall_off_the_way_back(
        ball,
        right.rect.y as int,
        right.rect.y + right.rect.height,
        y,
    );
    lemma_free_step_with_paddles(
        back.body(frame),
        ball.vx,
        ball.vy,
        left,
        right,
        court,
        back.step_x,
        back.step_y,
    );
    back.lemma_resolve_unfolds(frame, IDLE_ROUNDS as nat);
    back.lemma_resolve_unfolds(frame, (IDLE_ROUNDS - 1) as nat);
}

/// Whether the ball strikes the left paddle from the right and nothing else:
/// on the step of a frame its left side would cross the paddle's right side,
/// which is long enough for the way of the ball's upper left corner; it
/// reaches neither the left side of the field, nor the right paddle, nor a
/// level wall; and on the way back, with what is left of the step, it does
/// not reach the right side of the field or the left side of a paddle.
pub open spec fn strikes_left_paddle(
    ball: BallModel,
    left: PaddleModel,
    right: PaddleModel,
    court: Court,
) -> bool {
    let side = left.rect.x + left.rect.width;
    let back = 2 * side - (ball.rect.x + ball.vx);
    &&& ball.vx < 0
    &&& ball.rect.x + ball.vx < side <= ball.rect.x
    &&& left.rect.y <= ball.rect.y + lower(0, ball.vy)
    &&& ball.rect.y + upper(0, ball.vy) <= left.rect.y + left.rect.height
    &&& court.x_min < ball.rect.x + ball.vx
    &&& !between(ball.rect.x as int, right.rect.x + right.rect.width, side)
    &&& no_level_wall_in_the_way(ball, left, right, court)
    &&& back + ball.rect.width < court.x_max
    &&& !between(side + ball.rect.width, left.rect.x as int, back + ball.rect.width)
    &&& !between(side + ball.rect.width, right.rect.x as int, back + ball.rect.width)
}

/// The first move of a ball that strikes the left paddle from the right and
/// nothing else: it ends with the ball's left side on the paddle's right
/// side, at a height `y` between where the step begins and where it ends.
proof fn lemma_strike_first_move_left(
    ball: BallModel,
    left: PaddleModel,
    right: PaddleModel,
    court: Court,
) -> (y: int)
    requires
        ball.wf(),
        left.wf(),
        right.wf(),
        strikes_left_paddle(ball, left, right, court),
    ensures
        between(ball.rect.y as int, y, ball.rect.y + ball.vy),
        winning(
            ball.body(),
            wall_set(ball.vx, ball.vy, Some((left, right)), court),
            ball.vx,
            ball.vy,
        ) == (Candidate {
            x: left.rect.x + left.rect.width,
            y,
            step_x: left.rect.x + left.rect.width - (ball.rect.x + ball.vx),
            step_y: ball.rect.y + ball.vy - y,
            indexes: Some((1int, 1int)),
        }),
{
    let body = ball.body();
    let target = unhindered(body, ball.vx, ball.vy);
    lemma_list_out_of_reach(
        body,
        heading_y(ball.vy),
        ball.vx,
        ball.vy,
        left,
        right,
        court,
        ball.vx,
        ball.vy,
    );
    lemma_candidate_with_paddles(
        body,
        Heading::Left,
        ball.vx,
        ball.vy,
        left,
        right,
        court,
        ball.vx,
        ball.vy,
    );
    lemma_wall_out_of_reach(
        body,
        Heading::Left,
        0,
        boundary(Heading::Left, ball.vx, ball.vy, court),
        target,
    );
    let side = paddle_edge(Heading::Left, left);
    let way = path(body, Heading::Left.first_corner(body), target);
    lemma_meets_upright_wall(way, side);
    let point = way.meet(side)->0;
    let struck = stopped(Heading::Left, 1, 1, Heading::Left.first_corner(body), point, target);
    lemma_wall_out_of_reach(body, Heading::Left, 2, paddle_edge(Heading::Left, right), struck);
    point.1
}

/// The strike on the left paddle: a ball that strikes the left paddle from
/// the right, and nothing else, goes back from the paddle by as much as it
/// would have gone past it. It has made its whole step along the y axis. It
/// flies to the right at its horizontal speed of play, nobody scores, and the
/// place of the hit waits for the spin: the ball touched the paddle at a
/// height between where its step began and where it ended.
pub proof fn lemma_strike_on_the_left_paddle(
    ball: BallModel,
    left: PaddleModel,
    right: PaddleModel,
    court: Court,
)
    requires
        ball.wf(),
        ball.can_travel(),
        left.wf(),
        right.wf(),
        strikes_left_paddle(ball, left, right, court),
    ensures
        ({
            let end = ball.after_frame(Some((left, right)), court);
            &&& end.1 is None
            &&& end.0.rect.x == 2 * (left.rect.x + left.rect.width) - (ball.rect.x + ball.vx)
            &&& end.0.rect.y == ball.rect.y + ball.vy
            &&& end.0.vx == ball.vx_default
            &&& end.0.vy == ball.vy
            &&& exists|y: int|
                between(ball.rect.y as int, y, ball.rect.y + ball.vy) && end.0.hit == Some(
                    #[trigger] contact(
                        paddle_edge(Heading::Left, left),
                        ball.rect.height as int,
                        y,
                    ),
                )
        }),
{
    let frame = ball.frame(Some((left, right)), court);
    let m = ball.start();
    assert(m.body(frame) == ball.body());
    let y = lemma_strike_first_move_left(ball, left, right, court);
    lemma_candidate_with_paddles(
        ball.body(),
        Heading::Left,
        ball.vx,
        ball.vy,
        left,
        right,
        court,
        ball.vx,
        ball.vy,
    );
    m.lemma_resolve_unfolds(frame, IDLE_ROUNDS as nat);
    let back = m.turn(frame)->On_0;
    assert(back.hit == Some(
        contact(paddle_edge(Heading::Left, left), ball.rect.height as int, y),
    ));
    lemma_level_wall_off_the_way_back(ball, court.y_max, court.y_min, y);
    lemma_level_wall_off_the_way_back(
        ball,
        left.rect.y as int,
        left.rect.y + left.rect.height,
        y,
    );
    lemma_level_wall_off_the_way_back(
        ball,
        right.rect.y as int,
        right.rect.y + right.rect.height,
        y,
    );
    lemma_free_step_with_paddles(
        back.body(frame),
        ball.vx,
        ball.vy,
        left,
        right,
        court,
        back.step_x,
        back.step_y,
    );
    back.lemma_resolve_unfolds(frame, IDLE_ROUNDS as nat);
    back.lemma_resolve_unfolds(frame, (IDLE_ROUNDS - 1) as nat);
}

/// A level wall that is not in the way of the ball on its whole step is not
/// in its way on the last part of the step either, from a height `y` that
/// the ball has on the way: neither a wall at `lower_side_wall` that would
/// stop the ball's lower side, nor one at `upper_side_wall` that would stop
/// its upper side.
proof fn lemma_level_wall_off_the_way_back(
    ball: BallModel,
    lower_side_wall: int,
    upper_side_wall: int,
    y: int,
)
    requires
        between(ball.rect.y as int, y, ball.rect.y + ball.vy),
        ball.vy >= 0 ==> !between(
            ball.rect.y + ball.rect.height,
            lower_side_wall,
            ball.rect.y + ball.rect.height + ball.vy,
        ),
        ball.vy < 0 ==> !between(ball.rect.y as int, upper_side_wall, ball.rect.y + ball.vy),
    ensures
        ball.vy >= 0 ==> !between(
            y + ball.rect.height,
            lower_side_wall,
            ball.rect.y + ball.rect.height + ball.vy,
        ),
        ball.vy < 0 ==> !between(y, upper_side_wall, ball.rect.y + ball.vy),
{
}

/// What is known of a frame from where it begins: whether the ball `after`
/// and the side `goal` are as the flights that are worked out above say, for
/// a frame that began with the ball `before`.
///
/// With no paddles, a ball inside the field stays inside, and in a field that
/// is higher than the ball it makes its whole step along the x axis or ends
/// in the goal; one that flies free makes its whole step; one that flies into
/// a goal is stopped on the side of the field, and the other team scores; one
/// that bounces off the floor or the ceiling ends mirrored at it.
/// With paddles, a ball that strikes the side of a paddle, and nothing else,
/// goes back from it by as much as it would have gone past it, and the place
/// of the hit waits for the spin.
pub open spec fn known_flights(
    before: BallModel,
    paddles: Option<(PaddleModel, PaddleModel)>,
    court: Court,
    after: BallModel,
    goal: Option<TeamName>,
) -> bool {
    let x = before.rect.x as int;
    let y = before.rect.y as int;
    let width = before.rect.width as int;
    let height = before.rect.height as int;
    &&& paddles is None && flies_free(before, court) ==> {
        &&& goal is None
        &&& after.rect.x == x + before.vx
        &&& after.rect.y == y + before.vy
        &&& after.vx == before.vx
        &&& after.vy == before.vy
    }
    &&& paddles is None && flies_into_right_goal(before, court) ==> {
        &&& goal == Some(TeamName::Left)
        &&& after.rect.x + width == court.x_max
        &&& between(y, after.rect.y as int, y + before.vy)
        &&& after.vx == -before.vx_default
        &&& after.vy == before.vy
    }
    &&& paddles is None && flies_into_left_goal(before, court) ==> {
        &&& goal == Some(TeamName::Right)
        &&& after.rect.x == court.x_min
        &&& between(y, after.rect.y as int, y + before.vy)
        &&& after.vx == before.vx_default
        &&& after.vy == before.vy
    }
    &&& paddles is None && bounces_off_floor(before, court) ==> {
        &&& goal is None
        &&& after.rect.x == x + before.vx
        &&& after.rect.y == 2 * (court.y_max - height) - (y + before.vy)
        &&& after.vx == before.vx
        &&& after.vy == -before.vy
    }
    &&& paddles is None && bounces_off_ceiling(before, court) ==> {
        &&& goal is None
        &&& after.rect.x == x + before.vx
        &&& after.rect.y == 2 * court.y_min - (y + before.vy)
        &&& after.vx == before.vx
        &&& after.vy == -before.vy
    }
    &&& match paddles {
        Some((left, right)) => {
            &&& strikes_right_paddle(before, left, right, court) ==> {
                &&& goal is None
                &&& after.rect.x == 2 * (right.rect.x - width) - (x + before.vx)
                &&& after.rect.y == y + before.vy
                &&& after.vx == -before.vx_default
                &&& after.vy == before.vy
                &&& after.hit is Some
            }
            &&& strikes_left_paddle(before, left, right, court) ==> {
                &&& goal is None
                &&& after.rect.x == 2 * (left.rect.x + left.rect.width) - (x + before.vx)
                &&& after.rect.y == y + before.vy
                &&& after.vx == before.vx_default
                &&& after.vy == before.vy
                &&& after.hit is Some
            }
        },
        None => {
            &&& after.hit is None
            &&& inside(before, court) ==> inside(after, court)
            &&& crate::arena::flies_across(before, court) ==> crate::arena::crossed_or_scored_ball(
                before,
                court,
                after,
                goal,
            )
        },
    }
}

/// A frame is as the flights that are worked out above say.
pub proof fn lemma_known_flights(
    ball: BallModel,
    paddles: Option<(PaddleModel, PaddleModel)>,
    court: Court,
)
    requires
        ball.wf(),
        ball.can_travel(),
        paddles matches Some(pair) ==> pair.0.wf() && pair.1.wf(),
        crate::ball::fits(court.x_min) && crate::ball::fits(court.x_max),
        crate::ball::fits(court.y_min) && crate::ball::fits(court.y_max),
    ensures
        known_flights(
            ball,
            paddles,
            court,
            ball.after_frame(paddles, court).0,
            ball.after_frame(paddles, court).1,
        ),
{
    match paddles {
        None => {
            if flies_free(ball, court) {
                lemma_free_flight(ball, court);
            }
            if flies_into_right_goal(ball, court) {
                lemma_goal_on_the_right(ball, court);
            }
            if flies_into_left_goal(ball, court) {
                lemma_goal_on_the_left(ball, court);
            }
            if bounces_off_floor(ball, court) {
                lemma_bounce_off_the_floor(ball, court);
            }
            if bounces_off_ceiling(ball, court) {
                lemma_bounce_off_the_ceiling(ball, court);
            }
            lemma_no_paddle_no_hit(ball.start(), ball.frame(None, court), IDLE_ROUNDS as nat);
            if inside(ball, court) {
                crate::arena::lemma_ball_stays_in_field(ball, court);
            }
            if crate::arena::flies_across(ball, court) {
                crate::arena::lemma_frame_across_the_field(ball, court);
            }
        },
        Some(pair) => {
            if strikes_right_paddle(ball, pair.0, pair.1, court) {
                lemma_strike_on_the_right_paddle(ball, pair.0, pair.1, court);
            }
            if strikes_left_paddle(ball, pair.0, pair.1, court) {
                lemma_strike_on_the_left_paddle(ball, pair.0, pair.1, court);
            }
        },
    }
}

/// Where each list holds one wall, the side of the field, no paddle is hit:
/// a frame that begins with no hit waiting ends with none.
pub proof fn lemma_no_paddle_no_hit(m: Motion, frame: Frame, idle: nat)
    requires
        m.hit is None,
        forall|id: int| 0 <= id < 4 ==> (#[trigger] frame.walls[id]).len() == 1,
    ensures
        m.resolve(frame, idle).0.hit is None,
    decreases m.remaining(), idle,
{
    crate::frame::lemma_winning_within_reach(m.body(frame), frame.walls, m.step_x, m.step_y);
    m.lemma_resolve_unfolds(frame, idle);
    match m.turn(frame) {
        Turn::Over(_, _) => {},
        Turn::On(next) => {
            if next.remaining() < m.remaining() {
                lemma_no_paddle_no_hit(next, frame, IDLE_ROUNDS as nat);
            } else if idle > 0 {
                lemma_no_paddle_no_hit(next, frame, (idle - 1) as nat);
            }
        },
    }
}

/// Whether a motion is on the course of the frame that the ball `start`
/// began: on each axis the way made and the step left are together no longer
/// than the first step, the horizontal speed is the first one or the speed of
/// play, to the right or left, and the vertical speed is the first one, up or
/// down.
pub open spec fn on_course(start: BallModel, m: Motion) -> bool {
    &&& magnitude(m.x - start.rect.x) + magnitude(m.step_x) <= magnitude(start.vx)
    &&& magnitude(m.y - start.rect.y) + magnitude(m.step_y) <= magnitude(start.vy)
    &&& m.vx == start.vx || m.vx == start.vx_default || m.vx == -start.vx_default
    &&& m.vy == start.vy || m.vy == -start.vy
}

/// Whether the ball `after` is within a step of the ball `before`: on each
/// axis it is no further from it than the speed of `before`. Its horizontal
/// speed is that of `before` or the speed of play, to the right or left, and
/// its vertical speed is that of `before`, up or down. Nothing else but a
/// paddle hit tells them apart.
pub open spec fn within_a_step(before: BallModel, after: BallModel) -> bool {
    &&& magnitude(after.rect.x - before.rect.x) <= magnitude(before.vx)
    &&& magnitude(after.rect.y - before.rect.y) <= magnitude(before.vy)
    &&& after.vx == before.vx || after.vx == before.vx_default || after.vx == -before.vx_default
    &&& after.vy == before.vy || after.vy == -before.vy
    &&& after == (BallModel {
        rect: Rect { x: after.rect.x, y: after.rect.y, ..before.rect },
        vx: after.vx,
        vy: after.vy,
        hit: after.hit,
        ..before
    })
}

/// A frame that is on its course ends within a step of where it began.
pub proof fn lemma_resolve_within_a_step(start: BallModel, m: Motion, frame: Frame, idle: nat)
    requires
        start.wf(),
        frame.speed_x == start.vx_default,
        frame.width == start.rect.width,
        frame.height == start.rect.height,
        on_course(start, m),
    ensures
        ({
            let end = m.resolve(frame, idle).0;
            &&& magnitude(end.x - start.rect.x) <= magnitude(start.vx)
            &&& magnitude(end.y - start.rect.y) <= magnitude(start.vy)
            &&& end.vx == start.vx || end.vx == start.vx_default || end.vx == -start.vx_default
            &&& end.vy == start.vy || end.vy == -start.vy
        }),
    decreases m.remaining(), idle,
{
    crate::frame::lemma_winning_within_reach(m.body(frame), frame.walls, m.step_x, m.step_y);
    lemma_bounce_turns_back(m, frame);
    m.lemma_resolve_unfolds(frame, idle);
    match m.turn(frame) {
        Turn::Over(_, _) => {},
        Turn::On(next) => {
            if next.remaining() < m.remaining() {
                lemma_resolve_within_a_step(start, next, frame, IDLE_ROUNDS as nat);
            } else if idle > 0 {
                lemma_resolve_within_a_step(start, next, frame, (idle - 1) as nat);
            }
        },
    }
}

/// No frame carries the ball further than its speed, on either axis. A frame
/// leaves the ball its horizontal speed or gives it the speed of play, to the
/// right or left, and leaves it its vertical speed, up or down.
pub proof fn lemma_frame_within_a_step(
    ball: BallModel,
    paddles: Option<(PaddleModel, PaddleModel)>,
    court: Court,
)
    requires
        ball.wf(),
        ball.can_travel(),
    ensures
        within_a_step(ball, ball.after_frame(paddles, court).0),
{
    lemma_resolve_within_a_step(
        ball,
        ball.start(),
        ball.frame(paddles, court),
        IDLE_ROUNDS as nat,
    );
}

} // verus!
