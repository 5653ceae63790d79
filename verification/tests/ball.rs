use pong::ball::{direction, speed, turned, Ball, PaddleHit};
use pong::paddle::Paddle;
use pong::rect::Rect;
use pong::team::TeamName;

fn paddles() -> (Paddle, Paddle) {
    (Paddle::new(70, 315, 20, 90, 11), Paddle::new(1190, 315, 20, 90, 11))
}

/// A ball of side 14 at `(x, y)` with the speed `(vx, vy)` and the speeds of
/// play `(12, |vy|)`.
fn ball(x: i32, y: i32, vx: i32, vy: i32) -> Ball {
    let b = Ball::new(x, y, 14, 12, vy, vx, true, 1000);
    assert_eq!((b.x(), b.y(), b.vx(), b.vy()), (x, y, vx, vy));
    b
}

#[test]
fn new_ball_is_served_as_the_draw_says() {
    let b = Ball::new(633, 353, 14, 12, 12, 8, true, 500);
    assert_eq!((b.x(), b.y(), b.width(), b.height()), (633, 353, 14, 14));
    assert_eq!((b.vx(), b.vy()), (8, 6));
    assert_eq!((b.vx_default(), b.vy_default(), b.vx_serve()), (12, 12, 8));
    assert_eq!(b.rect(), Rect { x: 633, y: 353, width: 14, height: 14 });
    assert_eq!(b.rect_default(), b.rect());
    assert_eq!(b.paddle_hit(), None);
    let b = Ball::new(633, 353, 14, 12, 12, 8, false, -333);
    assert_eq!((b.vx(), b.vy()), (-8, -3));
    // speeds of play given as negative numbers: their magnitudes are kept,
    // and the draw goes by their direction
    let b = Ball::new(0, 0, 14, -12, -12, 8, true, 1000);
    assert_eq!((b.vx(), b.vy()), (-8, -12));
    assert_eq!((b.vx_default(), b.vy_default()), (12, 12));
    let b = Ball::new(0, 0, 14, -12, -12, 8, false, -1);
    assert_eq!((b.vx(), b.vy()), (8, 0));
}

#[test]
fn served_speed_is_rounded_toward_zero() {
    assert_eq!(Ball::new(0, 0, 14, 12, 12, 8, true, 999).vy(), 11);
    assert_eq!(Ball::new(0, 0, 14, 12, 12, 8, true, -999).vy(), -11);
    assert_eq!(Ball::new(0, 0, 14, 12, 12, 8, true, 83).vy(), 0);
    assert_eq!(Ball::new(0, 0, 14, 12, 12, 8, true, 84).vy(), 1);
    assert_eq!(Ball::new(0, 0, 14, 12, 12, 8, true, -84).vy(), -1);
    assert_eq!(Ball::new(0, 0, 14, 12, i32::MAX, 8, true, 1000).vy(), i32::MAX);
    assert_eq!(Ball::new(0, 0, 14, 12, i32::MAX, 8, true, -1000).vy(), -i32::MAX);
    assert_eq!(Ball::new(0, 0, 14, 12, i32::MAX, 8, true, 1).vy(), 2147483);
}

#[test]
fn new_ball_has_the_shape_of_a_rectangle() {
    let b = Ball::new(i32::MAX, i32::MIN, 0, 12, 12, 8, true, 0);
    assert_eq!((b.x(), b.y(), b.width(), b.height()), (1073741823, -1073741824, 1, 1));
}

#[test]
fn random_serve_is_within_the_speeds() {
    for _ in 0..200 {
        let b = Ball::new_rng(633, 353, 14, 12, 10, 8);
        assert!(b.vx() == 8 || b.vx() == -8);
        assert!(-10 <= b.vy() && b.vy() <= 10);
        assert_eq!((b.x(), b.y(), b.width(), b.height()), (633, 353, 14, 14));
        assert_eq!((b.vx_default(), b.vy_default(), b.vx_serve()), (12, 10, 8));
    }
}

#[test]
fn random_serve_goes_both_ways() {
    let mut right = false;
    let mut left = false;
    let mut up = false;
    let mut down = false;
    for _ in 0..2000 {
        let b = Ball::new_rng(633, 353, 14, 12, 1000, 8);
        right = right || b.vx() > 0;
        left = left || b.vx() < 0;
        down = down || b.vy() > 0;
        up = up || b.vy() < 0;
    }
    assert!(right && left && up && down);
}

#[test]
fn after_goal_serves_toward_the_side_that_scored() {
    let mut b = Ball::new(1266, 300, 14, 12, 5, 12, false, 1000);
    assert_eq!((b.vx(), b.vy()), (-12, 5));
    b.after_goal(633, 353, TeamName::Left, -500);
    assert_eq!((b.x(), b.y(), b.vx(), b.vy()), (633, 353, -12, -2));
    b.after_goal(633, 353, TeamName::Right, 1000);
    assert_eq!((b.x(), b.y(), b.vx(), b.vy()), (633, 353, 12, 5));
    assert_eq!((b.vx_default(), b.vy_default()), (12, 5));
    assert_eq!((b.width(), b.height()), (14, 14));
    b.after_goal(i32::MAX, 0, TeamName::Right, 0);
    assert_eq!((b.x(), b.vy()), (1073741823, 0));
}

#[test]
fn after_goal_random_serve_is_within_the_speeds() {
    let mut b = Ball::new(0, 0, 14, 12, 10, 8, true, 0);
    for _ in 0..200 {
        b.after_goal_rng(633, 353, TeamName::Left);
        assert_eq!((b.x(), b.y(), b.vx()), (633, 353, -8));
        assert!(-10 <= b.vy() && b.vy() <= 10);
        b.after_goal_rng(633, 353, TeamName::Right);
        assert_eq!(b.vx(), 8);
        assert!(-10 <= b.vy() && b.vy() <= 10);
    }
}

#[test]
fn ball_moves_up_and_down_between_the_sides() {
    let mut b = ball(100, 100, 0, 0);
    b.move_up(30, 0);
    assert_eq!(b.y(), 70);
    b.move_up(70, 0);
    assert_eq!(b.y(), 0);
    b.move_up(1, 0);
    assert_eq!(b.y(), 0);
    b.move_up(u32::MAX, -5);
    assert_eq!(b.y(), -5);
    b.move_down(100, 720);
    assert_eq!(b.y(), 95);
    b.move_down(611, 720);
    assert_eq!(b.y(), 706);
    b.move_down(1, 720);
    assert_eq!(b.y(), 706);
    b.move_down(u32::MAX, 720);
    assert_eq!(b.y(), 706);
    assert_eq!(b.x(), 100);
}

#[test]
fn ball_reaches_the_right_goal() {
    let mut ball = Ball::new(500, 100, 17, 20, 0, 20, true, 0);
    assert_eq!(ball.vx(), 20);
    assert_eq!(ball.vy(), 0);
    let mut goal = None;
    let mut ticks = 0;
    while goal.is_none() {
        goal = ball.change_position(None, 0, 1280, 0, 720);
        ticks += 1;
        assert!(ticks <= 39);
    }
    assert_eq!(ticks, 39);
    assert_eq!(goal, Some(TeamName::Left));
    assert_eq!(ball.x() + ball.width(), 1280);
    assert_eq!(ball.vx(), -ball.vx_default());
    assert_eq!(ball.vx(), -20);
}

#[test]
fn ball_reaches_the_left_goal() {
    let mut b = ball(5, 300, -12, 7);
    assert_eq!(b.change_position(None, 0, 1280, 0, 720), Some(TeamName::Right));
    assert_eq!((b.x(), b.y(), b.vx(), b.vy()), (0, 302, 12, 7));
}

#[test]
fn slow_ball_leaves_the_goal_at_the_speed_of_play() {
    // served at 8, the ball leaves the side at 12
    let mut b = Ball::new(1260, 300, 14, 12, 0, 8, true, 0);
    assert_eq!(b.vx(), 8);
    assert_eq!(b.change_position(None, 0, 1280, 0, 720), Some(TeamName::Left));
    assert_eq!((b.x(), b.vx()), (1266, -12));
}

#[test]
fn ball_in_free_flight_makes_its_step() {
    let (l, r) = paddles();
    let mut b = ball(600, 300, -8, 6);
    assert_eq!(b.change_position(Some((&l, &r)), 0, 1280, 0, 720), None);
    assert_eq!((b.x(), b.y(), b.vx(), b.vy()), (592, 306, -8, 6));
    assert_eq!(b.paddle_hit(), None);
}

#[test]
fn ball_bounces_off_floor_and_ceiling_and_keeps_its_speed() {
    let (l, r) = paddles();
    let mut b = ball(600, 700, 8, 12);
    assert_eq!(b.change_position(Some((&l, &r)), 0, 1280, 0, 720), None);
    assert_eq!((b.x(), b.y(), b.vx(), b.vy()), (608, 700, 8, -12));
    let mut b = ball(600, 3, -8, -12);
    assert_eq!(b.change_position(Some((&l, &r)), 0, 1280, 0, 720), None);
    assert_eq!((b.x(), b.y(), b.vx(), b.vy()), (592, 9, -8, 12));
    // the vertical speed is not set back to the speed of play
    let mut b = Ball::new(600, 702, 14, 12, 12, 8, true, 500);
    assert_eq!(b.vy(), 6);
    assert_eq!(b.change_position(None, 0, 1280, 0, 720), None);
    assert_eq!((b.y(), b.vy()), (704, -6));
    assert_eq!(b.vy_default(), 12);
}

#[test]
fn ball_in_the_corner_is_in_the_goal() {
    let mut b = ball(1260, 700, 12, 12);
    assert_eq!(b.change_position(None, 0, 1280, 0, 720), Some(TeamName::Left));
    assert_eq!((b.x(), b.y(), b.vx(), b.vy()), (1266, 706, -12, 12));
}

#[test]
fn ball_caught_between_floor_and_ceiling_is_frozen() {
    let mut ball = Ball::new(100, 0, 17, 0, 5, 0, true, 1000);
    assert_eq!(ball.vy(), 5);
    let goal = ball.change_position(None, 0, 1280, 0, 17);
    assert_eq!(goal, None);
    assert_eq!((ball.x(), ball.y()), (100, 0));
    assert_eq!((ball.vx(), ball.vy()), (0, 5));
    let mut ball = Ball::new(100, 0, 17, 0, 5, 0, true, -1000);
    assert_eq!(ball.vy(), -5);
    assert_eq!(ball.change_position(None, 0, 1280, 0, 17), None);
    assert_eq!((ball.x(), ball.y(), ball.vx(), ball.vy()), (100, 0, 0, -5));
}

#[test]
fn ball_caught_between_two_paddles_is_frozen() {
    let l = Paddle::new(80, 0, 20, 20, 1);
    let r = Paddle::new(120, 0, 20, 20, 1);
    let mut b = Ball::new(100, 0, 20, 5, 5, 5, true, 1000);
    assert_eq!(b.change_position(Some((&l, &r)), 0, 1280, 0, 20), None);
    assert_eq!((b.x(), b.y(), b.vx(), b.vy()), (100, 0, 5, 5));
    assert_eq!(b.paddle_hit(), Some(PaddleHit { offset: 0, half_extent: 20, rebound: 0 }));
}

#[test]
fn ball_strikes_the_right_paddle() {
    let (l, r) = paddles();
    let mut b = ball(1170, 340, 12, 3);
    assert_eq!(b.change_position(Some((&l, &r)), 0, 1280, 0, 720), None);
    assert_eq!((b.x(), b.y(), b.vx()), (1170, 343, -12));
    assert_eq!(b.paddle_hit(), Some(PaddleHit { offset: -12, half_extent: 52, rebound: 0 }));
    // until the spin is given, the vertical speed is the one before the hit
    assert_eq!(b.vy(), 3);
    b.apply_spin(-5);
    assert_eq!(b.vy(), -5);
    assert_eq!(b.paddle_hit(), None);
}

#[test]
fn ball_strikes_the_left_paddle() {
    let (l, r) = paddles();
    let mut b = ball(95, 380, -12, -5);
    assert_eq!(b.change_position(Some((&l, &r)), 0, 1280, 0, 720), None);
    assert_eq!((b.x(), b.y(), b.vx(), b.vy()), (97, 375, 12, -5));
    assert_eq!(b.paddle_hit(), Some(PaddleHit { offset: 24, half_extent: 52, rebound: 0 }));
    b.apply_spin(11);
    assert_eq!(b.vy(), 11);
}

#[test]
fn spin_takes_the_direction_of_a_later_rebound() {
    let l = Paddle::new(70, 315, 20, 90, 11);
    let r = Paddle::new(1190, 650, 20, 90, 11);
    let mut b = ball(1170, 700, 12, 12);
    assert_eq!(b.change_position(Some((&l, &r)), 0, 1280, 0, 720), None);
    assert_eq!((b.x(), b.y(), b.vx(), b.vy()), (1170, 700, -12, -12));
    assert_eq!(b.paddle_hit(), Some(PaddleHit { offset: 18, half_extent: 52, rebound: -1 }));
    b.apply_spin(7);
    assert_eq!(b.vy(), -7);
    assert_eq!(b.paddle_hit(), None);
}

#[test]
fn paddle_hit_is_forgotten_with_the_next_frame() {
    let (l, r) = paddles();
    let mut b = ball(1170, 340, 12, 3);
    assert_eq!(b.change_position(Some((&l, &r)), 0, 1280, 0, 720), None);
    assert!(b.paddle_hit().is_some());
    assert_eq!(b.change_position(Some((&l, &r)), 0, 1280, 0, 720), None);
    assert_eq!(b.paddle_hit(), None);
    assert_eq!((b.x(), b.y(), b.vx(), b.vy()), (1158, 346, -12, 3));
}

#[test]
fn paddle_hit_is_forgotten_with_a_serve() {
    let (l, r) = paddles();
    let mut b = ball(1170, 340, 12, 3);
    assert_eq!(b.change_position(Some((&l, &r)), 0, 1280, 0, 720), None);
    b.after_goal(633, 353, TeamName::Left, 0);
    assert_eq!(b.paddle_hit(), None);
}

#[test]
fn ball_lands_on_top_of_a_paddle() {
    let (l, r) = paddles();
    let mut b = ball(1195, 300, 2, 12);
    assert_eq!(b.change_position(Some((&l, &r)), 0, 1280, 0, 720), None);
    assert_eq!((b.x(), b.y(), b.vx(), b.vy()), (1197, 290, 2, -12));
    assert_eq!(b.paddle_hit(), None);
}

#[test]
fn without_paddles_the_ball_flies_through_their_place() {
    let mut b = ball(1170, 340, 12, 3);
    assert_eq!(b.change_position(None, 0, 1280, 0, 720), None);
    assert_eq!((b.x(), b.y(), b.vx(), b.vy()), (1182, 343, 12, 3));
}

#[test]
fn speed_direction_and_turned() {
    assert_eq!(speed(-7), 7);
    assert_eq!(speed(7), 7);
    assert_eq!(speed(0), 0);
    assert_eq!(speed(-i32::MAX), i32::MAX);
    assert_eq!(direction(-7), -1);
    assert_eq!(direction(0), 0);
    assert_eq!(direction(i32::MAX), 1);
    assert_eq!(turned(12, -3), -12);
    assert_eq!(turned(12, 0), 0);
    assert_eq!(turned(12, 9), 12);
}

#[test]
fn frame_moves_the_ball_no_further_than_its_speed() {
    let l = Paddle::new(70, 315, 20, 90, 11);
    let r = Paddle::new(1190, 315, 20, 90, 11);
    let mut seed: u64 = 12345;
    let mut next = |low: i32, high: i32| {
        seed = seed.wrapping_mul(6364136223846793005).wrapping_add(1442695040888963407);
        low + ((seed >> 33) % ((high - low + 1) as u64)) as i32
    };
    for round in 0..20000 {
        let (x, y) = (next(0, 1266), next(0, 706));
        let (vx, vy) = (next(-60, 60), next(-60, 60));
        let mut b = Ball::new(x, y, 14, 12, vy, vx, true, 1000);
        assert!(b.can_change_position(0, 1280, 0, 720));
        let goal = if round % 2 == 0 {
            b.change_position(Some((&l, &r)), 0, 1280, 0, 720)
        } else {
            b.change_position(None, 0, 1280, 0, 720)
        };
        assert!((b.x() - x).abs() <= vx.abs());
        assert!((b.y() - y).abs() <= vy.abs());
        assert!(b.vx() == vx || b.vx() == 12 || b.vx() == -12);
        assert!(b.vy() == vy || b.vy() == -vy);
        if round % 2 == 1 {
            assert_eq!(b.paddle_hit(), None);
            assert!(0 <= b.x() && b.x() + 14 <= 1280 && 0 <= b.y() && b.y() + 14 <= 720);
        }
        if goal == Some(TeamName::Left) {
            assert_eq!((b.x(), b.vx()), (1266, -12));
        }
        if goal == Some(TeamName::Right) {
            assert_eq!((b.x(), b.vx()), (0, 12));
        }
    }
}

#[test]
fn ball_is_mirrored_at_floor_and_ceiling() {
    for x in [100, 600, 1200] {
        for vy in 1..40 {
            for gap in 0..vy {
                // the lower side is `gap` above the floor
                let y = 706 - gap;
                let mut b = Ball::new(x, y, 14, 12, vy, 7, true, 1000);
                assert_eq!(b.change_position(None, 0, 1280, 0, 720), None);
                assert_eq!((b.x(), b.y(), b.vx(), b.vy()), (x + 7, 2 * 706 - (y + vy), 7, -vy));
                // the upper side is `gap` below the ceiling
                let mut b = Ball::new(x, gap, 14, 12, vy, -7, true, -1000);
                assert_eq!(b.change_position(None, 0, 1280, 0, 720), None);
                assert_eq!((b.x(), b.y(), b.vx(), b.vy()), (x - 7, -(gap - vy), -7, vy));
            }
        }
    }
}

#[test]
fn can_change_position_tells_when_a_step_would_not_fit() {
    let b = Ball::new(0, 0, 14, 12, 12, 12, true, 1000);
    assert!(b.can_change_position(0, 1280, 0, 720));
    assert!(b.can_change_position(i32::MIN + 12, i32::MAX - 12, i32::MIN + 12, i32::MAX - 12));
    assert!(!b.can_change_position(i32::MIN + 11, 1280, 0, 720));
    assert!(!b.can_change_position(0, i32::MAX - 11, 0, 720));
    assert!(!b.can_change_position(0, 1280, i32::MIN + 11, 720));
    assert!(!b.can_change_position(0, 1280, 0, i32::MAX - 11));
    let mut b = Ball::new(0, 0, 14, 12, 12, 12, true, 1000);
    b.move_up(0, i32::MIN);
    assert!(b.can_change_position(0, 1280, 0, 720));
    b.move_up(u32::MAX, i32::MIN + 11);
    assert!(!b.can_change_position(0, 1280, 0, 720));
    let mut b = Ball::new(1073741823, 0, 1073741823, 12, 12, 12, true, 1000);
    assert!(!b.can_change_position(0, 1280, 0, 720));
    b.after_goal(1073741812, 0, TeamName::Left, 0);
    assert!(b.can_change_position(0, 1280, 0, 720));
    b.after_goal(1073741813, 0, TeamName::Left, 0);
    assert!(!b.can_change_position(0, 1280, 0, 720));
}

#[test]
fn fast_ball_slips_past_a_paddle_and_out_of_the_field() {
    // on one step the ball would cross the side of a paddle, the side of the
    // field and the floor: the floor wins, and the rest of the step goes on
    // beyond the side of the field
    let l = Paddle::new(70, 315, 20, 90, 11);
    let r = Paddle::new(1190, 630, 20, 90, 11);
    let mut b = Ball::new(1170, 690, 14, 12, 60, 400, true, 1000);
    assert_eq!(b.change_position(Some((&l, &r)), 0, 1280, 0, 720), None);
    assert_eq!((b.x(), b.y(), b.vx(), b.vy()), (1570, 662, 400, -60));
    // with no paddles it is stopped in the goal
    let mut b = Ball::new(1170, 690, 14, 12, 60, 400, true, 1000);
    assert_eq!(b.change_position(None, 0, 1280, 0, 720), Some(TeamName::Left));
    assert_eq!((b.x(), b.y(), b.vx(), b.vy()), (1266, 704, -12, 60));
}

#[test]
fn ball_flies_across_the_field_to_the_goal() {
    for (vx, vy) in [(7, 33), (-7, 33), (13, -250), (-1, 719), (40, 0), (-3, -1)] {
        let mut b = Ball::new(600, 300, 14, 12, vy, vx, true, 1000);
        let mut frames = 0;
        loop {
            let (x, y) = (b.x(), b.y());
            let goal = b.change_position(None, 0, 1280, 0, 720);
            frames += 1;
            assert!(0 <= b.y() && b.y() + 14 <= 720);
            assert!(b.vy() == vy || b.vy() == -vy);
            assert!((b.y() - y).abs() <= vy.abs());
            match goal {
                None => {
                    assert_eq!((b.x(), b.vx()), (x + vx, vx));
                }
                Some(team) => {
                    if vx > 0 {
                        assert_eq!((team, b.x(), b.vx()), (TeamName::Left, 1266, -12));
                        assert_eq!(frames, (1266 - 600) / vx + 1);
                    } else {
                        assert_eq!((team, b.x(), b.vx()), (TeamName::Right, 0, 12));
                        assert_eq!(frames, 600 / -vx + 1);
                    }
                    break;
                }
            }
            assert!(frames < 2000);
        }
    }
}

#[test]
fn ball_that_fills_the_field_never_gets_ahead() {
    // between floor and ceiling the ball has no room: it bounces on the spot
    // and is frozen before it has moved along the x axis
    let mut b = Ball::new(100, 0, 20, 5, 5, 5, true, 1000);
    for _ in 0..10 {
        assert_eq!(b.change_position(None, 0, 1280, 0, 20), None);
        assert_eq!((b.x(), b.y(), b.vx(), b.vy()), (100, 0, 5, 5));
    }
}
