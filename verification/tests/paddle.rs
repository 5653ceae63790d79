use pong::ball::Ball;
use pong::paddle::Paddle;
use pong::rect::Rect;

fn ball_at(x: i32, y: i32) -> Ball {
    Ball::new(x, y, 14, 12, 12, 8, true, 0)
}

#[test]
fn paddle_is_made_of_a_rectangle() {
    let p = Paddle::new(70, 315, 20, 90, 11);
    assert_eq!((p.x(), p.y(), p.width(), p.height()), (70, 315, 20, 90));
    assert_eq!(p.rect(), Rect { x: 70, y: 315, width: 20, height: 90 });
    let p = Paddle::new(0, 0, 0, 0, 1);
    assert_eq!((p.width(), p.height()), (1, 1));
}

#[test]
fn paddle_moves_by_its_step() {
    let mut p = Paddle::new(70, 315, 20, 90, 11);
    let mut ball = ball_at(600, 300);
    p.move_up(0, &mut ball);
    assert_eq!(p.y(), 304);
    p.move_down(720, &mut ball);
    p.move_down(720, &mut ball);
    assert_eq!(p.y(), 326);
    assert_eq!((ball.x(), ball.y()), (600, 300));
}

#[test]
fn paddle_stops_at_the_sides_of_the_field() {
    let mut p = Paddle::new(70, 5, 20, 90, 11);
    let mut ball = ball_at(600, 300);
    p.move_up(0, &mut ball);
    assert_eq!(p.y(), 0);
    p.move_up(0, &mut ball);
    assert_eq!(p.y(), 0);
    let mut p = Paddle::new(70, 625, 20, 90, 11);
    p.move_down(720, &mut ball);
    assert_eq!(p.y(), 630);
    p.move_down(720, &mut ball);
    assert_eq!(p.y(), 630);
    // a whole step that ends on the side exactly
    let mut p = Paddle::new(70, 11, 20, 90, 11);
    p.move_up(0, &mut ball);
    assert_eq!(p.y(), 0);
    let mut p = Paddle::new(70, 619, 20, 90, 11);
    p.move_down(720, &mut ball);
    assert_eq!(p.y(), 630);
}

#[test]
fn paddle_pushes_the_ball_down_and_ends_flush_with_it() {
    // the paddle's lower side is at 190 and a whole step brings it to 201;
    // the ball's upper side, at 200, is one unit inside that path
    let mut p = Paddle::new(100, 100, 20, 90, 11);
    let mut ball = ball_at(103, 200);
    p.move_down(720, &mut ball);
    assert_eq!(ball.y(), 201);
    assert_eq!(p.y(), 111);
    assert_eq!(p.y() + p.height(), ball.y());
    assert_eq!(ball.x(), 103);
}

#[test]
fn paddle_pushes_the_ball_up_and_ends_flush_with_it() {
    // the paddle's upper side is at 100 and a whole step brings it to 89;
    // the ball's lower side, at 90, is one unit inside that path
    let mut p = Paddle::new(100, 100, 20, 90, 11);
    let mut ball = ball_at(110, 76);
    p.move_up(0, &mut ball);
    assert_eq!(ball.y(), 75);
    assert_eq!(p.y(), 89);
    assert_eq!(p.y(), ball.y() + ball.height());
}

#[test]
fn paddle_pushes_a_ball_that_touches_it() {
    let mut p = Paddle::new(100, 100, 20, 90, 11);
    let mut ball = ball_at(90, 190);
    p.move_down(720, &mut ball);
    assert_eq!(ball.y(), 201);
    assert_eq!(p.y(), 111);
    let mut p = Paddle::new(100, 100, 20, 90, 11);
    let mut ball = ball_at(120, 86);
    p.move_up(0, &mut ball);
    assert_eq!(ball.y(), 75);
    assert_eq!(p.y(), 89);
}

#[test]
fn paddle_leaves_a_ball_beyond_its_step() {
    let mut p = Paddle::new(100, 100, 20, 90, 11);
    let mut ball = ball_at(103, 201);
    p.move_down(720, &mut ball);
    assert_eq!(ball.y(), 201);
    assert_eq!(p.y(), 111);
    let mut p = Paddle::new(100, 100, 20, 90, 11);
    let mut ball = ball_at(103, 75);
    p.move_up(0, &mut ball);
    assert_eq!(ball.y(), 75);
    assert_eq!(p.y(), 89);
}

#[test]
fn paddle_leaves_a_ball_beside_it() {
    let mut p = Paddle::new(100, 100, 20, 90, 11);
    let mut ball = ball_at(121, 195);
    p.move_down(720, &mut ball);
    assert_eq!(ball.y(), 195);
    assert_eq!(p.y(), 111);
    let mut ball = ball_at(85, 80);
    let mut p = Paddle::new(100, 100, 20, 90, 11);
    p.move_up(0, &mut ball);
    assert_eq!(ball.y(), 80);
    assert_eq!(p.y(), 89);
}

#[test]
fn pushed_ball_stops_at_the_side_of_the_field_and_the_paddle_with_it() {
    let mut p = Paddle::new(100, 610, 20, 90, 11);
    let mut ball = ball_at(103, 703);
    p.move_down(720, &mut ball);
    assert_eq!(ball.y(), 706);
    assert_eq!(p.y(), 616);
    let mut p = Paddle::new(100, 20, 20, 90, 11);
    let mut ball = ball_at(103, 3);
    p.move_up(0, &mut ball);
    assert_eq!(ball.y(), 0);
    assert_eq!(p.y(), 14);
}

#[test]
fn can_move_tells_when_a_push_would_not_fit() {
    let p = Paddle::new(100, 100, 20, 90, 11);
    let ball = ball_at(103, 200);
    assert!(p.can_move(0, 720, &ball));
    assert!(p.can_move(i32::MAX - 104, i32::MIN + 104, &ball));
    assert!(!p.can_move(i32::MAX - 103, 720, &ball));
    assert!(!p.can_move(0, i32::MIN + 103, &ball));
    let mut far = ball_at(103, 200);
    far.move_down(u32::MAX, i32::MAX);
    assert_eq!(far.y(), i32::MAX - 14);
    assert!(p.can_move(0, 720, &far));
    let wide = Ball::new(1073741823, 0, 1073741823, 12, 12, 8, true, 0);
    assert!(p.can_move(0, 720, &wide));
}
