use pong::constants::{
    BALL_DIAMETER, BALL_VX, BALL_VY, DISPLAY_COEFFICENT, FPS, MID_LINE_SEGMENTS, MID_LINE_WIDTH,
    PADDLE_L_HEIGHT, PADDLE_L_STEP, PADDLE_L_X, PADDLE_R_HEIGHT, PADDLE_R_STEP, PADDLE_R_X,
    PADDLE_WIDTH, POINT_TO_WIN, WINDOW_HEIGHT, WINDOW_WIDTH,
};
use pong::error::GameInfiniteLoop;
use pong::game::{rest, Game, Input, Key, Look, Step};
use pong::game_status::GameStatus;
use pong::rect::Rect;

#[test]
fn constants_have_their_values() {
    assert_eq!((WINDOW_WIDTH, WINDOW_HEIGHT, FPS, POINT_TO_WIN), (1280, 720, 60, 15));
    assert_eq!((PADDLE_L_X, PADDLE_R_X, PADDLE_WIDTH), (70, 1190, 20));
    assert_eq!((PADDLE_L_HEIGHT, PADDLE_R_HEIGHT, PADDLE_L_STEP, PADDLE_R_STEP), (90, 90, 11, 11));
    assert_eq!((MID_LINE_WIDTH, MID_LINE_SEGMENTS), (8, 32));
    assert_eq!((BALL_DIAMETER, BALL_VX, BALL_VY, DISPLAY_COEFFICENT), (14, 12, 12, 22));
}

#[test]
fn new_game_waits_with_everything_in_place() {
    let g = Game::new(60, 8);
    assert_eq!(g.fps(), 60);
    assert_eq!((g.status(), g.prev_status()), (GameStatus::Waiting, GameStatus::Play));
    assert_eq!(g.paddle_l().rect(), Rect { x: 70, y: 315, width: 20, height: 90 });
    assert_eq!(g.paddle_r().rect(), Rect { x: 1190, y: 315, width: 20, height: 90 });
    assert_eq!(g.ball().rect(), Rect { x: 633, y: 353, width: 14, height: 14 });
    assert!(g.ball().vx() == 8 || g.ball().vx() == -8);
    assert!(-12 <= g.ball().vy() && g.ball().vy() <= 12);
    assert_eq!((g.ball().vx_default(), g.ball().vy_default()), (12, 12));
    assert_eq!((g.point_display().left(), g.point_display().right()), (0, 0));
    assert!(g.can_play());
}

#[test]
fn events_decide_the_status() {
    let mut g = Game::new(60, 8);
    assert_eq!(g.check_event(Input::Other), None);
    assert_eq!(g.check_event(Input::Quit), Some(Ok(GameStatus::Quit)));
    assert_eq!(g.check_event(Input::Reset), Some(Ok(GameStatus::Reset)));
    // a waiting game goes back to what it did before
    assert_eq!(g.check_event(Input::Pause), Some(Ok(GameStatus::Play)));
    g.update_status(None);
    assert_eq!((g.status(), g.prev_status()), (GameStatus::Waiting, GameStatus::Play));
    g.update_status(Some(GameStatus::Play));
    assert_eq!((g.status(), g.prev_status()), (GameStatus::Play, GameStatus::Waiting));
    // a running game waits
    assert_eq!(g.check_event(Input::Pause), Some(Ok(GameStatus::Waiting)));
    g.change_status(GameStatus::Waiting);
    assert_eq!((g.status(), g.prev_status()), (GameStatus::Waiting, GameStatus::Play));
    // a game that waited before it waited cannot go back
    g.change_status(GameStatus::Waiting);
    assert_eq!(g.check_event(Input::Pause), Some(Err(GameInfiniteLoop)));
    assert_eq!(g.check_event(Input::Quit), Some(Ok(GameStatus::Quit)));
    assert_eq!(GameInfiniteLoop.message(), "Game ended in an infinte loop");
}

#[test]
fn loop_rests_for_what_is_missing_to_a_frame() {
    assert_eq!(rest(60, 0), Some(16666666));
    assert_eq!(rest(60, 6666666), Some(10000000));
    assert_eq!(rest(60, 16666665), Some(1));
    assert_eq!(rest(60, 16666666), None);
    assert_eq!(rest(60, u128::MAX), None);
    assert_eq!(rest(1, 1), Some(999999999));
    assert_eq!(rest(u64::MAX, 0), None);
}

#[test]
fn keys_move_the_paddles() {
    let mut g = Game::new(60, 8);
    g.change_status(GameStatus::Play);
    g.play(&vec![Key::LeftUp, Key::RightDown]);
    assert_eq!(g.paddle_l().y(), 304);
    assert_eq!(g.paddle_r().y(), 326);
    g.play(&vec![Key::LeftDown, Key::LeftDown, Key::RightUp]);
    assert_eq!(g.paddle_l().y(), 326);
    assert_eq!(g.paddle_r().y(), 315);
    for _ in 0..40 {
        g.play(&vec![Key::LeftUp, Key::RightDown]);
    }
    assert_eq!(g.paddle_l().y(), 0);
    assert_eq!(g.paddle_r().y(), 630);
    assert_eq!((g.paddle_l().x(), g.paddle_r().x()), (70, 1190));
}

#[test]
fn first_frame_moves_the_ball_by_its_speed() {
    let mut g = Game::new(60, 8);
    let (vx, vy) = (g.ball().vx(), g.ball().vy());
    g.play(&vec![]);
    assert_eq!((g.ball().x(), g.ball().y()), (633 + vx, 353 + vy));
    assert_eq!((g.ball().vx(), g.ball().vy()), (vx, vy));
    assert_eq!(g.status(), GameStatus::Waiting);
}

#[test]
fn goals_count_until_a_team_has_won() {
    let mut g = Game::new(60, 8);
    g.change_status(GameStatus::Play);
    let mut frames = 0;
    // the paddles are kept away from the ball, so that every serve is a goal
    while g.status() == GameStatus::Play {
        assert!(g.can_play());
        let before = g.point_display().left() + g.point_display().right();
        let keys = if g.ball().y() < 360 {
            vec![Key::LeftDown, Key::RightDown]
        } else {
            vec![Key::LeftUp, Key::RightUp]
        };
        g.play(&keys);
        if let Some(hit) = g.ball().paddle_hit() {
            g.apply_spin((24 * hit.offset / hit.half_extent.max(1)) as i32);
        }
        let after = g.point_display().left() + g.point_display().right();
        assert!(after == before || after == before + 1);
        if after == before + 1 {
            assert_eq!((g.ball().x(), g.ball().y()), (633, 353));
            assert!(g.ball().vx() == 8 || g.ball().vx() == -8);
        }
        frames += 1;
        assert!(frames < 1_000_000);
    }
    assert_eq!(g.status(), GameStatus::End);
    assert_eq!(g.prev_status(), GameStatus::Play);
    let (left, right) = (g.point_display().left(), g.point_display().right());
    assert!(left == 15 || right == 15);
    assert!(left <= 15 && right <= 15);
}

#[test]
fn step_acts_on_the_status() {
    let mut g = Game::new(60, 8);
    // waiting: the frame is shown as paused, and the next round does not act
    assert_eq!(g.step(true, &vec![]), Step { look: Some(Look::Pause), draw: false, quit: false });
    assert_eq!(g.step(false, &vec![]), Step { look: None, draw: false, quit: false });
    assert_eq!(g.ball().rect(), Rect { x: 633, y: 353, width: 14, height: 14 });
    // playing
    g.change_status(GameStatus::Play);
    assert_eq!(g.step(false, &vec![Key::LeftUp]), Step { look: None, draw: true, quit: false });
    assert_eq!(g.paddle_l().y(), 315);
    assert_eq!(
        g.step(true, &vec![Key::LeftUp]),
        Step { look: Some(Look::Play), draw: true, quit: false }
    );
    assert_eq!(g.paddle_l().y(), 304);
    assert_ne!(g.ball().x(), 633);
    // reset: nothing is shown, and the game plays
    g.change_status(GameStatus::Reset);
    assert_eq!(g.step(true, &vec![]), Step { look: None, draw: true, quit: false });
    assert_eq!((g.status(), g.prev_status()), (GameStatus::Play, GameStatus::Reset));
    assert_eq!(g.paddle_l().y(), 315);
    assert_eq!(g.ball().rect(), Rect { x: 633, y: 353, width: 14, height: 14 });
    // at the end the ball flies on, and the frame is shown as paused
    g.change_status(GameStatus::End);
    let vx = g.ball().vx();
    assert_eq!(g.step(true, &vec![Key::LeftUp]), Step { look: Some(Look::Pause), draw: true, quit: false });
    assert_eq!(g.ball().x(), 633 + vx);
    assert_eq!(g.paddle_l().y(), 315);
    // quit
    g.change_status(GameStatus::Quit);
    assert_eq!(g.step(true, &vec![]), Step { look: None, draw: true, quit: true });
    assert_eq!(g.step(false, &vec![]), Step { look: None, draw: true, quit: true });
    // neutral
    g.change_status(GameStatus::Neutral);
    assert_eq!(g.step(true, &vec![]), Step { look: None, draw: true, quit: false });
}

#[test]
fn at_its_end_the_ball_bounces_on_and_nothing_counts() {
    let mut g = Game::new(60, 8);
    g.change_status(GameStatus::End);
    for _ in 0..2000 {
        assert!(g.can_play());
        g.end();
        assert!(0 <= g.ball().x() && g.ball().x() + 14 <= 1280);
        assert!(0 <= g.ball().y() && g.ball().y() + 14 <= 720);
    }
    assert_eq!((g.point_display().left(), g.point_display().right()), (0, 0));
    assert_eq!(g.status(), GameStatus::End);
}
