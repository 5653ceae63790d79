use pong::ball::Ball;
use pong::paddle::Paddle;
use pong::probe::Heading;
use pong::segment::Segmet2D;
use pong::virtual_ball::VirtualBall;

fn square(x: i32, y: i32) -> Ball {
    Ball::new(x, y, 10, 1, 1, 1, true, 0)
}

fn parts(vb: &VirtualBall) -> (i32, i32, i32, i32, Option<(usize, usize)>) {
    (vb.x(), vb.y(), vb.step_x(), vb.step_y(), vb.indexes())
}

#[test]
fn virtual_ball_holds_what_it_is_made_of() {
    let vb = VirtualBall::new(1, -2, 3, -4, Some((2, 1)));
    assert_eq!(parts(&vb), (1, -2, 3, -4, Some((2, 1))));
    let vb = VirtualBall::new(0, 0, 0, 0, None);
    assert_eq!(vb.indexes(), None);
}

#[test]
fn move_without_walls_is_the_whole_step() {
    let vb = square(0, 0).virtual_position_move_right(0, &vec![], 40, 13);
    assert_eq!(parts(&vb), (40, 13, 0, 0, None));
    let vb = square(0, 0).virtual_position_move_up(3, &vec![], -4, -13);
    assert_eq!(parts(&vb), (-4, -13, 0, 0, None));
}

#[test]
fn move_right_stops_at_a_wall() {
    let walls = vec![Segmet2D::new(25, -100, 25, 100)];
    let vb = square(0, 0).virtual_position_move_right(0, &walls, 40, 13);
    assert_eq!(parts(&vb), (15, 4, -25, 9, Some((0, 0))));
}

#[test]
fn move_left_stops_at_a_wall() {
    let walls = vec![Segmet2D::new(25, -100, 25, 100)];
    let vb = square(50, 50).virtual_position_move_left(1, &walls, -40, -13);
    assert_eq!(parts(&vb), (25, 41, 15, -4, Some((1, 0))));
}

#[test]
fn move_down_stops_at_a_wall() {
    let walls = vec![Segmet2D::new(-100, 75, 200, 75)];
    let vb = square(50, 50).virtual_position_move_down(2, &walls, 7, 40);
    assert_eq!(parts(&vb), (52, 65, 5, -25, Some((2, 0))));
}

#[test]
fn move_up_stops_at_a_wall() {
    let walls = vec![Segmet2D::new(-100, 25, 200, 25)];
    let vb = square(50, 50).virtual_position_move_up(3, &walls, -7, -40);
    assert_eq!(parts(&vb), (45, 25, -2, 15, Some((3, 0))));
}

#[test]
fn wall_at_the_end_of_the_step_is_no_hit() {
    let walls = vec![Segmet2D::new(50, -100, 50, 100)];
    let vb = square(0, 0).virtual_position_move_right(0, &walls, 40, 5);
    assert_eq!(parts(&vb), (40, 5, 0, 0, None));
}

#[test]
fn later_wall_replaces_an_earlier_one() {
    // the nearer wall comes later in the list: it is met on the way to the
    // farther one, and what is left is counted from there
    let walls = vec![Segmet2D::new(30, -100, 30, 100), Segmet2D::new(20, -100, 20, 100)];
    let vb = square(0, 0).virtual_position_move_right(0, &walls, 40, 0);
    assert_eq!(parts(&vb), (10, 0, -10, 0, Some((0, 1))));
    // the nearer wall comes first: the farther one is not met any more
    let walls = vec![Segmet2D::new(20, -100, 20, 100), Segmet2D::new(30, -100, 30, 100)];
    let vb = square(0, 0).virtual_position_move_right(0, &walls, 40, 0);
    assert_eq!(parts(&vb), (10, 0, -30, 0, Some((0, 0))));
}

#[test]
fn second_corner_is_tried_when_the_first_misses() {
    // the wall is met by the lower right corner only
    let walls = vec![Segmet2D::new(25, 5, 25, 100)];
    let vb = square(0, 0).virtual_position_move_right(7, &walls, 40, 0);
    assert_eq!(parts(&vb), (15, 0, -25, 0, Some((7, 0))));
    // and by no corner
    let walls = vec![Segmet2D::new(25, 11, 25, 100)];
    let vb = square(0, 0).virtual_position_move_right(7, &walls, 40, 0);
    assert_eq!(parts(&vb), (40, 0, 0, 0, None));
}

#[test]
fn virtual_position_takes_the_heading() {
    let walls = vec![Segmet2D::new(25, -100, 25, 100)];
    let vb = square(0, 0).virtual_position(Heading::Right, 0, &walls, 40, 13);
    assert_eq!(parts(&vb), (15, 4, -25, 9, Some((0, 0))));
    let walls = vec![Segmet2D::new(-100, 75, 200, 75)];
    let vb = square(50, 50).virtual_position(Heading::Down, 2, &walls, 7, 40);
    assert_eq!(parts(&vb), (52, 65, 5, -25, Some((2, 0))));
}

#[test]
fn walls_are_the_sides_of_the_field_and_of_the_paddles() {
    let l = Paddle::new(70, 315, 20, 90, 11);
    let r = Paddle::new(1190, 315, 20, 90, 11);
    let b = Ball::new(600, 300, 14, 12, 5, 12, true, 1000);
    let walls = b.build_walls(None, 0, 1280, 0, 720);
    assert_eq!(walls.iter().map(|list| list.len()).collect::<Vec<_>>(), vec![1, 1, 1, 1]);
    let walls = b.build_walls(Some((&l, &r)), 0, 1280, 0, 720);
    assert_eq!(walls.iter().map(|list| list.len()).collect::<Vec<_>>(), vec![3, 3, 3, 3]);
    // the sides to the right and left reach past the field by the vertical speed
    assert_eq!((walls[0][0].y_min(), walls[0][0].y_max()), (-5, 725));
    assert_eq!((walls[1][0].y_min(), walls[1][0].y_max()), (-5, 725));
    assert_eq!((walls[2][0].y_min(), walls[2][0].y_max()), (720, 720));
    assert_eq!((walls[3][0].y_min(), walls[3][0].y_max()), (0, 0));
    // floor and ceiling reach past the field by the horizontal speed
    let probe = Segmet2D::new(-12, -1, -12, 721);
    assert_eq!(walls[2][0].intersect(&probe), Some((-12, 720)));
    assert_eq!(walls[3][0].intersect(&probe), Some((-12, 0)));
    let probe = Segmet2D::new(1293, -1, 1293, 721);
    assert_eq!(walls[2][0].intersect(&probe), None);
    let probe = Segmet2D::new(0, 400, 1280, 400);
    assert_eq!(walls[0][0].intersect(&probe), Some((1280, 400)));
    assert_eq!(walls[1][0].intersect(&probe), Some((0, 400)));
    // a ball that moves right comes upon the left sides of the paddles
    assert_eq!(walls[0][1].intersect(&probe), Some((70, 400)));
    assert_eq!(walls[0][2].intersect(&probe), Some((1190, 400)));
    assert_eq!(walls[1][1].intersect(&probe), Some((90, 400)));
    assert_eq!(walls[1][2].intersect(&probe), Some((1210, 400)));
    assert_eq!((walls[0][1].y_min(), walls[0][1].y_max()), (315, 405));
    let probe = Segmet2D::new(80, 0, 80, 720);
    assert_eq!(walls[2][1].intersect(&probe), Some((80, 315)));
    assert_eq!(walls[3][1].intersect(&probe), Some((80, 405)));
    let probe = Segmet2D::new(1200, 0, 1200, 720);
    assert_eq!(walls[2][2].intersect(&probe), Some((1200, 315)));
    assert_eq!(walls[3][2].intersect(&probe), Some((1200, 405)));
}
