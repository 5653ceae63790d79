use pong::mid_line::DashedLineVert;
use pong::point_display::{
    digits, glyph, lit, overwrite_rects_left, overwrite_rects_right, PointDisplay, GLYPHS,
};
use pong::rect::Rect;
use pong::team::TeamName;

fn place(x: i32) -> Rect {
    Rect { x, y: 22, width: 110, height: 154 }
}

#[test]
fn digits_of_numbers() {
    assert_eq!(digits(0), vec!['0']);
    assert_eq!(digits(7), vec!['7']);
    assert_eq!(digits(10), vec!['1', '0']);
    assert_eq!(digits(15), vec!['1', '5']);
    assert_eq!(digits(9080), vec!['9', '0', '8', '0']);
    assert_eq!(digits(u32::MAX), vec!['4', '2', '9', '4', '9', '6', '7', '2', '9', '5']);
    for n in [0u32, 1, 9, 10, 99, 100, 12345, 4000000000] {
        assert_eq!(digits(n), n.to_string().chars().collect::<Vec<_>>());
    }
}

#[test]
fn glyphs_of_digits_and_letters() {
    assert_eq!(glyph('0'), Some(0b01110100011001110101110011000101110));
    assert_eq!(glyph('9'), Some(0b01110100011000011110100011000101110));
    assert_eq!(glyph('a'), Some(0b10001100011000111111100011000111110));
    assert_eq!(glyph('z'), Some(0b11111000010001000100010001000011111));
    assert_eq!(glyph('A'), None);
    assert_eq!(glyph(' '), None);
    assert_eq!(GLYPHS.len(), 36);
    for (c, bits) in GLYPHS {
        assert_eq!(glyph(c), Some(bits));
    }
}

#[test]
fn pixels_of_a_glyph() {
    let one = glyph('1').unwrap();
    let rows: Vec<String> = (0..7)
        .map(|row| (0..5).map(|col| if lit(one, col, row) { '#' } else { '.' }).collect())
        .collect();
    assert_eq!(rows, vec!["..#..", ".##..", "..#..", "..#..", "..#..", "..#..", ".###."]);
    let l = glyph('l').unwrap();
    let rows: Vec<String> = (0..7)
        .map(|row| (0..5).map(|col| if lit(l, col, row) { '#' } else { '.' }).collect())
        .collect();
    assert_eq!(rows, vec!["#....", "#....", "#....", "#....", "#....", "#....", "#####"]);
}

#[test]
fn places_of_the_right_digits_grow_outward() {
    let mut rects = vec![];
    overwrite_rects_right(&mut rects, &vec!['0']);
    assert_eq!(rects, vec![place(666)]);
    overwrite_rects_right(&mut rects, &vec!['1', '0', '0']);
    assert_eq!(rects, vec![place(666), place(798), place(930)]);
    overwrite_rects_right(&mut rects, &vec!['7']);
    assert_eq!(rects, vec![place(666)]);
    overwrite_rects_right(&mut rects, &vec![]);
    assert_eq!(rects, vec![]);
}

#[test]
fn places_of_the_left_digits_grow_outward() {
    let mut rects = vec![];
    overwrite_rects_left(&mut rects, &vec!['0']);
    assert_eq!(rects, vec![place(504)]);
    overwrite_rects_left(&mut rects, &vec!['1', '0', '0']);
    assert_eq!(rects, vec![place(240), place(372), place(504)]);
    overwrite_rects_left(&mut rects, &vec!['1', '0', '0', '0']);
    assert_eq!(rects, vec![place(108), place(240), place(372), place(504)]);
}

#[test]
fn fewer_left_digits_keep_the_outer_places() {
    let mut rects = vec![];
    overwrite_rects_left(&mut rects, &vec!['1', '0']);
    assert_eq!(rects, vec![place(372), place(504)]);
    overwrite_rects_left(&mut rects, &vec!['0']);
    assert_eq!(rects, vec![place(372)]);
    overwrite_rects_left(&mut rects, &vec!['1', '0']);
    assert_eq!(rects, vec![place(372), place(372)]);
}

#[test]
fn new_display_shows_no_points() {
    let d = PointDisplay::new();
    assert_eq!((d.left(), d.right()), (0, 0));
    assert_eq!(d.digits(TeamName::Left), vec!['0']);
    assert_eq!(d.digits(TeamName::Right), vec!['0']);
    assert_eq!(d.rects(TeamName::Left), vec![place(504)]);
    assert_eq!(d.rects(TeamName::Right), vec![place(666)]);
}

#[test]
fn points_are_counted_and_placed() {
    let mut d = PointDisplay::new();
    for _ in 0..9 {
        d.incr_point(TeamName::Left);
    }
    d.incr_point(TeamName::Right);
    assert_eq!((d.left(), d.right()), (9, 1));
    assert_eq!(d.rects(TeamName::Left), vec![place(504)]);
    d.incr_point(TeamName::Left);
    assert_eq!((d.left(), d.right()), (10, 1));
    assert_eq!(d.digits(TeamName::Left), vec!['1', '0']);
    assert_eq!(d.digits(TeamName::Right), vec!['1']);
    assert_eq!(d.rects(TeamName::Left), vec![place(372), place(504)]);
    assert_eq!(d.rects(TeamName::Right), vec![place(666)]);
    for _ in 0..9 {
        d.incr_point(TeamName::Right);
    }
    assert_eq!(d.right(), 10);
    assert_eq!(d.rects(TeamName::Right), vec![place(666), place(798)]);
    d.reset();
    assert_eq!((d.left(), d.right()), (0, 0));
    assert_eq!(d.digits(TeamName::Left), vec!['0']);
    assert_eq!(d.rects(TeamName::Left), vec![place(372)]);
    assert_eq!(d.rects(TeamName::Right), vec![place(666)]);
}

#[test]
fn dashes_of_the_middle_line() {
    let pos = Rect::new(636, 0, 8, 720);
    let line = DashedLineVert::new(pos, 32, 1, 1);
    assert_eq!(line.pos(), pos);
    assert_eq!(line.height(), 64);
    assert_eq!(line.len(), 32);
    assert_eq!(line.dash(0), Some(Rect { x: 0, y: 0, width: 1, height: 1 }));
    assert_eq!(line.dash(1), Some(Rect { x: 0, y: 2, width: 1, height: 1 }));
    assert_eq!(line.dash(31), Some(Rect { x: 0, y: 62, width: 1, height: 1 }));
    assert_eq!(line.dash(32), None);
    let line = DashedLineVert::new(pos, 3, 5, 2);
    assert_eq!(line.height(), 21);
    assert_eq!(line.dash(2), Some(Rect { x: 0, y: 14, width: 1, height: 5 }));
    let line = DashedLineVert::new(pos, 2, 0, 4);
    assert_eq!(line.dash(1), Some(Rect { x: 0, y: 4, width: 1, height: 1 }));
    let line = DashedLineVert::new(pos, 0, 1, 1);
    assert_eq!((line.height(), line.len(), line.dash(0)), (0, 0, None));
}
