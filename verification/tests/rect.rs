use pong::rect::{Rect, MAX_EXTENT, MIN_POSITION};

#[test]
fn rect_new_keeps_what_is_in_range() {
    let r = Rect::new(-5, 7, 20, 90);
    assert_eq!(r, Rect { x: -5, y: 7, width: 20, height: 90 });
}

#[test]
fn rect_new_replaces_an_empty_side() {
    let r = Rect::new(1, 2, 0, 4);
    assert_eq!((r.x, r.y, r.width, r.height), (1, 2, 1, 4));
    let r = Rect::new(0, 0, 0, 0);
    assert_eq!((r.x, r.y, r.width, r.height), (0, 0, 1, 1));
}

#[test]
fn rect_new_clamps_what_is_out_of_range() {
    assert_eq!(MAX_EXTENT, i32::MAX / 2);
    assert_eq!(MIN_POSITION, i32::MIN / 2);
    let r = Rect::new(i32::MAX, i32::MIN, u32::MAX, 0x4000_0000);
    assert_eq!(r.x, 1073741823);
    assert_eq!(r.y, -1073741824);
    assert_eq!(r.width, 1073741823);
    assert_eq!(r.height, 1073741823);
    let r = Rect::new(1073741823, -1073741824, 1073741823, 1);
    assert_eq!((r.x, r.y, r.width, r.height), (1073741823, -1073741824, 1073741823, 1));
}
