use pong::segment::{lesseq_lesseq, Segmet1D, Segmet2D};

#[test]
fn test() {
    let s1 = Segmet2D::new(1, 2, 1, 6);
    let s2 = Segmet2D::new(0, 4, 2, 4);
    assert_eq!(s1.intersect(&s2), Some((1, 4)));
    let s1 = Segmet2D::new(316, 2, 316, -2);
    let s2 = Segmet2D::new(0, 0, 640, 0);
    assert_eq!(s1.intersect(&s2), Some((316, 0)));
}

#[test]
fn lesseq_lesseq_takes_the_ends_in_either_order() {
    assert!(lesseq_lesseq(1, 2, 3));
    assert!(lesseq_lesseq(3, 2, 1));
    assert!(lesseq_lesseq(2, 2, 5));
    assert!(lesseq_lesseq(5, 5, 2));
    assert!(!lesseq_lesseq(1, 4, 3));
    assert!(!lesseq_lesseq(3, 0, 1));
}

#[test]
fn intervals_overlap_inclusive_of_touching_ends() {
    let a = Segmet1D::new(0, 10);
    assert!(a.intersect(&Segmet1D::new(10, 20)));
    assert!(a.intersect(&Segmet1D::new(20, 10)));
    assert!(a.intersect(&Segmet1D::new(-5, 0)));
    assert!(a.intersect(&Segmet1D::new(3, 4)));
    assert!(a.intersect(&Segmet1D::new(-3, 40)));
    assert!(!a.intersect(&Segmet1D::new(11, 20)));
    assert!(!a.intersect(&Segmet1D::new(-5, -1)));
}

#[test]
fn intervals_overlap_whatever_the_order() {
    let pairs = [((0, 10), (5, 15)), ((0, 10), (11, 15)), ((3, 3), (3, 3)), ((7, -2), (-2, -9))];
    for ((a1, a2), (b1, b2)) in pairs {
        let expected = Segmet1D::new(a1, a2).intersect(&Segmet1D::new(b1, b2));
        assert_eq!(Segmet1D::new(a2, a1).intersect(&Segmet1D::new(b1, b2)), expected);
        assert_eq!(Segmet1D::new(a1, a2).intersect(&Segmet1D::new(b2, b1)), expected);
        assert_eq!(Segmet1D::new(b1, b2).intersect(&Segmet1D::new(a1, a2)), expected);
    }
}

#[test]
fn crossing_is_rounded_toward_zero() {
    // the lines cross at (1.5, 1)
    let s1 = Segmet2D::new(0, 0, 3, 2);
    let s2 = Segmet2D::new(0, 2, 3, 0);
    assert_eq!(s1.intersect(&s2), Some((1, 1)));
    // mirrored through the origin they cross at (-1.5, -1): toward zero, not down
    let s1 = Segmet2D::new(0, 0, -3, -2);
    let s2 = Segmet2D::new(0, -2, -3, 0);
    assert_eq!(s1.intersect(&s2), Some((-1, -1)));
    // (2, 1.2) and (-2, -1.2)
    assert_eq!(Segmet2D::new(0, 0, 5, 3).intersect(&Segmet2D::new(2, 0, 2, 5)), Some((2, 1)));
    assert_eq!(
        Segmet2D::new(0, 0, -5, -3).intersect(&Segmet2D::new(-2, 0, -2, -5)),
        Some((-2, -1))
    );
    assert_eq!(
        Segmet2D::new(-7, 3, 2, -4).intersect(&Segmet2D::new(-5, -5, 4, 6)),
        Some((-1, -1))
    );
}

#[test]
fn rounded_crossing_may_fall_into_a_box_that_the_lines_miss() {
    // the lines cross at (1.5, 1.5), past the end of the first segment
    let s1 = Segmet2D::new(0, 0, 1, 1);
    let s2 = Segmet2D::new(3, 0, 0, 3);
    assert_eq!(s1.intersect(&s2), Some((1, 1)));
}

#[test]
fn parallel_segments_never_meet() {
    assert_eq!(Segmet2D::new(0, 0, 4, 4).intersect(&Segmet2D::new(0, 1, 4, 5)), None);
    assert_eq!(Segmet2D::new(0, 0, 4, 0).intersect(&Segmet2D::new(0, 3, 4, 3)), None);
    // on one line, overlapping
    assert_eq!(Segmet2D::new(0, 0, 4, 4).intersect(&Segmet2D::new(2, 2, 6, 6)), None);
    assert_eq!(Segmet2D::new(0, 0, 4, 0).intersect(&Segmet2D::new(2, 0, 6, 0)), None);
    // the same segment
    assert_eq!(Segmet2D::new(1, 2, 3, 4).intersect(&Segmet2D::new(1, 2, 3, 4)), None);
    // a segment without length
    assert_eq!(Segmet2D::new(1, 1, 1, 1).intersect(&Segmet2D::new(0, 0, 2, 2)), None);
}

#[test]
fn crossing_outside_a_segment_is_no_meeting() {
    assert_eq!(Segmet2D::new(0, 0, 1, 0).intersect(&Segmet2D::new(5, -1, 5, 1)), None);
    assert_eq!(Segmet2D::new(0, 0, 10, 0).intersect(&Segmet2D::new(5, 1, 5, 3)), None);
}

#[test]
fn meeting_point_lies_in_both_boxes() {
    let segments = [
        (0, 0, 7, 5),
        (7, 0, 0, 5),
        (3, -4, 3, 9),
        (-2, 2, 9, 2),
        (-6, -6, 8, 1),
        (5, 9, -5, -9),
        (1, 1, 2, 8),
    ];
    for a in segments {
        for b in segments {
            let s = Segmet2D::new(a.0, a.1, a.2, a.3);
            let t = Segmet2D::new(b.0, b.1, b.2, b.3);
            if let Some((x, y)) = s.intersect(&t) {
                assert!(lesseq_lesseq(a.0, x, a.2) && lesseq_lesseq(a.1, y, a.3));
                assert!(lesseq_lesseq(b.0, x, b.2) && lesseq_lesseq(b.1, y, b.3));
            }
        }
    }
}

#[test]
fn wide_coordinates_do_not_overflow() {
    let s = Segmet2D::new(i32::MIN, i32::MIN, i32::MAX, i32::MAX);
    let t = Segmet2D::new(i32::MIN, i32::MAX, i32::MAX, i32::MIN);
    assert_eq!(s.intersect(&t), Some((0, 0)));
}

#[test]
fn segment_ends_can_be_changed() {
    let mut s = Segmet2D::new(0, 0, 0, 0);
    s.change_x1(2);
    s.change_y1(-3);
    s.change_x2(2);
    s.change_y2(7);
    assert_eq!(s.y_min(), -3);
    assert_eq!(s.y_max(), 7);
    assert_eq!(s.intersect(&Segmet2D::new(0, 4, 5, 4)), Some((2, 4)));
    s.change_y1(9);
    assert_eq!(s.y_min(), 7);
    assert_eq!(s.y_max(), 9);
}
