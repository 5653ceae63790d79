use pong::error::IndexTooHigh;
use pong::history::History;

#[test]
fn new_history_is_filled() {
    let h = History::new(3, 7);
    assert_eq!(h.first(), 7);
    assert_eq!(h.get_value(0), Ok(7));
    assert_eq!(h.get_value(1), Ok(7));
    assert_eq!(h.get_value(2), Ok(7));
    assert_eq!(h.get_value(3), Err(IndexTooHigh));
}

#[test]
fn history_keeps_the_last_pushes_by_age() {
    let mut h = History::new(3, 0);
    for v in 1..=5 {
        h.push(v);
        assert_eq!(h.first(), v);
        assert_eq!(h.get_value(0), Ok(v));
    }
    assert_eq!(h.get_value(0), Ok(5));
    assert_eq!(h.get_value(1), Ok(4));
    assert_eq!(h.get_value(2), Ok(3));
    assert_eq!(h.get_value(3), Err(IndexTooHigh));
    assert_eq!(h.get_value(usize::MAX), Err(IndexTooHigh));
}

#[test]
fn history_with_fewer_pushes_than_places_still_holds_the_fill() {
    let mut h = History::new(4, -1);
    h.push(10);
    h.push(20);
    assert_eq!(h.first(), 20);
    assert_eq!(h.get_value(1), Ok(10));
    assert_eq!(h.get_value(2), Ok(-1));
    assert_eq!(h.get_value(3), Ok(-1));
    assert_eq!(h.get_value(4), Err(IndexTooHigh));
}

#[test]
fn history_of_one_place() {
    let mut h = History::new(1, 'a');
    assert_eq!(h.first(), 'a');
    h.push('b');
    h.push('c');
    assert_eq!(h.first(), 'c');
    assert_eq!(h.get_value(0), Ok('c'));
    assert_eq!(h.get_value(1), Err(IndexTooHigh));
}

#[test]
fn index_too_high_has_its_text() {
    assert_eq!(IndexTooHigh.message(), "Index too high");
}
