use todolists::menu::{accept, accept_position};

#[test]
fn accept_takes_numbers_within_the_bounds() {
    assert_eq!(accept(1, 1, 6), Some(1));
    assert_eq!(accept(6, 1, 6), Some(6));
    assert_eq!(accept(3, 1, 6), Some(3));
}

#[test]
fn accept_refuses_numbers_outside_the_bounds() {
    assert_eq!(accept(0, 1, 6), None);
    assert_eq!(accept(7, 1, 6), None);
    assert_eq!(accept(-1, 1, 3), None);
    assert_eq!(accept(i64::MAX, 1, 5), None);
    assert_eq!(accept(i64::MIN, 1, 5), None);
}

#[test]
fn accept_refuses_everything_on_an_empty_range() {
    assert_eq!(accept(1, 1, 0), None);
    assert_eq!(accept(0, 1, 0), None);
}

#[test]
fn accept_position_counts_from_one() {
    assert_eq!(accept_position(1, 3), Some(0));
    assert_eq!(accept_position(3, 3), Some(2));
}

#[test]
fn accept_position_refuses_what_names_no_item() {
    assert_eq!(accept_position(0, 3), None);
    assert_eq!(accept_position(4, 3), None);
    assert_eq!(accept_position(-1, 3), None);
    assert_eq!(accept_position(1, 0), None);
    assert_eq!(accept_position(i64::MAX, 3), None);
}
