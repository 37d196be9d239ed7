use vnc_server::Rect;

fn rect(x: u16, y: u16, width: u16, height: u16) -> Rect {
    Rect { x, y, width, height }
}

#[test]
fn full_covers_the_screen() {
    assert_eq!(Rect::full(800, 480), rect(0, 0, 800, 480));
    assert!(!Rect::full(1, 1).is_empty());
    assert!(Rect::full(0, 480).is_empty());
    assert!(Rect::full(800, 0).is_empty());
}

#[test]
fn intersection_is_the_common_part() {
    let a = rect(2, 3, 10, 10);
    let b = rect(5, 0, 4, 6);
    assert_eq!(a.intersect(b), Some(rect(5, 3, 4, 3)));
    assert_eq!(b.intersect(a), Some(rect(5, 3, 4, 3)));
}

#[test]
fn rectangles_that_only_touch_have_nothing_in_common() {
    assert_eq!(rect(0, 0, 2, 2).intersect(rect(2, 0, 2, 2)), None);
    assert_eq!(rect(0, 0, 2, 2).intersect(rect(0, 2, 2, 2)), None);
    assert_eq!(rect(1, 1, 0, 5).intersect(rect(0, 0, 9, 9)), None);
}

#[test]
fn intersection_stops_at_the_last_coordinate() {
    let huge = rect(65530, 10, 65535, 65535);
    assert_eq!(huge.intersect(huge), Some(rect(65530, 10, 5, 65525)));
    assert_eq!(huge.intersect(Rect::full(65535, 20)), Some(rect(65530, 10, 5, 10)));
}

#[test]
fn union_bounds_both() {
    assert_eq!(rect(1, 1, 2, 2).union(rect(5, 4, 1, 3)), rect(1, 1, 5, 6));
    assert_eq!(rect(0, 0, 9, 9).union(rect(2, 2, 2, 2)), rect(0, 0, 9, 9));
}

#[test]
fn union_ignores_a_rectangle_without_pixels() {
    let empty = rect(50, 50, 0, 9);
    assert_eq!(empty.union(rect(1, 2, 3, 4)), rect(1, 2, 3, 4));
    assert_eq!(rect(1, 2, 3, 4).union(empty), rect(1, 2, 3, 4));
}

#[test]
fn union_stops_at_the_last_coordinate() {
    assert_eq!(rect(65535, 0, 9, 1).union(rect(0, 0, 1, 1)), rect(0, 0, 65535, 1));
}
