use niri_expose::geometry::{Point, Rect};
use niri_expose::navigation::ExposeDirection::{Down, Left, Right, Up};
use niri_expose::navigation::neighbor;

#[test]
fn navigation_stays_in_rows_and_uses_nearest_center_in_adjacent_row() {
    let rects = [
        Rect::new(0, 0, 80, 60),
        Rect::new(100, 0, 80, 40),
        Rect::new(200, 0, 80, 60),
        Rect::new(50, 100, 80, 60),
        Rect::new(150, 100, 80, 60),
        Rect::new(100, 200, 80, 60),
    ];
    assert_eq!(neighbor(&rects, 1, Left), Some(0));
    assert_eq!(neighbor(&rects, 1, Right), Some(2));
    assert_eq!(neighbor(&rects, 0, Left), None);
    assert_eq!(neighbor(&rects, 2, Right), None);
    assert_eq!(neighbor(&rects, 3, Left), None);
    assert_eq!(neighbor(&rects, 4, Right), None);
    assert_eq!(neighbor(&rects, 0, Down), Some(3));
    assert_eq!(neighbor(&rects, 2, Down), Some(4));
    assert_eq!(neighbor(&rects, 4, Up), Some(1));
    assert_eq!(neighbor(&rects, 4, Down), Some(5));
    assert_eq!(neighbor(&rects, 0, Up), None);
    assert_eq!(neighbor(&rects, 5, Down), None);
    assert_eq!(neighbor(&[], 0, Down), None);
}

#[test]
fn rect_contains_includes_left_and_top_edges_only() {
    let r = Rect::new(0, 0, 10, 10);
    assert!(r.contains(Point { x: 0, y: 0 }));
    assert!(r.contains(Point { x: 9, y: 9 }));
    assert!(!r.contains(Point { x: 10, y: 5 }));
    assert!(!r.contains(Point { x: 5, y: 10 }));
    assert!(!r.contains(Point { x: -1, y: 0 }));
    assert_eq!(r.center_x2_exec(), 10);
}

#[test]
fn vertical_navigation_prefers_the_first_of_equally_near_windows() {
    // Two windows below are equally far from the centre of the selection.
    let rects = [
        Rect::new(100, 0, 100, 50),
        Rect::new(0, 100, 100, 50),
        Rect::new(200, 100, 100, 50),
    ];
    assert_eq!(neighbor(&rects, 0, Down), Some(1));
    assert_eq!(neighbor(&rects, 2, Up), Some(0));
    assert_eq!(neighbor(&rects, 1, Up), Some(0));
}

#[test]
fn vertical_navigation_uses_the_adjacent_row_in_grid_order() {
    let rects = [
        Rect::new(0, 0, 10, 10),
        Rect::new(0, 100, 10, 10),
        Rect::new(0, 200, 10, 10),
    ];
    assert_eq!(neighbor(&rects, 0, Down), Some(1));
    assert_eq!(neighbor(&rects, 2, Up), Some(1));
    assert_eq!(neighbor(&rects, 1, Left), None);
    assert_eq!(neighbor(&rects, 1, Right), None);
}

#[test]
fn navigation_from_an_out_of_range_selection_goes_nowhere() {
    let rects = [Rect::new(0, 0, 10, 10), Rect::new(20, 0, 10, 10)];
    assert_eq!(neighbor(&rects, 2, Left), None);
    assert_eq!(neighbor(&rects, 5, Up), None);
    assert_eq!(neighbor(&rects, 0, Right), Some(1));
    // Right and Left undo each other.
    assert_eq!(neighbor(&rects, 1, Left), Some(0));
}
