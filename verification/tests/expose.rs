use niri_expose::expose::{
    find_entry, first_window_with, plan_windows, windows_in_opening_order, AllOutputsExpose,
    Destination, ExposeWindow,
};
use niri_expose::geometry::{Point, Rect, Size};
use niri_expose::navigation::ExposeDirection;

/// A rectangle that stands for the number `n` (its left edge).
fn g(n: i64) -> Rect {
    Rect::new(n, 0, 1, 1)
}

fn gs(ns: &[i64]) -> Vec<Rect> {
    ns.iter().map(|&n| g(n)).collect()
}

fn entries(es: &[(u64, i64)]) -> Vec<(u64, Rect)> {
    es.iter().map(|&(id, n)| (id, g(n))).collect()
}

fn window(id: u64, origin: i64, target: i64) -> ExposeWindow {
    ExposeWindow {
        id,
        size: Size { w: 100, h: 50 },
        origin: g(origin),
        target: g(target),
    }
}

fn ids(ws: &[ExposeWindow]) -> Vec<u64> {
    ws.iter().map(|w| w.id).collect()
}

fn motion(w: &ExposeWindow) -> (i64, i64) {
    (w.origin.loc.x, w.target.loc.x)
}

fn three() -> Vec<ExposeWindow> {
    vec![window(1, 10, 11), window(2, 20, 21), window(3, 30, 31)]
}

fn area() -> Rect {
    Rect::new(0, 0, 1920, 1080)
}

#[test]
fn find_entry_returns_the_first_entry_for_an_id() {
    let es = [(1u64, 'a'), (2, 'b'), (1, 'c')];
    assert_eq!(find_entry(&es, 1), Some('a'));
    assert_eq!(find_entry(&es, 2), Some('b'));
    assert_eq!(find_entry(&es, 3), None);
    let empty: [(u64, char); 0] = [];
    assert_eq!(find_entry(&empty, 1), None);
}

#[test]
fn first_window_with_finds_the_first_match() {
    let ws = vec![window(5, 0, 0), window(7, 0, 0), window(5, 1, 1)];
    assert_eq!(first_window_with(&ws, 5), Some(0));
    assert_eq!(first_window_with(&ws, 7), Some(1));
    assert_eq!(first_window_with(&ws, 9), None);
}

#[test]
fn windows_are_ordered_by_opening_order_and_ties_keep_their_order() {
    let es = vec![
        (3u64, window(30, 0, 0)),
        (1, window(10, 0, 0)),
        (2, window(20, 0, 0)),
        (1, window(11, 0, 0)),
        (0, window(1, 0, 0)),
    ];
    let ordered = windows_in_opening_order(&es);
    assert_eq!(ids(&ordered), vec![1, 10, 11, 20, 30]);
    assert!(windows_in_opening_order(&[]).is_empty());
}

#[test]
fn planned_windows_start_where_an_earlier_expose_left_them() {
    let ws = three();
    let carried = entries(&[(2, 200), (9, 900), (2, 201)]);
    let targets = gs(&[111, 222]);
    let planned = plan_windows(&ws, &carried, &targets);
    assert_eq!(ids(&planned), vec![1, 2, 3]);
    assert_eq!(motion(&planned[0]), (10, 111));
    assert_eq!(motion(&planned[1]), (200, 222));
    // Past the end of the planned targets a window keeps its own.
    assert_eq!(motion(&planned[2]), (30, 31));
    assert_eq!(planned[1].size, Size { w: 100, h: 50 });
}

#[test]
fn new_expose_selects_the_focused_window() {
    let e = AllOutputsExpose::new(4, three(), area(), Some(3));
    assert_eq!(e.output(), 4);
    assert!(e.is_open());
    assert_eq!(e.area(), area());
    assert_eq!(e.destination(), Destination::Layout);
    assert_eq!(e.selected(), 2);
    assert_eq!(e.selected_window(), Some(3));

    let e = AllOutputsExpose::new(4, three(), area(), Some(8));
    assert_eq!(e.selected(), 0);
    assert_eq!(e.selected_window(), Some(1));

    let e = AllOutputsExpose::new(4, three(), area(), None);
    assert_eq!(e.selected(), 0);

    let e = AllOutputsExpose::new(4, Vec::new(), area(), Some(1));
    assert_eq!(e.selected(), 0);
    assert_eq!(e.selected_window(), None);
}

#[test]
fn contains_window_checks_the_shown_windows() {
    let e = AllOutputsExpose::new(0, three(), area(), None);
    assert!(e.contains_window(2));
    assert!(!e.contains_window(4));
    assert_eq!(ids(e.windows()), vec![1, 2, 3]);
}

#[test]
fn window_under_picks_the_topmost_window_while_open() {
    let mut e = AllOutputsExpose::new(0, three(), area(), None);
    let current = [
        Rect::new(0, 0, 100, 100),
        Rect::new(50, 50, 100, 100),
        Rect::new(500, 500, 10, 10),
    ];
    assert_eq!(e.window_under(&current, Point { x: 75, y: 75 }), Some(2));
    assert_eq!(e.window_under(&current, Point { x: 10, y: 10 }), Some(1));
    assert_eq!(e.window_under(&current, Point { x: 505, y: 505 }), Some(3));
    assert_eq!(e.window_under(&current, Point { x: 300, y: 300 }), None);
    e.close_to(&gs(&[0, 0, 0]), &[], Destination::Layout);
    assert_eq!(e.window_under(&current, Point { x: 75, y: 75 }), None);
}

#[test]
fn drawing_order_is_front_to_back_with_the_ring_on_the_selection() {
    let mut e = AllOutputsExpose::new(0, three(), area(), Some(2));
    assert_eq!(
        e.drawing_order(true, &[1, 2, 3]),
        vec![(3, false), (2, true), (1, false)]
    );
    assert_eq!(
        e.drawing_order(false, &[3, 2, 1]),
        vec![(3, false), (2, false), (1, false)]
    );
    // A window whose tile is gone is not drawn.
    assert_eq!(e.drawing_order(true, &[1, 3]), vec![(3, false), (1, false)]);
    assert_eq!(e.drawing_order(true, &[]), vec![]);
    e.close_to(&gs(&[0, 0, 0]), &[], Destination::Layout);
    assert_eq!(
        e.drawing_order(true, &[1, 2, 3]),
        vec![(3, false), (2, false), (1, false)]
    );
}

#[test]
fn cycling_wraps_around_and_round_trips() {
    let mut e = AllOutputsExpose::new(0, three(), area(), Some(3));
    e.cycle(true);
    assert_eq!(e.selected_window(), Some(1));
    e.cycle(true);
    assert_eq!(e.selected_window(), Some(2));
    e.cycle(false);
    assert_eq!(e.selected_window(), Some(1));
    e.cycle(false);
    assert_eq!(e.selected_window(), Some(3));
    e.cycle(true);
    e.cycle(false);
    assert_eq!(e.selected_window(), Some(3));

    let mut empty = AllOutputsExpose::new(0, Vec::new(), area(), None);
    empty.cycle(true);
    empty.cycle(false);
    assert_eq!(empty.selected(), 0);
}

#[test]
fn focus_follows_the_planned_grid() {
    let ws = vec![
        ExposeWindow {
            target: Rect::new(0, 0, 100, 100),
            ..window(1, 0, 0)
        },
        ExposeWindow {
            target: Rect::new(200, 0, 100, 100),
            ..window(2, 0, 0)
        },
        ExposeWindow {
            target: Rect::new(150, 200, 100, 100),
            ..window(3, 0, 0)
        },
    ];
    let mut e = AllOutputsExpose::new(0, ws, area(), Some(1));
    e.focus(ExposeDirection::Right);
    assert_eq!(e.selected_window(), Some(2));
    e.focus(ExposeDirection::Right);
    assert_eq!(e.selected_window(), Some(2));
    e.focus(ExposeDirection::Down);
    assert_eq!(e.selected_window(), Some(3));
    e.focus(ExposeDirection::Up);
    // Centre of window 3 is at 200: window 2 (centre 250) is nearer than window 1 (centre 50).
    assert_eq!(e.selected_window(), Some(2));
}

#[test]
fn closing_restarts_from_the_current_geometry_and_keeps_the_selection() {
    let mut e = AllOutputsExpose::new(7, three(), area(), Some(2));
    e.close_to(
        &gs(&[100, 200, 300]),
        &entries(&[(3, 333), (1, 111), (3, 334)]),
        Destination::Overview,
    );
    assert!(!e.is_open());
    assert_eq!(e.destination(), Destination::Overview);
    assert_eq!(e.selected_window(), Some(2));
    assert_eq!(e.output(), 7);
    let ws = e.windows();
    assert_eq!(ids(ws), vec![1, 2, 3]);
    assert_eq!(motion(&ws[0]), (100, 111));
    assert_eq!(motion(&ws[1]), (200, 21));
    assert_eq!(motion(&ws[2]), (300, 333));
}

#[test]
fn retargeting_only_moves_listed_windows() {
    let mut e = AllOutputsExpose::new(0, three(), area(), Some(2));
    e.retarget_windows(&entries(&[(2, 99)]));
    let ws = e.windows();
    assert_eq!(motion(&ws[0]), (10, 11));
    assert_eq!(motion(&ws[1]), (20, 99));
    assert_eq!(motion(&ws[2]), (30, 31));
    assert!(e.is_open());
    assert_eq!(e.selected_window(), Some(2));
}

#[test]
fn local_handover_uses_local_targets_or_stays_put() {
    let e = AllOutputsExpose::new(0, three(), area(), None);
    let targets = e.local_expose_targets(&gs(&[100, 200, 300]), &entries(&[(3, 3000), (1, 1000)]));
    assert_eq!(targets, entries(&[(1, 1000), (2, 200), (3, 3000)]));
}

#[test]
fn overview_handover_moves_only_host_windows() {
    let e = AllOutputsExpose::new(5, three(), area(), None);
    let owners = [(1u64, Some(5u64)), (2, Some(6)), (3, None)];
    let overview = entries(&[(1, 1000), (2, 2000), (3, 3000)]);
    let current = gs(&[100, 200, 300]);
    let targets = e.overview_targets(&current, &owners, &overview);
    assert_eq!(targets, entries(&[(1, 1000), (2, 200), (3, 300)]));
    // A host window that the overview does not list stays where it is.
    let targets = e.overview_targets(&current, &owners, &entries(&[(2, 2000)]));
    assert_eq!(targets, entries(&[(1, 100), (2, 200), (3, 300)]));
}
