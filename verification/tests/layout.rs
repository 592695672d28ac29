use niri_expose::expose::{Destination, ExposeWindow};
use niri_expose::geometry::{Rect, Size};
use niri_expose::layout::{ExposePlan, Layout, Monitor, RefreshAction};
use niri_expose::navigation::ExposeDirection;

/// A rectangle that stands for the number `n` (its left edge).
fn g(n: i64) -> Rect {
    Rect::new(n, 0, 1, 1)
}

fn entries(es: &[(u64, i64)]) -> Vec<(u64, Rect)> {
    es.iter().map(|&(id, n)| (id, g(n))).collect()
}

fn area() -> Rect {
    Rect::new(0, 0, 1920, 1080)
}

fn monitor(output: u64) -> Monitor {
    Monitor {
        output,
        working_area: area(),
        expose_open: false,
    }
}

fn size() -> Size {
    Size { w: 100, h: 50 }
}

/// A plan for windows `ids`: each at `10 * id` in the layout, planned at
/// `100 * id` in the grid.
fn plan(ids: &[u64], focused: Option<u64>) -> ExposePlan {
    ExposePlan {
        windows: ids
            .iter()
            .map(|&id| ExposeWindow {
                id,
                size: size(),
                origin: g(10 * id as i64),
                target: g(10 * id as i64),
            })
            .collect(),
        carried: Vec::new(),
        targets: ids.iter().map(|&id| g(100 * id as i64)).collect(),
        focused,
    }
}

fn layout_with_monitors(active: u64) -> Layout {
    let mut layout = Layout::new();
    layout.set_monitors(vec![monitor(1), monitor(2)]);
    layout.set_active_output(Some(active));
    layout
}

fn opened(host: u64, focused: Option<u64>) -> Layout {
    let mut layout = layout_with_monitors(host);
    layout.toggle_expose_all_outputs(&[], &[], plan(&[1, 2, 3], focused));
    assert!(layout.is_all_outputs_expose_open());
    layout
}

fn selected(layout: &Layout) -> Option<u64> {
    layout.all_outputs_expose().as_ref().unwrap().selected_window()
}

fn motions(layout: &Layout) -> Vec<(i64, i64)> {
    layout
        .all_outputs_expose()
        .as_ref()
        .unwrap()
        .windows()
        .iter()
        .map(|w| (w.origin.loc.x, w.target.loc.x))
        .collect()
}

fn local_open(layout: &Layout) -> Vec<bool> {
    layout.monitors().iter().map(|m| m.expose_open).collect()
}

#[test]
fn new_layout_has_no_expose() {
    let layout = Layout::new();
    assert!(!layout.is_all_outputs_expose_open());
    assert_eq!(layout.all_outputs_expose_output(), None);
    assert!(!layout.is_all_outputs_expose_on_output(0));
    assert!(!layout.is_overview_open());
    assert!(!layout.is_overview_in_progress());
    assert!(layout.all_outputs_expose().is_none());
    assert!(layout.monitors().is_empty());
    assert_eq!(layout.active_output(), None);
}

#[test]
fn toggling_opens_on_the_active_output_and_closes_the_other_modes() {
    let mut layout = layout_with_monitors(2);
    layout.set_monitors(vec![
        Monitor {
            expose_open: true,
            ..monitor(1)
        },
        Monitor {
            expose_open: true,
            ..monitor(2)
        },
    ]);
    layout.set_overview(true, true);
    layout.toggle_expose_all_outputs(&[], &[], plan(&[1, 2, 3], Some(2)));
    assert!(layout.is_all_outputs_expose_open());
    assert_eq!(layout.all_outputs_expose_output(), Some(2));
    assert_eq!(local_open(&layout), vec![false, false]);
    assert!(!layout.is_overview_open());
    assert!(!layout.is_overview_in_progress());
    assert_eq!(selected(&layout), Some(2));
    assert_eq!(motions(&layout), vec![(10, 100), (20, 200), (30, 300)]);
    let e = layout.all_outputs_expose().as_ref().unwrap();
    assert_eq!(e.area(), area());
    assert_eq!(e.destination(), Destination::Layout);
}

#[test]
fn toggling_does_nothing_during_a_move_or_without_an_active_output() {
    let mut layout = Layout::new();
    layout.set_monitors(vec![monitor(1)]);
    layout.toggle_expose_all_outputs(&[], &[], plan(&[1], None));
    assert!(layout.all_outputs_expose().is_none());
    layout.set_active_output(Some(1));
    layout.set_overview(true, false);
    layout.set_interactive_move(true);
    layout.toggle_expose_all_outputs(&[], &[], plan(&[1], None));
    assert!(layout.all_outputs_expose().is_none());
    assert!(layout.is_overview_open());
    layout.set_interactive_move(false);
    layout.toggle_expose_all_outputs(&[], &[], plan(&[1], None));
    assert!(layout.is_all_outputs_expose_open());
}

#[test]
fn opening_needs_a_monitor_for_the_output() {
    let mut layout = layout_with_monitors(9);
    layout.set_overview(true, false);
    layout.toggle_expose_all_outputs(&[], &[], plan(&[1], None));
    assert!(layout.all_outputs_expose().is_none());
    // The overview is left all the same.
    assert!(!layout.is_overview_open());

    let mut layout = opened(1, None);
    layout.open_all_outputs_expose(9, plan(&[4], None));
    assert_eq!(layout.all_outputs_expose_output(), Some(1));
    assert_eq!(motions(&layout).len(), 3);
}

#[test]
fn modes_switch_and_reopen_exclusively() {
    let mut layout = opened(1, Some(3));
    // Toggling an open exposé closes it towards the layout.
    layout.toggle_expose_all_outputs(&[g(5), g(6), g(7)], &entries(&[(2, 60)]), plan(&[], None));
    assert!(!layout.is_all_outputs_expose_open());
    assert_eq!(layout.all_outputs_expose_output(), Some(1));
    assert_eq!(local_open(&layout), vec![false, false]);
    assert_eq!(motions(&layout), vec![(5, 100), (6, 60), (7, 300)]);
    assert_eq!(selected(&layout), Some(3));
    // Toggling again reopens it from where the windows are now.
    let mut again = plan(&[1, 2, 3], Some(3));
    again.carried = entries(&[(1, 5), (2, 6), (3, 7)]);
    layout.toggle_expose_all_outputs(&[g(5), g(6), g(7)], &[], again);
    assert!(layout.is_all_outputs_expose_open());
    assert_eq!(motions(&layout), vec![(5, 100), (6, 200), (7, 300)]);
}

#[test]
fn interrupted_transitions_restart_from_current_geometry() {
    let mut layout = opened(1, None);
    layout.transition_all_outputs_to_local_expose(&[g(5), g(6), g(7)], &entries(&[(1, 50)]));
    assert!(!layout.is_all_outputs_expose_open());
    assert_eq!(local_open(&layout), vec![true, false]);
    // Midway, the all-outputs exposé is toggled back on from the current geometry.
    let mut back = plan(&[1, 2, 3], None);
    back.carried = entries(&[(1, 27), (2, 6), (3, 7)]);
    layout.toggle_expose_all_outputs(&[g(27), g(6), g(7)], &[], back);
    assert!(layout.is_all_outputs_expose_open());
    assert_eq!(local_open(&layout), vec![false, false]);
    assert_eq!(motions(&layout), vec![(27, 100), (6, 200), (7, 300)]);

    layout.transition_all_outputs_to_overview(
        &[g(100), g(200), g(300)],
        &[(1, Some(1)), (2, Some(2)), (3, Some(1))],
        &entries(&[(1, 1), (2, 2), (3, 3)]),
    );
    layout.set_overview(true, true);
    let mut back = plan(&[1, 2, 3], None);
    back.carried = entries(&[(1, 50), (2, 200), (3, 150)]);
    layout.toggle_expose_all_outputs(&[g(50), g(200), g(150)], &[], back);
    assert!(layout.is_all_outputs_expose_open());
    assert!(!layout.is_overview_open());
    assert_eq!(motions(&layout), vec![(50, 100), (200, 200), (150, 300)]);
}

#[test]
fn refresh_reopens_only_when_the_grid_changed() {
    let mut layout = opened(1, None);
    assert_eq!(
        layout.refresh_all_outputs_expose(plan(&[1, 2, 3], None)),
        RefreshAction::Unchanged
    );
    assert_eq!(motions(&layout), vec![(10, 100), (20, 200), (30, 300)]);
    // A window closed and another opened: the grid is planned again.
    assert_eq!(
        layout.refresh_all_outputs_expose(plan(&[1, 3, 4], Some(4))),
        RefreshAction::Reopened
    );
    assert!(layout.is_all_outputs_expose_open());
    assert_eq!(layout.all_outputs_expose_output(), Some(1));
    assert_eq!(motions(&layout), vec![(10, 100), (30, 300), (40, 400)]);
    assert_eq!(selected(&layout), Some(4));
    // A window changed size.
    let mut resized = plan(&[1, 3, 4], None);
    resized.windows[1].size = Size { w: 101, h: 50 };
    assert_eq!(layout.refresh_all_outputs_expose(resized), RefreshAction::Reopened);
    // The host's working area changed.
    layout.set_monitors(vec![
        Monitor {
            working_area: Rect::new(0, 0, 1920, 1000),
            ..monitor(1)
        },
        monitor(2),
    ]);
    assert_eq!(
        layout.refresh_all_outputs_expose(plan(&[1, 3, 4], None)),
        RefreshAction::Reopened
    );
    assert_eq!(
        layout.all_outputs_expose().as_ref().unwrap().area(),
        Rect::new(0, 0, 1920, 1000)
    );
    // The host output went away.
    layout.set_monitors(vec![monitor(2)]);
    assert_eq!(
        layout.refresh_all_outputs_expose(plan(&[1, 3, 4], None)),
        RefreshAction::Closed
    );
    assert_eq!(layout.all_outputs_expose_output(), None);
}

#[test]
fn refresh_leaves_a_closing_expose_alone() {
    let mut layout = opened(1, None);
    layout.close_all_outputs_expose(&[g(1), g(2), g(3)], &[]);
    layout.set_monitors(Vec::new());
    assert_eq!(layout.refresh_all_outputs_expose(plan(&[], None)), RefreshAction::Unchanged);
    assert_eq!(layout.all_outputs_expose_output(), Some(1));
}

#[test]
fn keyboard_navigation_cycles_and_keeps_the_host() {
    let mut layout = opened(1, Some(2));
    let mut seen = Vec::new();
    for _ in 0..3 {
        layout.cycle_all_outputs_expose(true, plan(&[1, 2, 3], None));
        seen.push(selected(&layout).unwrap());
        assert_eq!(layout.all_outputs_expose_output(), Some(1));
        assert!(layout.is_all_outputs_expose_open());
    }
    assert_eq!(seen, vec![3, 1, 2]);
    layout.cycle_all_outputs_expose(false, plan(&[1, 2, 3], None));
    assert_eq!(selected(&layout), Some(1));
}

#[test]
fn navigation_acts_on_the_refreshed_grid() {
    let mut layout = opened(1, Some(3));
    // Window 2 closed meanwhile: the grid is planned again before cycling.
    layout.cycle_all_outputs_expose(true, plan(&[1, 3], Some(3)));
    assert_eq!(selected(&layout), Some(1));
    assert_eq!(motions(&layout), vec![(10, 100), (30, 300)]);
}

#[test]
fn arrow_navigation_moves_within_rows_of_the_planned_grid() {
    let mut layout = layout_with_monitors(1);
    let mut p = plan(&[1, 2, 3], Some(1));
    p.targets = vec![
        Rect::new(0, 0, 100, 100),
        Rect::new(150, 0, 100, 100),
        Rect::new(0, 200, 100, 100),
    ];
    layout.open_all_outputs_expose(1, p);
    let same = || {
        let mut p = plan(&[1, 2, 3], None);
        p.targets = Vec::new();
        p
    };
    layout.focus_all_outputs_expose(ExposeDirection::Right, same());
    assert_eq!(selected(&layout), Some(2));
    layout.focus_all_outputs_expose(ExposeDirection::Right, same());
    assert_eq!(selected(&layout), Some(2));
    layout.focus_all_outputs_expose(ExposeDirection::Left, same());
    assert_eq!(selected(&layout), Some(1));
    layout.focus_all_outputs_expose(ExposeDirection::Down, same());
    assert_eq!(selected(&layout), Some(3));
}

#[test]
fn navigation_without_an_expose_changes_nothing() {
    let mut layout = layout_with_monitors(1);
    layout.cycle_all_outputs_expose(true, plan(&[1], None));
    layout.focus_all_outputs_expose(ExposeDirection::Down, plan(&[1], None));
    layout.close_all_outputs_expose(&[], &[]);
    layout.transition_all_outputs_to_local_expose(&[], &[]);
    layout.transition_all_outputs_to_overview(&[], &[], &[]);
    layout.advance_all_outputs_expose(true, &[], &[]);
    assert!(layout.all_outputs_expose().is_none());
    assert_eq!(local_open(&layout), vec![false, false]);
}

#[test]
fn closing_to_the_layout_follows_the_layout_then_finishes() {
    let mut layout = opened(1, Some(3));
    layout.advance_all_outputs_expose(true, &entries(&[(1, 1)]), &[]);
    assert_eq!(motions(&layout), vec![(10, 100), (20, 200), (30, 300)]);
    layout.close_all_outputs_expose(&[g(5), g(6), g(7)], &entries(&[(2, 60)]));
    {
        let e = layout.all_outputs_expose().as_ref().unwrap();
        assert!(!e.is_open());
        assert_eq!(e.destination(), Destination::Layout);
        assert_eq!(e.selected_window(), Some(3));
    }
    assert_eq!(motions(&layout), vec![(5, 100), (6, 60), (7, 300)]);
    layout.advance_all_outputs_expose(false, &entries(&[(1, 70)]), &entries(&[(1, 80)]));
    assert_eq!(motions(&layout), vec![(5, 70), (6, 60), (7, 300)]);
    layout.advance_all_outputs_expose(true, &[], &[]);
    assert_eq!(layout.all_outputs_expose_output(), None);
}

#[test]
fn handing_over_to_the_local_expose_opens_it_on_the_host() {
    let mut layout = opened(2, None);
    layout.transition_all_outputs_to_local_expose(&[g(5), g(6), g(7)], &entries(&[(1, 50), (3, 70)]));
    assert!(!layout.is_all_outputs_expose_open());
    assert_eq!(local_open(&layout), vec![false, true]);
    let e = layout.all_outputs_expose().as_ref().unwrap();
    assert_eq!(e.destination(), Destination::LocalExpose);
    assert_eq!(motions(&layout), vec![(5, 50), (6, 6), (7, 70)]);
    // While closing, the windows follow their places in the local exposé.
    layout.advance_all_outputs_expose(false, &entries(&[(1, 1)]), &entries(&[(2, 66)]));
    assert_eq!(motions(&layout), vec![(5, 50), (6, 66), (7, 70)]);
    layout.advance_all_outputs_expose(true, &[], &[]);
    assert!(layout.all_outputs_expose().is_none());
    assert_eq!(local_open(&layout), vec![false, true]);
}

#[test]
fn handing_over_to_the_overview_moves_host_windows_only() {
    let mut layout = opened(1, None);
    layout.transition_all_outputs_to_overview(
        &[g(5), g(6), g(7)],
        &[(1, Some(1)), (2, Some(2)), (3, Some(1))],
        &entries(&[(1, 10), (2, 20), (3, 30)]),
    );
    let e = layout.all_outputs_expose().as_ref().unwrap();
    assert_eq!(e.destination(), Destination::Overview);
    assert_eq!(motions(&layout), vec![(5, 10), (6, 6), (7, 30)]);
    // Towards the overview the targets stay put until the transition ends.
    layout.advance_all_outputs_expose(false, &entries(&[(1, 1)]), &entries(&[(1, 2)]));
    assert_eq!(motions(&layout), vec![(5, 10), (6, 6), (7, 30)]);
    layout.advance_all_outputs_expose(true, &[], &[]);
    assert!(layout.all_outputs_expose().is_none());
}

#[test]
fn animating_depends_on_the_host_and_the_transitions() {
    let layout = opened(1, None);
    assert!(layout.all_outputs_expose_animating(None, false, false));
    assert!(layout.all_outputs_expose_animating(Some(1), true, true));
    assert!(!layout.all_outputs_expose_animating(Some(1), true, false));
    assert!(!layout.all_outputs_expose_animating(Some(2), false, true));
    let empty = Layout::new();
    assert!(!empty.all_outputs_expose_animating(None, false, true));
}

#[test]
fn remote_windows_are_rendered_only_on_the_host() {
    let layout = opened(1, None);
    let monitors = [(1u64, vec![1u64, 2]), (2, vec![3]), (3, vec![4, 5])];
    assert_eq!(
        layout.windows_rendered_on_output(1, &vec![1, 2], &monitors),
        vec![1, 2, 3, 4, 5]
    );
    assert_eq!(layout.windows_rendered_on_output(2, &vec![3], &monitors), vec![3]);
    let empty = Layout::new();
    assert_eq!(empty.windows_rendered_on_output(1, &vec![1, 2], &monitors), vec![1, 2]);
}

#[test]
fn monitor_area_uses_the_first_monitor_of_an_output() {
    let mut layout = Layout::new();
    layout.set_monitors(vec![
        monitor(1),
        Monitor {
            working_area: Rect::new(0, 0, 10, 10),
            ..monitor(1)
        },
    ]);
    assert_eq!(layout.monitor_area(1), Some(area()));
    assert_eq!(layout.monitor_area(2), None);
}
