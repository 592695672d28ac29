use vstd::prelude::*;
use crate::expose::{
    AllOutputsExpose,
    Destination,
    ExposeView,
    ExposeWindow,
    closed_windows,
    cycled,
    is_first_window,
    is_focus_step,
    is_initial_selection,
    local_handover,
    lookup,
    overview_handover,
    plan_windows,
    planned_window,
    retargeted_windows,
    shows_window,
    target_rects,
    find_entry,
};
use crate::geometry::Rect;
use crate::navigation::ExposeDirection;

verus! {

/// A monitor of the layout: its output, the working area of that output and
/// whether the exposé of that single output is open on it.
#[derive(Clone, Copy, Debug, PartialEq, Eq, Structural)]
pub struct Monitor {
    pub output: u64,
    pub working_area: Rect,
    pub expose_open: bool,
}

/// A grid planned for the all-outputs exposé on one host output: the windows
/// in opening order, each at its place in the layout (`origin`, `target`),
/// where the exposé being replaced left some of them (`carried`), their
/// places in the grid (`targets`, in window order) and the focused window.
pub struct ExposePlan {
    pub windows: Vec<ExposeWindow>,
    pub carried: Vec<(u64, Rect)>,
    pub targets: Vec<Rect>,
    pub focused: Option<u64>,
}

/// What `Layout::refresh_all_outputs_expose` did.
#[derive(Clone, Copy, Debug, PartialEq, Eq, Structural)]
pub enum RefreshAction {
    /// The grid still matched the windows, or the exposé was not open.
    Unchanged,
    /// The host output is gone and the exposé with it.
    Closed,
    /// The windows or the working area changed: the exposé opened again on
    /// the new plan.
    Reopened,
}

/// The abstract state of the layout, as far as the exposé goes.
pub ghost struct LayoutView {
    pub all_outputs_expose: Option<ExposeView>,
    /// An interactive window move is going on.
    pub interactive_move: bool,
    /// The output that has the focus.
    pub active_output: Option<u64>,
    /// The overview is open.
    pub overview_open: bool,
    /// An overview transition or gesture is going on.
    pub overview_in_progress: bool,
    /// The monitors, in layout order.
    pub monitors: Seq<Monitor>,
}

/// The layout's part in the exposé: the all-outputs exposé, the monitors
/// with their single-output exposés, and the few other facts about the
/// layout that its decisions read.
pub struct Layout {
    all_outputs_expose: Option<AllOutputsExpose>,
    interactive_move: bool,
    active_output: Option<u64>,
    overview_open: bool,
    overview_in_progress: bool,
    monitors: Vec<Monitor>,
}

/// The view of an optional exposé.
pub open spec fn expose_view(e: Option<AllOutputsExpose>) -> Option<ExposeView> {
    match e {
        Some(x) => Some(x@),
        None => None,
    }
}

/// The exposé is open.
pub open spec fn expose_open(e: Option<ExposeView>) -> bool {
    e matches Some(x) && x.open
}

/// The windows of a new plan (by id and tile size, in opening order) are
/// those the exposé shows.
pub open spec fn same_windows(ws: Seq<ExposeWindow>, fresh: Seq<ExposeWindow>) -> bool {
    &&& fresh.len() == ws.len()
    &&& forall|i: int|
        0 <= i < ws.len() ==> (#[trigger] fresh[i]).id == ws[i].id && fresh[i].size == ws[i].size
}

/// Each monitor's output paired with its working area.
pub open spec fn monitor_areas(ms: Seq<Monitor>) -> Seq<(u64, Rect)> {
    Seq::new(ms.len(), |i: int| (ms[i].output, ms[i].working_area))
}

/// The working area of the (first) monitor of `output`, if it has one.
pub open spec fn monitor_area(ms: Seq<Monitor>, output: u64) -> Option<Rect> {
    lookup(monitor_areas(ms), output)
}

/// `i` is the first monitor of `output`.
pub open spec fn is_first_monitor(ms: Seq<Monitor>, output: u64, i: int) -> bool {
    &&& 0 <= i < ms.len()
    &&& ms[i].output == output
    &&& forall|k: int| 0 <= k < i ==> ms[k].output != output
}

/// The monitors with the exposé of `output` opened on its (first) monitor.
pub open spec fn with_expose_opened(ms: Seq<Monitor>, output: u64) -> Seq<Monitor> {
    Seq::new(
        ms.len(),
        |i: int|
            if is_first_monitor(ms, output, i) {
                Monitor { expose_open: true, ..ms[i] }
            } else {
                ms[i]
            },
    )
}

/// Toggling the all-outputs exposé in `v` opens it: it is not open, no
/// interactive move is going on, and the active output has a monitor.
pub open spec fn opens_on_active(v: LayoutView) -> bool {
    &&& !expose_open(v.all_outputs_expose)
    &&& !v.interactive_move
    &&& v.active_output matches Some(o)
    &&& monitor_area(v.monitors, o) is Some
}

/// The exposé of `output` is open on its (first) monitor.
pub open spec fn local_expose_open_on(ms: Seq<Monitor>, output: u64) -> bool {
    exists|i: int| is_first_monitor(ms, output, i) && ms[i].expose_open
}

/// No single-output exposé is open.
pub open spec fn no_local_expose(ms: Seq<Monitor>) -> bool {
    forall|i: int| 0 <= i < ms.len() ==> !(#[trigger] ms[i]).expose_open
}

/// The monitors with every single-output exposé closed.
pub open spec fn cancelled(ms: Seq<Monitor>) -> Seq<Monitor> {
    Seq::new(ms.len(), |i: int| Monitor { expose_open: false, ..ms[i] })
}

/// `e` is the all-outputs exposé that `plan` opens on `output`, whose working
/// area is `area`.
pub open spec fn opens_with(e: ExposeView, output: u64, plan: ExposePlan, area: Rect) -> bool {
    &&& e.output == output
    &&& e.open
    &&& e.area == area
    &&& e.destination == Destination::Layout
    &&& is_initial_selection(plan.windows@, plan.focused, e.selected)
    &&& e.windows.len() == plan.windows.len()
    &&& forall|i: int|
        0 <= i < plan.windows.len() ==> (#[trigger] e.windows[i]) == planned_window(
            plan.windows@[i],
            i,
            plan.carried@,
            plan.targets@,
        )
}

/// Opening the all-outputs exposé of `plan` on `output` turns `old` into
/// `new`: it opens when `output` has a monitor, and nothing changes when it
/// has none.
pub open spec fn is_opened(
    old: Option<ExposeView>,
    new: Option<ExposeView>,
    monitors: Seq<Monitor>,
    output: u64,
    plan: ExposePlan,
) -> bool {
    match monitor_area(monitors, output) {
        None => new == old,
        Some(area) => match new {
            Some(f) => opens_with(f, output, plan, area),
            None => false,
        },
    }
}

/// The exposé closing towards `destination`: each window starts from its
/// current geometry and heads for the target listed for it in `targets`.
pub open spec fn closing(
    e: ExposeView,
    current: Seq<Rect>,
    targets: Seq<(u64, Rect)>,
    destination: Destination,
) -> ExposeView {
    ExposeView {
        open: false,
        destination,
        windows: closed_windows(e.windows, current, targets),
        ..e
    }
}

/// Refreshing the layout `old` against the grid `plan` (planned for the host
/// output of its all-outputs exposé) gives `new` and reports `a`: an open
/// exposé whose host output is gone is dropped; one whose host's working
/// area or windows changed opens again on `plan`; anything else stays.
pub open spec fn is_refreshed(
    old: LayoutView,
    plan: ExposePlan,
    new: LayoutView,
    a: RefreshAction,
) -> bool {
    match old.all_outputs_expose {
        Some(e) => if !e.open {
            new == old && a == RefreshAction::Unchanged
        } else {
            match monitor_area(old.monitors, e.output) {
                None => a == RefreshAction::Closed && new == (LayoutView {
                    all_outputs_expose: None,
                    ..old
                }),
                Some(area) => if area == e.area && same_windows(e.windows, plan.windows@) {
                    a == RefreshAction::Unchanged && new == old
                } else {
                    &&& a == RefreshAction::Reopened
                    &&& new == (LayoutView { all_outputs_expose: new.all_outputs_expose, ..old })
                    &&& new.all_outputs_expose matches Some(f)
                    &&& opens_with(f, e.output, plan, area)
                },
            }
        },
        None => new == old && a == RefreshAction::Unchanged,
    }
}

/// The layout with the selection of its all-outputs exposé cycled.
pub open spec fn cycled_layout(v: LayoutView, forward: bool) -> LayoutView {
    match v.all_outputs_expose {
        None => v,
        Some(e) => LayoutView {
            all_outputs_expose: Some(
                ExposeView { selected: cycled(e.selected, e.windows.len() as int, forward), ..e },
            ),
            ..v
        },
    }
}

/// `new` is `v` with the selection of its all-outputs exposé moved in
/// `direction` over the planned grid.
pub open spec fn is_focused_layout(v: LayoutView, direction: ExposeDirection, new: LayoutView) -> bool {
    match v.all_outputs_expose {
        None => new == v,
        Some(e) => exists|s: int|
            is_focus_step(target_rects(e.windows), e.selected, direction, s) && new == (LayoutView {
                all_outputs_expose: Some(ExposeView { selected: s, ..e }),
                ..v
            }),
    }
}

/// The windows shown on the other outputs' monitors, monitor by monitor:
/// `monitors` pairs each monitor's output with its windows.
pub open spec fn remote_windows(monitors: Seq<(u64, Vec<u64>)>, output: u64) -> Seq<u64>
    decreases monitors.len(),
{
    if monitors.len() == 0 {
        Seq::empty()
    } else {
        let last = monitors.last();
        remote_windows(monitors.drop_last(), output) + if last.0 != output {
            last.1@
        } else {
            Seq::empty()
        }
    }
}

/// A monitor of `output` has a working area exactly when there is a first
/// monitor of `output`.
pub proof fn lemma_monitor_area_first(ms: Seq<Monitor>, output: u64)
    ensures
        monitor_area(ms, output) is Some <==> exists|i: int| is_first_monitor(ms, output, i),
{
    let areas = monitor_areas(ms);
    if exists|i: int| is_first_monitor(ms, output, i) {
        let i = choose|i: int| is_first_monitor(ms, output, i);
        assert forall|k: int| 0 <= k < i implies (#[trigger] areas[k]).0 != output by {
            assert(ms[k].output != output);
        }
        crate::expose::lemma_lookup_first(areas, output, i);
    } else {
        assert forall|k: int| 0 <= k < areas.len() implies (#[trigger] areas[k]).0 != output by {
            if areas[k].0 == output {
                lemma_first_exists(ms, output, k);
            }
        }
        lemma_lookup_none(areas, output);
    }
}

/// When some monitor has `output`, a first one does.
proof fn lemma_first_exists(ms: Seq<Monitor>, output: u64, k: int)
    requires
        0 <= k < ms.len(),
        ms[k].output == output,
    ensures
        exists|i: int| is_first_monitor(ms, output, i),
    decreases k,
{
    if exists|m: int| 0 <= m < k && ms[m].output == output {
        let m = choose|m: int| 0 <= m < k && ms[m].output == output;
        lemma_first_exists(ms, output, m);
    } else {
        assert(is_first_monitor(ms, output, k));
    }
}

/// With no entry for `id`, `lookup` finds nothing.
proof fn lemma_lookup_none<V>(entries: Seq<(u64, V)>, id: u64)
    requires
        forall|k: int| 0 <= k < entries.len() ==> (#[trigger] entries[k]).0 != id,
    ensures
        lookup(entries, id) is None,
    decreases entries.len(),
{
    if entries.len() > 0 {
        let rest = entries.drop_first();
        assert forall|k: int| 0 <= k < rest.len() implies (#[trigger] rest[k]).0 != id by {
            assert(rest[k] == entries[k + 1]);
        }
        lemma_lookup_none(rest, id);
    }
}

/// With the exposé hosted on `output`, every window of every monitor of
/// another output is rendered there, whatever the order or the numbering of
/// the outputs; and every remote window comes from a monitor of another
/// output.
pub proof fn lemma_remote_windows_complete(monitors: Seq<(u64, Vec<u64>)>, output: u64)
    ensures
        forall|m: int, j: int|
            0 <= m < monitors.len() && monitors[m].0 != output && 0 <= j < monitors[m].1@.len()
                ==> remote_windows(monitors, output).contains(#[trigger] monitors[m].1@[j]),
        forall|x: u64|
            remote_windows(monitors, output).contains(x) ==> exists|m: int|
                0 <= m < monitors.len() && monitors[m].0 != output && (
                #[trigger] monitors[m].1@).contains(x),
    decreases monitors.len(),
{
    if monitors.len() > 0 {
        let init = monitors.drop_last();
        let last = monitors.last();
        lemma_remote_windows_complete(init, output);
        let r0 = remote_windows(init, output);
        let tail: Seq<u64> = if last.0 != output {
            last.1@
        } else {
            Seq::empty()
        };
        let r = remote_windows(monitors, output);
        assert(r == r0 + tail);
        assert forall|m: int, j: int|
            0 <= m < monitors.len() && monitors[m].0 != output && 0 <= j < monitors[m].1@.len()
                implies r.contains(#[trigger] monitors[m].1@[j]) by {
            let x = monitors[m].1@[j];
            if m < monitors.len() - 1 {
                assert(init[m] == monitors[m]);
                assert(r0.contains(init[m].1@[j]));
                let t = choose|t: int| 0 <= t < r0.len() && r0[t] == x;
                assert(r[t] == x);
            } else {
                assert(tail[j] == x);
                assert(r[r0.len() + j] == x);
            }
        }
        assert forall|x: u64| r.contains(x) implies exists|m: int|
            0 <= m < monitors.len() && monitors[m].0 != output && (
            #[trigger] monitors[m].1@).contains(x) by {
            let t = choose|t: int| 0 <= t < r.len() && r[t] == x;
            if t < r0.len() {
                assert(r0[t] == x);
                assert(r0.contains(x));
                let m = choose|m: int|
                    0 <= m < init.len() && init[m].0 != output && (#[trigger] init[m].1@).contains(
                        x,
                    );
                assert(monitors[m] == init[m]);
            } else {
                let j = t - r0.len();
                assert(tail[j] == x);
                assert(last.0 != output);
                assert(last.1@[j] == x);
                let m = monitors.len() - 1;
                assert(monitors[m] == last);
                assert(monitors[m].1@.contains(x));
            }
        }
    }
}

/// Refreshing an open exposé whose host still has a monitor opens it again
/// whenever anything the grid was planned for changed: the host's working
/// area, the number of windows, or some window's id or tile size (its width
/// or its height). It reports `Unchanged` only when all of them match.
pub proof fn lemma_refresh_reopens_on_change(
    old: LayoutView,
    plan: ExposePlan,
    new: LayoutView,
    a: RefreshAction,
)
    requires
        is_refreshed(old, plan, new, a),
        old.all_outputs_expose is Some,
        old.all_outputs_expose->0.open,
        monitor_area(old.monitors, old.all_outputs_expose->0.output) is Some,
    ensures
        ({
            let e = old.all_outputs_expose->0;
            let area = monitor_area(old.monitors, e.output)->0;
            let fresh = plan.windows@;
            &&& (area != e.area || fresh.len() != e.windows.len() || exists|i: int|
                0 <= i < e.windows.len() && 0 <= i < fresh.len() && ((#[trigger] fresh[i]).id
                    != e.windows[i].id || fresh[i].size.w != e.windows[i].size.w || fresh[i].size.h
                    != e.windows[i].size.h)) ==> a == RefreshAction::Reopened
                && new.all_outputs_expose is Some && new.all_outputs_expose->0.open
                && new.all_outputs_expose->0.output == e.output
                && new.all_outputs_expose->0.area == area
            &&& a == RefreshAction::Unchanged ==> area == e.area && fresh.len() == e.windows.len()
                && forall|i: int|
                0 <= i < fresh.len() ==> (#[trigger] fresh[i]).id == e.windows[i].id
                    && fresh[i].size.w == e.windows[i].size.w && fresh[i].size.h
                    == e.windows[i].size.h
        }),
{
    let e = old.all_outputs_expose->0;
    let fresh = plan.windows@;
    if exists|i: int|
        0 <= i < e.windows.len() && 0 <= i < fresh.len() && ((#[trigger] fresh[i]).id
            != e.windows[i].id || fresh[i].size.w != e.windows[i].size.w || fresh[i].size.h
            != e.windows[i].size.h) {
        let i = choose|i: int|
            0 <= i < e.windows.len() && 0 <= i < fresh.len() && ((#[trigger] fresh[i]).id
                != e.windows[i].id || fresh[i].size.w != e.windows[i].size.w || fresh[i].size.h
                != e.windows[i].size.h);
        assert(!same_windows(e.windows, fresh)) by {
            if same_windows(e.windows, fresh) {
                assert(fresh[i].size == e.windows[i].size);
            }
        }
    }
    if a == RefreshAction::Unchanged {
        assert forall|i: int| 0 <= i < fresh.len() implies (#[trigger] fresh[i]).id
            == e.windows[i].id && fresh[i].size.w == e.windows[i].size.w && fresh[i].size.h
            == e.windows[i].size.h by {
            assert(fresh[i].size == e.windows[i].size);
        }
    }
}

impl View for Layout {
    type V = LayoutView;

    closed spec fn view(&self) -> LayoutView {
        LayoutView {
            all_outputs_expose: expose_view(self.all_outputs_expose),
            interactive_move: self.interactive_move,
            active_output: self.active_output,
            overview_open: self.overview_open,
            overview_in_progress: self.overview_in_progress,
            monitors: self.monitors@,
        }
    }
}

impl Layout {
    /// A layout with no monitor, no all-outputs exposé, no interactive move,
    /// no active output and the overview closed.
    pub fn new() -> (r: Self)
        ensures
            r@ == (LayoutView {
                all_outputs_expose: None,
                interactive_move: false,
                active_output: None,
                overview_open: false,
                overview_in_progress: false,
                monitors: Seq::empty(),
            }),
    {
        Layout {
            all_outputs_expose: None,
            interactive_move: false,
            active_output: None,
            overview_open: false,
            overview_in_progress: false,
            monitors: Vec::new(),
        }
    }

    /// Records the monitors of the layout.
    pub fn set_monitors(&mut self, monitors: Vec<Monitor>)
        ensures
            final(self)@ == (LayoutView { monitors: monitors@, ..old(self)@ }),
    {
        self.monitors = monitors;
    }

    /// The monitors of the layout.
    pub fn monitors(&self) -> (r: &Vec<Monitor>)
        ensures
            r@ == self@.monitors,
    {
        &self.monitors
    }

    /// Records whether an interactive window move is going on.
    pub fn set_interactive_move(&mut self, active: bool)
        ensures
            final(self)@ == (LayoutView { interactive_move: active, ..old(self)@ }),
    {
        self.interactive_move = active;
    }

    /// Records which output has the focus.
    pub fn set_active_output(&mut self, output: Option<u64>)
        ensures
            final(self)@ == (LayoutView { active_output: output, ..old(self)@ }),
    {
        self.active_output = output;
    }

    pub fn active_output(&self) -> (r: Option<u64>)
        ensures
            r == self@.active_output,
    {
        self.active_output
    }

    /// Records the state of the overview.
    pub fn set_overview(&mut self, open: bool, in_progress: bool)
        ensures
            final(self)@ == (LayoutView {
                overview_open: open,
                overview_in_progress: in_progress,
                ..old(self)@
            }),
    {
        self.overview_open = open;
        self.overview_in_progress = in_progress;
    }

    pub fn is_overview_open(&self) -> (r: bool)
        ensures
            r == self@.overview_open,
    {
        self.overview_open
    }

    pub fn is_overview_in_progress(&self) -> (r: bool)
        ensures
            r == self@.overview_in_progress,
    {
        self.overview_in_progress
    }

    /// The all-outputs exposé, open or closing, if there is one.
    pub fn all_outputs_expose(&self) -> (r: &Option<AllOutputsExpose>)
        ensures
            expose_view(*r) == self@.all_outputs_expose,
    {
        &self.all_outputs_expose
    }

    /// The output that hosts the all-outputs exposé, open or closing.
    pub fn all_outputs_expose_output(&self) -> (r: Option<u64>)
        ensures
            r == (match self@.all_outputs_expose {
                Some(e) => Some(e.output),
                None => None,
            }),
    {
        match &self.all_outputs_expose {
            Some(e) => Some(e.output()),
            None => None,
        }
    }

    /// Whether the all-outputs exposé is open (not merely closing).
    pub fn is_all_outputs_expose_open(&self) -> (r: bool)
        ensures
            r == expose_open(self@.all_outputs_expose),
    {
        match &self.all_outputs_expose {
            Some(e) => e.is_open(),
            None => false,
        }
    }

    /// Whether the all-outputs exposé, open or closing, is hosted on `output`.
    pub fn is_all_outputs_expose_on_output(&self, output: u64) -> (r: bool)
        ensures
            r == (self@.all_outputs_expose matches Some(e) && e.output == output),
    {
        match &self.all_outputs_expose {
            Some(e) => e.output() == output,
            None => false,
        }
    }

    /// The working area of the (first) monitor of `output`, if it has one.
    pub fn monitor_area(&self, output: u64) -> (r: Option<Rect>)
        ensures
            r == monitor_area(self@.monitors, output),
    {
        let mut areas: Vec<(u64, Rect)> = Vec::new();
        let mut k: usize = 0;
        while k < self.monitors.len()
            invariant
                k <= self.monitors.len(),
                areas@ =~= monitor_areas(self.monitors@).take(k as int),
            decreases self.monitors.len() - k,
        {
            areas.push((self.monitors[k].output, self.monitors[k].working_area));
            k = k + 1;
        }
        assert(areas@ =~= monitor_areas(self.monitors@));
        find_entry(areas.as_slice(), output)
    }

    /// Closes the exposé of every single output.
    fn cancel_monitor_exposes(&mut self)
        ensures
            final(self)@ == (LayoutView { monitors: cancelled(old(self)@.monitors), ..old(self)@ }),
    {
        let mut k: usize = 0;
        while k < self.monitors.len()
            invariant
                k <= self.monitors.len(),
                self.monitors.len() == old(self).monitors.len(),
                forall|i: int|
                    0 <= i < self.monitors.len() ==> (#[trigger] self.monitors@[i]) == if i < k {
                        Monitor { expose_open: false, ..old(self).monitors@[i] }
                    } else {
                        old(self).monitors@[i]
                    },
                self.all_outputs_expose == old(self).all_outputs_expose,
                self.interactive_move == old(self).interactive_move,
                self.active_output == old(self).active_output,
                self.overview_open == old(self).overview_open,
                self.overview_in_progress == old(self).overview_in_progress,
            decreases self.monitors.len() - k,
        {
            let m = self.monitors[k];
            self.monitors.set(k, Monitor { expose_open: false, ..m });
            k = k + 1;
        }
        assert(self.monitors@ =~= cancelled(old(self).monitors@));
    }

    /// Opens the exposé of `output` on its (first) monitor, if it has one.
    fn open_monitor_expose(&mut self, output: u64)
        ensures
            final(self)@ == (LayoutView {
                monitors: with_expose_opened(old(self)@.monitors, output),
                ..old(self)@
            }),
    {
        let mut k: usize = 0;
        while k < self.monitors.len()
            invariant
                k <= self.monitors.len(),
                forall|m: int| 0 <= m < k ==> self.monitors@[m].output != output,
                self.monitors@ == old(self).monitors@,
                self.all_outputs_expose == old(self).all_outputs_expose,
                self.interactive_move == old(self).interactive_move,
                self.active_output == old(self).active_output,
                self.overview_open == old(self).overview_open,
                self.overview_in_progress == old(self).overview_in_progress,
            decreases self.monitors.len() - k,
        {
            if self.monitors[k].output == output {
                let m = self.monitors[k];
                let ghost before = self.monitors@;
                self.monitors.set(k, Monitor { expose_open: true, ..m });
                proof {
                    assert forall|i: int| 0 <= i < before.len() && i != k implies !is_first_monitor(
                        before,
                        output,
                        i,
                    ) by {
                        if i > k && is_first_monitor(before, output, i) {
                            assert(before[k as int].output == output);
                        }
                    }
                    assert(is_first_monitor(before, output, k as int));
                    assert(self.monitors@ =~= with_expose_opened(before, output));
                }
                return ;
            }
            k = k + 1;
        }
        assert(self.monitors@ =~= with_expose_opened(self.monitors@, output));
    }

    /// The windows drawn on `output`: its own windows `own`, followed, while
    /// the all-outputs exposé is hosted there, by the windows of every other
    /// output in the order of `monitors` (each monitor's output and
    /// windows). The windows keep the outputs they belong to.
    pub fn windows_rendered_on_output(
        &self,
        output: u64,
        own: &Vec<u64>,
        monitors: &[(u64, Vec<u64>)],
    ) -> (r: Vec<u64>)
        ensures
            r@ == own@ + if self@.all_outputs_expose matches Some(e) && e.output == output {
                remote_windows(monitors@, output)
            } else {
                Seq::empty()
            },
    {
        let include_all = self.is_all_outputs_expose_on_output(output);
        let mut r: Vec<u64> = Vec::new();
        let mut i: usize = 0;
        while i < own.len()
            invariant
                i <= own.len(),
                r@ == own@.take(i as int),
            decreases own.len() - i,
        {
            r.push(own[i]);
            assert(own@.take(i + 1) =~= own@.take(i as int).push(own@[i as int]));
            i = i + 1;
        }
        assert(own@.take(own.len() as int) =~= own@);
        if !include_all {
            assert(r@ =~= own@ + Seq::<u64>::empty());
            return r;
        }
        let mut k: usize = 0;
        assert(monitors@.take(0) =~= Seq::<(u64, Vec<u64>)>::empty());
        assert(r@ =~= own@ + remote_windows(monitors@.take(0), output));
        while k < monitors.len()
            invariant
                k <= monitors.len(),
                r@ == own@ + remote_windows(monitors@.take(k as int), output),
            decreases monitors.len() - k,
        {
            let ghost before = r@;
            let ws = &monitors[k].1;
            if monitors[k].0 != output {
                let mut j: usize = 0;
                while j < ws.len()
                    invariant
                        j <= ws.len(),
                        r@ == before + ws@.take(j as int),
                    decreases ws.len() - j,
                {
                    r.push(ws[j]);
                    assert(ws@.take(j + 1) =~= ws@.take(j as int).push(ws@[j as int]));
                    assert(r@ =~= before + ws@.take(j + 1));
                    j = j + 1;
                }
                assert(ws@.take(ws.len() as int) =~= ws@);
            }
            let ghost taken = monitors@.take(k + 1);
            assert(taken.drop_last() =~= monitors@.take(k as int));
            assert(taken.last() == monitors@[k as int]);
            assert(r@ =~= own@ + remote_windows(taken, output));
            k = k + 1;
        }
        assert(monitors@.take(monitors.len() as int) =~= monitors@);
        r
    }

    /// Opens the all-outputs exposé of `plan` on `output`, replacing any
    /// earlier one. Each window's transition starts where the exposé being
    /// replaced left it (`plan.carried`), if it did, and ends at its place in
    /// the grid (`plan.targets`); the focused window is selected when it is
    /// shown, else the first one. Nothing changes when `output` has no
    /// monitor.
    pub fn open_all_outputs_expose(&mut self, output: u64, plan: ExposePlan)
        ensures
            is_opened(
                old(self)@.all_outputs_expose,
                final(self)@.all_outputs_expose,
                old(self)@.monitors,
                output,
                plan,
            ),
            final(self)@ == (LayoutView {
                all_outputs_expose: final(self)@.all_outputs_expose,
                ..old(self)@
            }),
    {
        let area = match self.monitor_area(output) {
            None => return ,
            Some(a) => a,
        };
        let planned = plan_windows(&plan.windows, plan.carried.as_slice(), plan.targets.as_slice());
        let expose = AllOutputsExpose::new(output, planned, area, plan.focused);
        proof {
            let windows = plan.windows@;
            assert forall|i: int| 0 <= i < windows.len() implies (#[trigger] windows[i]).id
                == expose@.windows[i].id by {
                assert(expose@.windows[i] == planned_window(
                    windows[i],
                    i,
                    plan.carried@,
                    plan.targets@,
                ));
            }
            assert forall|f: u64| shows_window(windows, f) == shows_window(expose@.windows, f) by {
                if shows_window(windows, f) {
                    let i = choose|i: int| 0 <= i < windows.len() && windows[i].id == f;
                    assert(expose@.windows[i].id == f);
                }
                if shows_window(expose@.windows, f) {
                    let i = choose|i: int|
                        0 <= i < expose@.windows.len() && expose@.windows[i].id == f;
                    assert(windows[i].id == f);
                }
            }
            if let Some(f) = plan.focused {
                if shows_window(windows, f) {
                    let s = expose@.selected;
                    assert(is_first_window(expose@.windows, f, s));
                    assert(windows[s].id == f);
                    assert forall|k: int| 0 <= k < s implies windows[k].id != f by {
                        assert(expose@.windows[k].id != f);
                    }
                }
            }
        }
        self.all_outputs_expose = Some(expose);
    }

    /// Toggles the all-outputs exposé.
    ///
    /// When it is open, it starts closing towards the layout: each window
    /// moves from its current geometry (`current`) to its place in the layout
    /// (`native`), and every single-output exposé closes too. Otherwise,
    /// unless an interactive move is going on or no output is active, it
    /// opens with `plan` on the active output (when that output has a
    /// monitor), the single-output exposés close and so does the overview.
    pub fn toggle_expose_all_outputs(
        &mut self,
        current: &[Rect],
        native: &[(u64, Rect)],
        plan: ExposePlan,
    )
        requires
            old(self)@.all_outputs_expose matches Some(e) ==> current.len() == e.windows.len(),
        ensures
            expose_open(old(self)@.all_outputs_expose) ==> final(self)@ == (LayoutView {
                all_outputs_expose: Some(
                    closing(
                        old(self)@.all_outputs_expose->0,
                        current@,
                        native@,
                        Destination::Layout,
                    ),
                ),
                monitors: cancelled(old(self)@.monitors),
                ..old(self)@
            }),
            !expose_open(old(self)@.all_outputs_expose) && (old(self)@.interactive_move
                || old(self)@.active_output is None) ==> final(self)@ == old(self)@,
            !expose_open(old(self)@.all_outputs_expose) && !old(self)@.interactive_move
                && old(self)@.active_output is Some ==> is_opened(
                old(self)@.all_outputs_expose,
                final(self)@.all_outputs_expose,
                old(self)@.monitors,
                old(self)@.active_output->0,
                plan,
            ) && final(self)@ == (LayoutView {
                all_outputs_expose: final(self)@.all_outputs_expose,
                monitors: cancelled(old(self)@.monitors),
                overview_open: false,
                overview_in_progress: false,
                ..old(self)@
            }),
            expose_open(old(self)@.all_outputs_expose) ==> {
                &&& !expose_open(final(self)@.all_outputs_expose)
                &&& no_local_expose(final(self)@.monitors)
                &&& final(self)@.all_outputs_expose is Some
                &&& final(self)@.all_outputs_expose->0.output
                    == old(self)@.all_outputs_expose->0.output
            },
            opens_on_active(old(self)@) ==> {
                &&& expose_open(final(self)@.all_outputs_expose)
                &&& final(self)@.all_outputs_expose->0.output == old(self)@.active_output->0
                &&& no_local_expose(final(self)@.monitors)
                &&& !final(self)@.overview_open
            },
    {
        if self.is_all_outputs_expose_open() {
            self.close_all_outputs_expose(current, native);
            self.cancel_monitor_exposes();
            return ;
        }
        if self.interactive_move {
            return ;
        }
        let output = match self.active_output {
            None => return ,
            Some(o) => o,
        };
        self.open_all_outputs_expose(output, plan);
        self.cancel_monitor_exposes();
        self.overview_open = false;
        self.overview_in_progress = false;
    }

    /// Checks an open all-outputs exposé against the present layout; `plan`
    /// is the grid planned now for its host output. Without a monitor for the
    /// host the exposé is dropped; when the host's working area or the
    /// windows (ids and tile sizes, in opening order) differ, it opens again
    /// with `plan`; otherwise nothing changes.
    pub fn refresh_all_outputs_expose(&mut self, plan: ExposePlan) -> (a: RefreshAction)
        ensures
            is_refreshed(old(self)@, plan, final(self)@, a),
    {
        let (output, old_area) = match &self.all_outputs_expose {
            None => return RefreshAction::Unchanged,
            Some(e) => {
                if !e.is_open() {
                    return RefreshAction::Unchanged;
                }
                (e.output(), e.area())
            },
        };
        let area = match self.monitor_area(output) {
            None => {
                self.all_outputs_expose = None;
                return RefreshAction::Closed;
            },
            Some(a) => a,
        };
        let unchanged = match &self.all_outputs_expose {
            None => true,
            Some(e) => {
                let ws = e.windows();
                let fresh = &plan.windows;
                let mut same = area == old_area && fresh.len() == ws.len();
                let mut k: usize = 0;
                while same && k < ws.len()
                    invariant
                        k <= ws.len(),
                        same ==> fresh.len() == ws.len() && area == old_area,
                        same ==> forall|i: int|
                            0 <= i < k ==> (#[trigger] fresh@[i]).id == ws@[i].id && fresh@[i].size
                                == ws@[i].size,
                        !same ==> !(area == old_area && same_windows(ws@, fresh@)),
                    decreases ws.len() - k,
                {
                    if fresh[k].id != ws[k].id || fresh[k].size != ws[k].size {
                        same = false;
                    }
                    k = k + 1;
                }
                same
            },
        };
        if unchanged {
            RefreshAction::Unchanged
        } else {
            self.open_all_outputs_expose(output, plan);
            RefreshAction::Reopened
        }
    }

    /// Refreshes the all-outputs exposé against `plan`, then selects its next
    /// (or previous) window, wrapping around.
    pub fn cycle_all_outputs_expose(&mut self, forward: bool, plan: ExposePlan)
        ensures
            exists|mid: LayoutView, a: RefreshAction|
                is_refreshed(old(self)@, plan, mid, a) && final(self)@ == cycled_layout(
                    mid,
                    forward,
                ),
    {
        let ghost plan_v = plan;
        let a = self.refresh_all_outputs_expose(plan);
        let ghost mid = self@;
        match &mut self.all_outputs_expose {
            Some(e) => e.cycle(forward),
            None => {},
        }
        assert(is_refreshed(old(self)@, plan_v, mid, a) && self@ == cycled_layout(mid, forward));
    }

    /// Refreshes the all-outputs exposé against `plan`, then moves its
    /// selection in `direction` over its planned grid.
    pub fn focus_all_outputs_expose(&mut self, direction: ExposeDirection, plan: ExposePlan)
        ensures
            exists|mid: LayoutView, a: RefreshAction|
                is_refreshed(old(self)@, plan, mid, a) && is_focused_layout(
                    mid,
                    direction,
                    final(self)@,
                ),
    {
        let ghost plan_v = plan;
        let a = self.refresh_all_outputs_expose(plan);
        let ghost mid = self@;
        match &mut self.all_outputs_expose {
            Some(e) => e.focus(direction),
            None => {},
        }
        proof {
            if let Some(e) = mid.all_outputs_expose {
                let s = self@.all_outputs_expose->0.selected;
                assert(is_focus_step(target_rects(e.windows), e.selected, direction, s));
            }
        }
        assert(is_refreshed(old(self)@, plan_v, mid, a) && is_focused_layout(mid, direction, self@));
    }

    /// Starts closing the all-outputs exposé towards `destination`: every
    /// window moves from its current geometry (`current[i]`) to the target
    /// listed for it in `targets`, keeping its target when none is listed.
    pub fn close_all_outputs_expose_to(
        &mut self,
        current: &[Rect],
        targets: &[(u64, Rect)],
        destination: Destination,
    )
        requires
            old(self)@.all_outputs_expose matches Some(e) ==> current.len() == e.windows.len(),
        ensures
            final(self)@ == (LayoutView {
                all_outputs_expose: match old(self)@.all_outputs_expose {
                    Some(e) => Some(closing(e, current@, targets@, destination)),
                    None => None,
                },
                ..old(self)@
            }),
    {
        match &mut self.all_outputs_expose {
            Some(e) => e.close_to(current, targets, destination),
            None => {},
        }
    }

    /// Closes the all-outputs exposé towards the ordinary layout: the windows
    /// move to their places in it (`native`).
    pub fn close_all_outputs_expose(&mut self, current: &[Rect], native: &[(u64, Rect)])
        requires
            old(self)@.all_outputs_expose matches Some(e) ==> current.len() == e.windows.len(),
        ensures
            final(self)@ == (LayoutView {
                all_outputs_expose: match old(self)@.all_outputs_expose {
                    Some(e) => Some(closing(e, current@, native@, Destination::Layout)),
                    None => None,
                },
                ..old(self)@
            }),
    {
        self.close_all_outputs_expose_to(current, native, Destination::Layout);
    }

    /// Hands the all-outputs exposé over to the exposé of its host output:
    /// that exposé opens on the host's monitor, and each window moves from
    /// where it is to its place there (`local`), or stays where it is when it
    /// has none.
    pub fn transition_all_outputs_to_local_expose(&mut self, current: &[Rect], local: &[(u64, Rect)])
        requires
            old(self)@.all_outputs_expose matches Some(e) ==> current.len() == e.windows.len(),
        ensures
            match old(self)@.all_outputs_expose {
                None => final(self)@ == old(self)@,
                Some(e) => final(self)@ == (LayoutView {
                    all_outputs_expose: Some(
                        closing(
                            e,
                            current@,
                            local_handover(e.windows, current@, local@),
                            Destination::LocalExpose,
                        ),
                    ),
                    monitors: with_expose_opened(old(self)@.monitors, e.output),
                    ..old(self)@
                }),
            },
            match old(self)@.all_outputs_expose {
                None => true,
                Some(e) => !expose_open(final(self)@.all_outputs_expose) && (monitor_area(
                    old(self)@.monitors,
                    e.output,
                ) is Some ==> local_expose_open_on(final(self)@.monitors, e.output)),
            },
    {
        let host = match &self.all_outputs_expose {
            Some(e) => e.output(),
            None => return ,
        };
        self.open_monitor_expose(host);
        let targets = match &self.all_outputs_expose {
            Some(e) => e.local_expose_targets(current, local),
            None => return ,
        };
        self.close_all_outputs_expose_to(current, targets.as_slice(), Destination::LocalExpose);
        proof {
            let ms = old(self)@.monitors;
            if monitor_area(ms, host) is Some {
                lemma_monitor_area_first(ms, host);
                let i = choose|i: int| is_first_monitor(ms, host, i);
                assert(is_first_monitor(self@.monitors, host, i));
                assert(self@.monitors[i].expose_open);
            }
        }
    }

    /// Hands the all-outputs exposé over to the overview: a window of the
    /// host output (by `owners`, which pairs windows with the outputs they
    /// live on) moves to its place in the overview (`overview`); every other
    /// window stays where it is.
    pub fn transition_all_outputs_to_overview(
        &mut self,
        current: &[Rect],
        owners: &[(u64, Option<u64>)],
        overview: &[(u64, Rect)],
    )
        requires
            old(self)@.all_outputs_expose matches Some(e) ==> current.len() == e.windows.len(),
        ensures
            match old(self)@.all_outputs_expose {
                None => final(self)@ == old(self)@,
                Some(e) => final(self)@ == (LayoutView {
                    all_outputs_expose: Some(
                        closing(
                            e,
                            current@,
                            overview_handover(e.windows, current@, owners@, overview@, e.output),
                            Destination::Overview,
                        ),
                    ),
                    ..old(self)@
                }),
            },
    {
        let targets = match &self.all_outputs_expose {
            Some(e) => e.overview_targets(current, owners, overview),
            None => return ,
        };
        self.close_all_outputs_expose_to(current, targets.as_slice(), Destination::Overview);
    }

    /// One step of a closing all-outputs exposé; `animation_done` tells
    /// whether its transition is over.
    ///
    /// An exposé whose transition is over is dropped. While it is still
    /// closing towards the layout or towards the exposé of its host output,
    /// its windows follow their present places there (`native` or `local`:
    /// a window keeps its target when the list has none for it); towards the
    /// overview they keep their targets. An open exposé is left alone.
    pub fn advance_all_outputs_expose(
        &mut self,
        animation_done: bool,
        native: &[(u64, Rect)],
        local: &[(u64, Rect)],
    )
        ensures
            match old(self)@.all_outputs_expose {
                None => final(self)@ == old(self)@,
                Some(e) => if e.open {
                    final(self)@ == old(self)@
                } else if animation_done {
                    final(self)@ == (LayoutView { all_outputs_expose: None, ..old(self)@ })
                } else {
                    final(self)@ == (LayoutView {
                        all_outputs_expose: Some(
                            match e.destination {
                                Destination::Layout => ExposeView {
                                    windows: retargeted_windows(e.windows, native@),
                                    ..e
                                },
                                Destination::LocalExpose => ExposeView {
                                    windows: retargeted_windows(e.windows, local@),
                                    ..e
                                },
                                Destination::Overview => e,
                            },
                        ),
                        ..old(self)@
                    })
                },
            },
    {
        let destination = match &self.all_outputs_expose {
            None => return ,
            Some(e) => {
                if e.is_open() {
                    return ;
                }
                e.destination()
            },
        };
        if animation_done {
            self.all_outputs_expose = None;
            return ;
        }
        match &mut self.all_outputs_expose {
            Some(e) => match destination {
                Destination::Layout => e.retarget_windows(native),
                Destination::LocalExpose => e.retarget_windows(local),
                Destination::Overview => {},
            },
            None => {},
        }
    }

    /// Whether the all-outputs exposé (hosted on `output`, when one is given)
    /// is still moving: its own transition is not over (`animation_done`) or
    /// some monitor is animating (`monitors_animating`).
    pub fn all_outputs_expose_animating(
        &self,
        output: Option<u64>,
        animation_done: bool,
        monitors_animating: bool,
    ) -> (r: bool)
        ensures
            r == (self@.all_outputs_expose matches Some(e) && (output matches Some(o) ==> e.output
                == o) && (!animation_done || monitors_animating)),
    {
        match &self.all_outputs_expose {
            None => false,
            Some(e) => {
                let on_output = match output {
                    None => true,
                    Some(o) => e.output() == o,
                };
                on_output && (!animation_done || monitors_animating)
            },
        }
    }
}

} // verus!
