use vstd::prelude::*;
use crate::geometry::{Point, Rect, Size};
use crate::navigation::{ExposeDirection, is_neighbor, neighbor};

verus! {

/// Where an exposé that is closing hands its windows over to.
#[derive(Clone, Copy, Debug, PartialEq, Eq, Structural)]
pub enum Destination {
    /// The ordinary layout.
    Layout,
    /// The exposé of a single output.
    LocalExpose,
    /// The overview.
    Overview,
}

/// One window shown in the all-outputs exposé.
///
/// `size` is the window's tile size, by which a change of the window is
/// noticed; `origin` and `target` are the start and the end of its current
/// transition, relative to the host output.
#[derive(Clone, Copy, Debug, PartialEq, Eq, Structural)]
pub struct ExposeWindow {
    pub id: u64,
    pub size: Size,
    pub origin: Rect,
    pub target: Rect,
}

/// The abstract state of an all-outputs exposé.
pub ghost struct ExposeView {
    /// The output that hosts the exposé.
    pub output: u64,
    /// Whether the exposé is open (false while it closes).
    pub open: bool,
    /// The windows, in opening order.
    pub windows: Seq<ExposeWindow>,
    /// The working area of the host output that the grid was planned for.
    pub area: Rect,
    /// The index of the selected window.
    pub selected: int,
    /// Where the windows go once the exposé has closed.
    pub destination: Destination,
}

/// The exposé shows a window with this id.
pub open spec fn shows_window(ws: Seq<ExposeWindow>, id: u64) -> bool {
    exists|i: int| 0 <= i < ws.len() && ws[i].id == id
}

/// `i` is the first window with this id.
pub open spec fn is_first_window(ws: Seq<ExposeWindow>, id: u64, i: int) -> bool {
    &&& 0 <= i < ws.len()
    &&& ws[i].id == id
    &&& forall|k: int| 0 <= k < i ==> ws[k].id != id
}

/// The selection of a freshly opened exposé: the focused window when it is
/// shown, else the first window.
pub open spec fn is_initial_selection(
    ws: Seq<ExposeWindow>,
    focused: Option<u64>,
    sel: int,
) -> bool {
    match focused {
        Some(f) => if shows_window(ws, f) {
            is_first_window(ws, f, sel)
        } else {
            sel == 0
        },
        None => sel == 0,
    }
}

/// The value paired with `id` in a list of `(id, value)` entries: the first
/// such entry.
pub open spec fn lookup<V>(entries: Seq<(u64, V)>, id: u64) -> Option<V>
    decreases entries.len(),
{
    if entries.len() == 0 {
        None
    } else if entries[0].0 == id {
        Some(entries[0].1)
    } else {
        lookup(entries.drop_first(), id)
    }
}

/// The target that a window takes from a list of `(id, target)` entries:
/// the entry for its id, or its present target when there is none.
pub open spec fn retarget(w: ExposeWindow, targets: Seq<(u64, Rect)>) -> Rect {
    match lookup(targets, w.id) {
        Some(t) => t,
        None => w.target,
    }
}

/// The windows of a closing exposé: each starts from its current geometry
/// `current[i]` and heads for the target listed for it in `targets`.
pub open spec fn closed_windows(
    ws: Seq<ExposeWindow>,
    current: Seq<Rect>,
    targets: Seq<(u64, Rect)>,
) -> Seq<ExposeWindow> {
    Seq::new(
        ws.len(),
        |i: int|
            ExposeWindow {
                id: ws[i].id,
                size: ws[i].size,
                origin: current[i],
                target: retarget(ws[i], targets),
            },
    )
}

/// The windows with their targets replaced by those `targets` lists.
pub open spec fn retargeted_windows(ws: Seq<ExposeWindow>, targets: Seq<(u64, Rect)>) -> Seq<
    ExposeWindow,
> {
    Seq::new(ws.len(), |i: int| ExposeWindow { target: retarget(ws[i], targets), ..ws[i] })
}

/// The planned grid: the target rectangle of each window.
pub open spec fn target_rects(ws: Seq<ExposeWindow>) -> Seq<Rect> {
    Seq::new(ws.len(), |i: int| ws[i].target)
}

/// The windows drawn from place `lo` on, front to back (the last window
/// first): a window is drawn when it still has a tile (`tiles` lists the ids
/// of those that do), with its focus ring when `ring_on` and it is the
/// selected one (`selected`).
pub open spec fn drawing_list(
    ws: Seq<ExposeWindow>,
    lo: int,
    tiles: Seq<u64>,
    ring_on: bool,
    selected: int,
) -> Seq<(u64, bool)>
    decreases ws.len() - lo,
{
    if lo < 0 || lo >= ws.len() {
        Seq::empty()
    } else {
        drawing_list(ws, lo + 1, tiles, ring_on, selected) + if tiles.contains(ws[lo].id) {
            seq![(ws[lo].id, ring_on && lo == selected)]
        } else {
            Seq::empty()
        }
    }
}

/// `e` is the entry of a window at place `lo` or later that still has a
/// tile: its id, with the focus ring exactly when rings are on and that
/// window is the selected one.
pub open spec fn is_drawn_entry(
    ws: Seq<ExposeWindow>,
    lo: int,
    tiles: Seq<u64>,
    ring_on: bool,
    selected: int,
    e: (u64, bool),
) -> bool {
    exists|i: int|
        lo <= i < ws.len() && tiles.contains(ws[i].id) && e == (ws[i].id, ring_on && i == selected)
}

/// What the drawing list holds: every entry is a window that still has a
/// tile, and its focus-ring flag is set exactly when rings are on and that
/// window is the selected one (by its place among the windows, not by its
/// place in the drawing list); the selected window, when it has a tile, is
/// drawn with the ring whenever rings are on; no window is drawn twice over.
pub proof fn lemma_drawing_rings(
    ws: Seq<ExposeWindow>,
    tiles: Seq<u64>,
    ring_on: bool,
    selected: int,
)
    ensures
        drawing_list(ws, 0, tiles, ring_on, selected).len() <= ws.len(),
        forall|k: int|
            0 <= k < drawing_list(ws, 0, tiles, ring_on, selected).len() ==> is_drawn_entry(
                ws,
                0,
                tiles,
                ring_on,
                selected,
                #[trigger] drawing_list(ws, 0, tiles, ring_on, selected)[k],
            ),
        0 <= selected < ws.len() && tiles.contains(ws[selected].id) ==> drawing_list(
            ws,
            0,
            tiles,
            ring_on,
            selected,
        ).contains((ws[selected].id, ring_on)),
{
    lemma_drawing_list_from(ws, 0, tiles, ring_on, selected);
}

proof fn lemma_drawing_list_from(
    ws: Seq<ExposeWindow>,
    lo: int,
    tiles: Seq<u64>,
    ring_on: bool,
    selected: int,
)
    requires
        0 <= lo <= ws.len(),
    ensures
        drawing_list(ws, lo, tiles, ring_on, selected).len() <= ws.len() - lo,
        forall|k: int|
            0 <= k < drawing_list(ws, lo, tiles, ring_on, selected).len() ==> is_drawn_entry(
                ws,
                lo,
                tiles,
                ring_on,
                selected,
                #[trigger] drawing_list(ws, lo, tiles, ring_on, selected)[k],
            ),
        lo <= selected < ws.len() && tiles.contains(ws[selected].id) ==> drawing_list(
            ws,
            lo,
            tiles,
            ring_on,
            selected,
        ).contains((ws[selected].id, ring_on)),
    decreases ws.len() - lo,
{
    if lo < ws.len() {
        lemma_drawing_list_from(ws, lo + 1, tiles, ring_on, selected);
        let rest = drawing_list(ws, lo + 1, tiles, ring_on, selected);
        let d = drawing_list(ws, lo, tiles, ring_on, selected);
        let extra: Seq<(u64, bool)> = if tiles.contains(ws[lo].id) {
            seq![(ws[lo].id, ring_on && lo == selected)]
        } else {
            Seq::empty()
        };
        assert(d == rest + extra);
        assert forall|k: int| 0 <= k < d.len() implies is_drawn_entry(
            ws,
            lo,
            tiles,
            ring_on,
            selected,
            #[trigger] d[k],
        ) by {
            if k < rest.len() {
                assert(d[k] == rest[k]);
                assert(is_drawn_entry(ws, lo + 1, tiles, ring_on, selected, rest[k]));
                let i = choose|i: int|
                    lo + 1 <= i < ws.len() && tiles.contains(ws[i].id) && rest[k] == (
                        ws[i].id,
                        ring_on && i == selected,
                    );
                assert(lo <= i < ws.len());
            } else {
                assert(d[k] == extra[k - rest.len()]);
                assert(tiles.contains(ws[lo].id));
                assert(lo <= lo < ws.len() && tiles.contains(ws[lo].id) && d[k] == (
                    ws[lo].id,
                    ring_on && lo == selected,
                ));
            }
        }
        if lo <= selected < ws.len() && tiles.contains(ws[selected].id) {
            if selected == lo {
                assert(d[rest.len() as int] == (ws[selected].id, ring_on));
            } else {
                let k = choose|k: int| 0 <= k < rest.len() && rest[k] == (ws[selected].id, ring_on);
                assert(d[k] == rest[k]);
            }
        }
    }
}

/// The selection after cycling through `n` windows from `s`.
pub open spec fn cycled(s: int, n: int, forward: bool) -> int {
    if n == 0 {
        s
    } else if forward {
        (s + 1) % n
    } else {
        (s + n - 1) % n
    }
}

/// `i` is the topmost (last in order) rectangle that holds `pos`.
pub open spec fn is_topmost_at(rects: Seq<Rect>, pos: Point, i: int) -> bool {
    &&& 0 <= i < rects.len()
    &&& rects[i].has_point(pos)
    &&& forall|k: int| i < k < rects.len() ==> !rects[k].has_point(pos)
}

/// The selection that navigating in `direction` over the planned grid
/// `targets` leads to from `s`: the neighbour, or `s` when there is none.
pub open spec fn is_focus_step(
    targets: Seq<Rect>,
    s: int,
    direction: ExposeDirection,
    next: int,
) -> bool {
    ||| (is_neighbor(targets, s, direction, None) && next == s)
    ||| is_neighbor(targets, s, direction, Some(next))
}

/// A window lives on the output `host` by the first entry for it in
/// `owners` (window id, output it lives on, if any).
pub open spec fn lives_on(owners: Seq<(u64, Option<u64>)>, id: u64, host: u64) -> bool {
    lookup(owners, id) == Some(Some(host))
}

/// Where a window goes when the all-outputs exposé on `host` hands over to
/// the overview: a window of the host output goes to its overview target
/// when there is one; everything else stays at `current`.
pub open spec fn overview_target(
    owners: Seq<(u64, Option<u64>)>,
    overview: Seq<(u64, Rect)>,
    host: u64,
    id: u64,
    current: Rect,
) -> Rect {
    if lives_on(owners, id, host) {
        match lookup(overview, id) {
            Some(t) => t,
            None => current,
        }
    } else {
        current
    }
}

/// The `(id, target)` list for handing the windows `ws` over to the exposé
/// of a single output whose targets `local` lists: each window's entry is its
/// target there, or its current geometry `current[k]` when it has none.
pub open spec fn local_handover(
    ws: Seq<ExposeWindow>,
    current: Seq<Rect>,
    local: Seq<(u64, Rect)>,
) -> Seq<(u64, Rect)> {
    Seq::new(
        ws.len(),
        |k: int|
            (
                ws[k].id,
                match lookup(local, ws[k].id) {
                    Some(t) => t,
                    None => current[k],
                },
            ),
    )
}

/// The `(id, target)` list for handing the windows `ws` of the exposé on
/// `host` over to the overview.
pub open spec fn overview_handover(
    ws: Seq<ExposeWindow>,
    current: Seq<Rect>,
    owners: Seq<(u64, Option<u64>)>,
    overview: Seq<(u64, Rect)>,
    host: u64,
) -> Seq<(u64, Rect)> {
    Seq::new(
        ws.len(),
        |k: int| (ws[k].id, overview_target(owners, overview, host, ws[k].id, current[k])),
    )
}

/// The first entry for an id is the one that `lookup` finds.
pub proof fn lemma_lookup_first<V>(entries: Seq<(u64, V)>, id: u64, i: int)
    requires
        0 <= i < entries.len(),
        entries[i].0 == id,
        forall|k: int| 0 <= k < i ==> (#[trigger] entries[k]).0 != id,
    ensures
        lookup(entries, id) == Some(entries[i].1),
    decreases i,
{
    if i > 0 {
        assert(entries[0].0 != id);
        let rest = entries.drop_first();
        assert forall|k: int| 0 <= k < i - 1 implies (#[trigger] rest[k]).0 != id by {
            assert(rest[k] == entries[k + 1]);
        }
        lemma_lookup_first(rest, id, i - 1);
    }
}

/// When window `i` is the first with its id (as when all ids differ), a
/// handover moves it to the target listed for it, or keeps it where it is.
pub proof fn lemma_handover_target(
    ws: Seq<ExposeWindow>,
    current: Seq<Rect>,
    owners: Seq<(u64, Option<u64>)>,
    local: Seq<(u64, Rect)>,
    host: u64,
    i: int,
)
    requires
        is_first_window(ws, ws[i].id, i),
    ensures
        retarget(ws[i], local_handover(ws, current, local)) == match lookup(local, ws[i].id) {
            Some(t) => t,
            None => current[i],
        },
        retarget(ws[i], overview_handover(ws, current, owners, local, host)) == overview_target(
            owners,
            local,
            host,
            ws[i].id,
            current[i],
        ),
{
    let a = local_handover(ws, current, local);
    let b = overview_handover(ws, current, owners, local, host);
    assert forall|k: int| 0 <= k < i implies (#[trigger] a[k]).0 != ws[i].id by {
        assert(ws[k].id != ws[i].id);
    }
    assert forall|k: int| 0 <= k < i implies (#[trigger] b[k]).0 != ws[i].id by {
        assert(ws[k].id != ws[i].id);
    }
    lemma_lookup_first(a, ws[i].id, i);
    lemma_lookup_first(b, ws[i].id, i);
}

/// Cycling forward and then backward (or backward and then forward)
/// returns to the window that was selected.
pub proof fn lemma_cycle_round_trip(s: int, n: int)
    requires
        0 <= s < n,
    ensures
        cycled(cycled(s, n, true), n, false) == s,
        cycled(cycled(s, n, false), n, true) == s,
        0 <= cycled(s, n, true) < n,
        0 <= cycled(s, n, false) < n,
{
    assert(cycled(cycled(s, n, true), n, false) == s) by (nonlinear_arith)
        requires
            0 <= s < n,
            cycled(s, n, true) == (s + 1) % n,
            forall|t: int| #[trigger] cycled(t, n, false) == (t + n - 1) % n,
    ;
    assert(cycled(cycled(s, n, false), n, true) == s) by (nonlinear_arith)
        requires
            0 <= s < n,
            cycled(s, n, false) == (s + n - 1) % n,
            forall|t: int| #[trigger] cycled(t, n, true) == (t + 1) % n,
    ;
    assert(0 <= (s + 1) % n < n) by (nonlinear_arith)
        requires
            n > 0,
    ;
    assert(0 <= (s + n - 1) % n < n) by (nonlinear_arith)
        requires
            n > 0,
    ;
}

/// The selection after cycling forward `k` times through `n` windows from `s`.
pub open spec fn cycled_times(s: int, n: int, k: nat) -> int
    decreases k,
{
    if k == 0 {
        s
    } else {
        cycled(cycled_times(s, n, (k - 1) as nat), n, true)
    }
}

/// The number of forward steps from window `s` to window `t` among `n`.
pub open spec fn steps_between(s: int, t: int, n: int) -> nat {
    ((t - s + n) % n) as nat
}

/// Cycling forward `k` times moves the selection `k` places on, wrapping
/// around: it visits every window, each once in `n` steps, and is back
/// after `n` steps.
pub proof fn lemma_cycle_visits_all(s: int, n: int, k: nat)
    requires
        0 <= s < n,
    ensures
        cycled_times(s, n, k) == (s + k) % n,
        cycled_times(s, n, n as nat) == s,
        forall|t: int|
            0 <= t < n ==> steps_between(s, t, n) < n && #[trigger] cycled_times(
                s,
                n,
                steps_between(s, t, n),
            ) == t,
{
    lemma_cycled_times_mod(s, n, k);
    lemma_cycled_times_mod(s, n, n as nat);
    assert((s + n) % n == s) by (nonlinear_arith)
        requires
            0 <= s < n,
    ;
    assert forall|t: int| 0 <= t < n implies steps_between(s, t, n) < n && #[trigger] cycled_times(
        s,
        n,
        steps_between(s, t, n),
    ) == t by {
        let j = (t - s + n) % n;
        assert(0 <= j < n && (s + j) % n == t) by (nonlinear_arith)
            requires
                0 <= s < n,
                0 <= t < n,
                j == (t - s + n) % n,
        ;
        lemma_cycled_times_mod(s, n, j as nat);
    }
}

proof fn lemma_cycled_times_mod(s: int, n: int, k: nat)
    requires
        0 <= s < n,
    ensures
        cycled_times(s, n, k) == (s + k) % n,
    decreases k,
{
    if k == 0 {
        assert(s % n == s) by (nonlinear_arith)
            requires
                0 <= s < n,
        ;
    } else {
        lemma_cycled_times_mod(s, n, (k - 1) as nat);
        let prev = (s + k - 1) % n;
        assert((prev + 1) % n == (s + k) % n) by (nonlinear_arith)
            requires
                n > 0,
                prev == (s + k - 1) % n,
        ;
    }
}

/// A freshly opened exposé selects the focused window whenever it shows it.
pub proof fn lemma_initial_selection_is_focused(ws: Seq<ExposeWindow>, f: u64, s: int)
    requires
        is_initial_selection(ws, Some(f), s),
        shows_window(ws, f),
    ensures
        0 <= s < ws.len(),
        ws[s].id == f,
{
}

/// The window that a point hits is the frontmost of the windows drawn there:
/// windows are drawn front to back from the last one, and no window drawn in
/// front of the hit one holds the point.
pub proof fn lemma_hit_is_frontmost(rects: Seq<Rect>, pos: Point, i: int)
    requires
        is_topmost_at(rects, pos, i),
    ensures
        forall|d: int|
            0 <= d < rects.len() - 1 - i ==> !(#[trigger] rects[rects.len() - 1 - d]).has_point(pos),
{
    assert forall|d: int| 0 <= d < rects.len() - 1 - i implies !(#[trigger] rects[rects.len() - 1
        - d]).has_point(pos) by {
        let k = rects.len() - 1 - d;
        assert(i < k < rects.len());
    }
}

/// The value paired with `id` in `entries` (the first such entry).
pub fn find_entry<V: Copy>(entries: &[(u64, V)], id: u64) -> (r: Option<V>)
    ensures
        r == lookup(entries@, id),
{
    let mut k: usize = 0;
    assert(entries@.skip(0) =~= entries@);
    while k < entries.len()
        invariant
            k <= entries.len(),
            lookup(entries@, id) == lookup(entries@.skip(k as int), id),
        decreases entries.len() - k,
    {
        let ghost rest = entries@.skip(k as int);
        assert(rest[0] == entries@[k as int]);
        if entries[k].0 == id {
            return Some(entries[k].1);
        }
        assert(rest.drop_first() =~= entries@.skip(k + 1));
        k = k + 1;
    }
    assert(entries@.skip(k as int).len() == 0);
    None
}

/// `out` lists the windows of `entries` (each paired with its opening
/// order) by opening order, the windows of equal order in the order they
/// come in `entries`: `perm[i]` is the place in `entries` that `out[i]` comes
/// from.
pub open spec fn is_opening_order(
    entries: Seq<(u64, ExposeWindow)>,
    out: Seq<ExposeWindow>,
    perm: Seq<int>,
) -> bool {
    &&& out.len() == entries.len()
    &&& perm.len() == entries.len()
    &&& forall|i: int|
        0 <= i < out.len() ==> 0 <= #[trigger] perm[i] < entries.len() && out[i]
            == entries[perm[i]].1
    &&& forall|i: int, j: int|
        0 <= i < j < out.len() ==> entries[#[trigger] perm[i]].0 < entries[#[trigger] perm[j]].0
            || (entries[perm[i]].0 == entries[perm[j]].0 && perm[i] < perm[j])
}

/// The sorted prefix of `entries` (its first `i` entries, in `out`, with
/// their orders `keys` and places `perm`) stays sorted when entry `i` goes in
/// at `p`, behind every entry of lower or equal order.
proof fn lemma_insert_in_order(
    entries: Seq<(u64, ExposeWindow)>,
    out: Seq<ExposeWindow>,
    keys: Seq<u64>,
    perm: Seq<int>,
    p: int,
    i: int,
)
    requires
        0 <= p <= i < entries.len(),
        out.len() == i,
        keys.len() == i,
        perm.len() == i,
        forall|k: int|
            0 <= k < i ==> 0 <= #[trigger] perm[k] < i && out[k] == entries[perm[k]].1 && keys[k]
                == entries[perm[k]].0,
        forall|a: int, b: int|
            0 <= a < b < i ==> #[trigger] keys[a] < #[trigger] keys[b] || (keys[a] == keys[b] && perm[a]
                < perm[b]),
        forall|m: int| 0 <= m < p ==> keys[m] <= entries[i].0,
        forall|m: int| p <= m < i ==> keys[m] > entries[i].0,
    ensures
        ({
            let out2 = out.insert(p, entries[i].1);
            let keys2 = keys.insert(p, entries[i].0);
            let perm2 = perm.insert(p, i);
            &&& out2.len() == i + 1
            &&& keys2.len() == i + 1
            &&& perm2.len() == i + 1
            &&& forall|k: int|
                0 <= k < i + 1 ==> 0 <= #[trigger] perm2[k] < i + 1 && out2[k] == entries[perm2[k]].1
                    && keys2[k] == entries[perm2[k]].0
            &&& forall|a: int, b: int|
                0 <= a < b < i + 1 ==> #[trigger] keys2[a] < #[trigger] keys2[b] || (keys2[a] == keys2[b]
                    && perm2[a] < perm2[b])
        }),
{
    let key = entries[i].0;
    let out2 = out.insert(p, entries[i].1);
    let keys2 = keys.insert(p, key);
    let perm2 = perm.insert(p, i);
    assert(out2.len() == i + 1 && keys2.len() == i + 1 && perm2.len() == i + 1);
    assert forall|k: int| 0 <= k < i + 1 implies 0 <= #[trigger] perm2[k] < i + 1 && out2[k]
        == entries[perm2[k]].1 && keys2[k] == entries[perm2[k]].0 by {
        if k < p {
            assert(perm2[k] == perm[k] && keys2[k] == keys[k] && out2[k] == out[k]);
        } else if k > p {
            assert(perm2[k] == perm[k - 1] && keys2[k] == keys[k - 1] && out2[k] == out[k - 1]);
        }
    }
    assert forall|a: int, b: int| 0 <= a < b < i + 1 implies #[trigger] keys2[a] < #[trigger] keys2[b] || (keys2[a]
        == keys2[b] && perm2[a] < perm2[b]) by {
        if b < p {
            assert(perm2[a] == perm[a] && perm2[b] == perm[b]);
            assert(keys2[a] == keys[a] && keys2[b] == keys[b]);
        } else if b == p {
            assert(perm2[a] == perm[a] && keys2[a] == keys[a]);
            assert(keys[a] <= key);
        } else if a < p {
            assert(perm2[a] == perm[a] && perm2[b] == perm[b - 1]);
            assert(keys2[a] == keys[a] && keys2[b] == keys[b - 1]);
            assert(keys[a] <= key && keys[b - 1] > key);
        } else if a == p {
            assert(perm2[b] == perm[b - 1] && keys2[b] == keys[b - 1]);
            assert(keys[b - 1] > key);
        } else {
            assert(perm2[a] == perm[a - 1] && perm2[b] == perm[b - 1]);
            assert(keys2[a] == keys[a - 1] && keys2[b] == keys[b - 1]);
        }
    }
}

/// The windows in opening order: `entries` pairs each window with its
/// opening order, and windows of equal order keep the order they come in
/// (a stable sort by opening order).
pub fn windows_in_opening_order(entries: &[(u64, ExposeWindow)]) -> (r: Vec<
    ExposeWindow,
>)
    ensures
        exists|perm: Seq<int>| is_opening_order(entries@, r@, perm),
{
    let mut out: Vec<ExposeWindow> = Vec::new();
    let mut keys: Vec<u64> = Vec::new();
    let ghost mut perm: Seq<int> = Seq::empty();
    let mut i: usize = 0;
    while i < entries.len()
        invariant
            i <= entries.len(),
            out.len() == i,
            keys.len() == i,
            perm.len() == i,
            forall|k: int|
                0 <= k < i ==> 0 <= #[trigger] perm[k] < i && out@[k] == entries@[perm[k]].1
                    && keys@[k] == entries@[perm[k]].0,
            forall|a: int, b: int|
                0 <= a < b < i ==> #[trigger] keys@[a] < #[trigger] keys@[b] || (keys@[a] == keys@[b] && perm[a]
                    < perm[b]),
        decreases entries.len() - i,
    {
        let key = entries[i].0;
        let mut p: usize = 0;
        while p < keys.len() && keys[p] <= key
            invariant
                p <= keys.len(),
                keys.len() == i,
                forall|m: int| 0 <= m < p ==> keys@[m] <= key,
            decreases keys.len() - p,
        {
            p = p + 1;
        }
        proof {
            assert forall|m: int| p <= m < i implies keys@[m] > key by {
                if m > p {
                    assert(keys@[p as int] <= keys@[m]);
                }
            }
        }
        let ghost old_keys = keys@;
        let ghost old_perm = perm;
        let ghost old_out = out@;
        out.insert(p, entries[i].1);
        keys.insert(p, key);
        proof {
            perm = perm.insert(p as int, i as int);
            lemma_insert_in_order(entries@, old_out, old_keys, old_perm, p as int, i as int);
        }
        i = i + 1;
    }
    proof {
        assert forall|a: int, b: int|
            0 <= a < b < out.len() implies entries@[#[trigger] perm[a]].0 < entries@[#[trigger] perm[b]].0
            || (entries@[perm[a]].0 == entries@[perm[b]].0 && perm[a] < perm[b]) by {
            assert(keys@[a] == entries@[perm[a]].0);
            assert(keys@[b] == entries@[perm[b]].0);
        }
        assert(is_opening_order(entries@, out@, perm));
    }
    out
}

/// Window `w` (at place `i`) as planned for a new exposé: its transition
/// starts from the geometry `carried` lists for it (where an earlier exposé
/// left it) or else from its own origin, and ends at the `i`-th planned
/// target (or its own target past the end of `targets`).
pub open spec fn planned_window(
    w: ExposeWindow,
    i: int,
    carried: Seq<(u64, Rect)>,
    targets: Seq<Rect>,
) -> ExposeWindow {
    ExposeWindow {
        id: w.id,
        size: w.size,
        origin: match lookup(carried, w.id) {
            Some(o) => o,
            None => w.origin,
        },
        target: if i < targets.len() {
            targets[i]
        } else {
            w.target
        },
    }
}

/// Plans the windows of a new exposé: each transition starts where an
/// earlier exposé left the window (`carried`), if it did, and ends at the
/// window's place in the grid (`targets`, in window order).
pub fn plan_windows(
    windows: &Vec<ExposeWindow>,
    carried: &[(u64, Rect)],
    targets: &[Rect],
) -> (r: Vec<ExposeWindow>)
    ensures
        r.len() == windows.len(),
        forall|i: int|
            0 <= i < windows.len() ==> (#[trigger] r@[i]) == planned_window(
                windows@[i],
                i,
                carried@,
                targets@,
            ),
{
    let mut r: Vec<ExposeWindow> = Vec::new();
    let mut k: usize = 0;
    while k < windows.len()
        invariant
            k <= windows.len(),
            r.len() == k,
            forall|i: int|
                0 <= i < k ==> (#[trigger] r@[i]) == planned_window(
                    windows@[i],
                    i,
                    carried@,
                    targets@,
                ),
        decreases windows.len() - k,
    {
        let w = windows[k];
        let origin = match find_entry(carried, w.id) {
            Some(o) => o,
            None => w.origin,
        };
        let target = if k < targets.len() {
            targets[k]
        } else {
            w.target
        };
        r.push(ExposeWindow { id: w.id, size: w.size, origin, target });
        k = k + 1;
    }
    r
}

/// The index of the first window with this id.
pub fn first_window_with(ws: &Vec<ExposeWindow>, id: u64) -> (r: Option<usize>)
    ensures
        match r {
            Some(i) => is_first_window(ws@, id, i as int),
            None => !shows_window(ws@, id),
        },
{
    let mut k: usize = 0;
    while k < ws.len()
        invariant
            k <= ws.len(),
            forall|m: int| 0 <= m < k ==> ws@[m].id != id,
        decreases ws.len() - k,
    {
        if ws[k].id == id {
            return Some(k);
        }
        k = k + 1;
    }
    None
}

/// The all-outputs exposé: every window of every output in one grid on a
/// host output.
pub struct AllOutputsExpose {
    output: u64,
    open: bool,
    windows: Vec<ExposeWindow>,
    area: Rect,
    selected: usize,
    destination: Destination,
}

impl View for AllOutputsExpose {
    type V = ExposeView;

    closed spec fn view(&self) -> ExposeView {
        ExposeView {
            output: self.output,
            open: self.open,
            windows: self.windows@,
            area: self.area,
            selected: self.selected as int,
            destination: self.destination,
        }
    }
}

impl AllOutputsExpose {
    /// The selection always names a window, or is 0 when there is none.
    #[verifier::type_invariant]
    spec fn selection_in_range(self) -> bool {
        ||| self.selected < self.windows.len()
        ||| (self.windows.len() == 0 && self.selected == 0)
    }
}

/// The selection names a window, or is 0 when the exposé shows none.
pub open spec fn selection_valid(v: ExposeView) -> bool {
    ||| 0 <= v.selected < v.windows.len()
    ||| (v.windows.len() == 0 && v.selected == 0)
}

impl AllOutputsExpose {
    /// Opens an exposé of `windows` on `output`, planned for `area`, with the
    /// focused window selected when it is shown, else the first one.
    pub fn new(output: u64, windows: Vec<ExposeWindow>, area: Rect, focused: Option<u64>) -> (r:
        Self)
        ensures
            r@.output == output,
            r@.open,
            r@.windows == windows@,
            r@.area == area,
            r@.destination == Destination::Layout,
            is_initial_selection(windows@, focused, r@.selected),
    {
        let selected = match focused {
            Some(f) => match first_window_with(&windows, f) {
                Some(i) => i,
                None => 0,
            },
            None => 0,
        };
        AllOutputsExpose {
            output,
            open: true,
            windows,
            area,
            selected,
            destination: Destination::Layout,
        }
    }

    pub fn output(&self) -> (r: u64)
        ensures
            r == self@.output,
    {
        self.output
    }

    pub fn is_open(&self) -> (r: bool)
        ensures
            r == self@.open,
    {
        self.open
    }

    pub fn area(&self) -> (r: Rect)
        ensures
            r == self@.area,
    {
        self.area
    }

    /// The index of the selected window, which names a window whenever the
    /// exposé shows any.
    pub fn selected(&self) -> (r: usize)
        ensures
            r == self@.selected,
            selection_valid(self@),
    {
        proof {
            use_type_invariant(self);
        }
        self.selected
    }

    pub fn destination(&self) -> (r: Destination)
        ensures
            r == self@.destination,
    {
        self.destination
    }

    pub fn windows(&self) -> (r: &Vec<ExposeWindow>)
        ensures
            r@ == self@.windows,
    {
        &self.windows
    }

    /// The id of the selected window; `None` when the exposé shows no window.
    pub fn selected_window(&self) -> (r: Option<u64>)
        ensures
            r == (if self@.windows.len() == 0 {
                None
            } else {
                Some(self@.windows[self@.selected].id)
            }),
    {
        proof {
            use_type_invariant(self);
        }
        if self.selected < self.windows.len() {
            Some(self.windows[self.selected].id)
        } else {
            None
        }
    }

    /// Whether the exposé shows the window.
    pub fn contains_window(&self, id: u64) -> (r: bool)
        ensures
            r == shows_window(self@.windows, id),
    {
        first_window_with(&self.windows, id).is_some()
    }

    /// The topmost window whose current rectangle holds `pos`, given the
    /// current rectangle of each window; `None` while the exposé is closing.
    pub fn window_under(&self, current: &[Rect], pos: Point) -> (r: Option<u64>)
        requires
            current.len() == self@.windows.len(),
        ensures
            match r {
                None => !self@.open || forall|i: int|
                    0 <= i < current.len() ==> !(#[trigger] current@[i]).has_point(pos),
                Some(id) => self@.open && exists|i: int|
                    is_topmost_at(current@, pos, i) && self@.windows[i].id == id,
            },
    {
        if !self.open {
            return None;
        }
        let mut k = current.len();
        while k > 0
            invariant
                k <= current.len(),
                self.open,
                current.len() == self@.windows.len(),
                forall|m: int| k <= m < current.len() ==> !current@[m].has_point(pos),
            decreases k,
        {
            k = k - 1;
            if current[k].contains(pos) {
                proof {
                    assert(is_topmost_at(current@, pos, k as int));
                }
                return Some(self.windows[k].id);
            }
        }
        None
    }

    /// The windows to draw, front to back (the last window is drawn in
    /// front), each with whether it shows the focus ring. A window is drawn
    /// only while it still has a tile (`tiles` lists the ids of those that
    /// do); only the selected window shows the ring, while the exposé is open
    /// and focus rings are drawn (`focus_ring`).
    pub fn drawing_order(&self, focus_ring: bool, tiles: &[u64]) -> (r: Vec<(u64, bool)>)
        ensures
            r@ == drawing_list(
                self@.windows,
                0,
                tiles@,
                focus_ring && self@.open,
                self@.selected,
            ),
    {
        let ghost ring_on = focus_ring && self.open;
        let mut r: Vec<(u64, bool)> = Vec::new();
        let mut idx = self.windows.len();
        while idx > 0
            invariant
                idx <= self.windows.len(),
                ring_on == (focus_ring && self.open),
                r@ == drawing_list(self.windows@, idx as int, tiles@, ring_on, self.selected as int),
            decreases idx,
        {
            idx = idx - 1;
            let id = self.windows[idx].id;
            let mut has_tile = false;
            let mut t: usize = 0;
            while t < tiles.len()
                invariant
                    t <= tiles.len(),
                    has_tile == (exists|m: int| 0 <= m < t && tiles@[m] == id),
                decreases tiles.len() - t,
            {
                if tiles[t] == id {
                    has_tile = true;
                }
                t = t + 1;
            }
            proof {
                assert(has_tile == tiles@.contains(id));
            }
            if has_tile {
                let ring = focus_ring && self.open && idx == self.selected;
                r.push((id, ring));
            }
            proof {
                let prev = drawing_list(self.windows@, idx + 1, tiles@, ring_on, self.selected as int);
                assert(drawing_list(self.windows@, idx as int, tiles@, ring_on, self.selected as int)
                    == prev + if tiles@.contains(id) {
                    seq![(id, ring_on && idx == self.selected)]
                } else {
                    Seq::<(u64, bool)>::empty()
                });
                assert(r@ =~= drawing_list(self.windows@, idx as int, tiles@, ring_on, self.selected as int));
            }
        }
        r
    }

    /// Selects the next window (or the previous one), wrapping around.
    pub fn cycle(&mut self, forward: bool)
        ensures
            final(self)@ == (ExposeView {
                selected: cycled(old(self)@.selected, old(self)@.windows.len() as int, forward),
                ..old(self)@
            }),
    {
        proof {
            use_type_invariant(&*self);
        }
        let count = self.windows.len();
        if count == 0 {
            return;
        }
        let s = self.selected;
        let next = if forward {
            (s + 1) % count
        } else if s == 0 {
            count - 1
        } else {
            s - 1
        };
        proof {
            let n = count as int;
            if !forward {
                if s == 0 {
                    assert((s + n - 1) % n == n - 1) by (nonlinear_arith)
                        requires
                            s == 0,
                            n > 0,
                    ;
                } else {
                    assert((s + n - 1) % n == s - 1) by (nonlinear_arith)
                        requires
                            1 <= s < n,
                    ;
                }
            }
        }
        self.selected = next;
    }

    /// Moves the selection in `direction` over the planned grid (the target
    /// rectangle of each window); it stays put when there is no window that
    /// way.
    pub fn focus(&mut self, direction: ExposeDirection)
        ensures
            is_focus_step(
                target_rects(old(self)@.windows),
                old(self)@.selected,
                direction,
                final(self)@.selected,
            ),
            final(self)@ == (ExposeView { selected: final(self)@.selected, ..old(self)@ }),
    {
        let mut targets: Vec<Rect> = Vec::new();
        let mut k: usize = 0;
        while k < self.windows.len()
            invariant
                k <= self.windows.len(),
                targets@ =~= target_rects(self.windows@).take(k as int),
            decreases self.windows.len() - k,
        {
            targets.push(self.windows[k].target);
            k = k + 1;
        }
        assert(targets@ =~= target_rects(self.windows@));
        if let Some(i) = neighbor(targets.as_slice(), self.selected, direction) {
            self.selected = i;
        }
    }

    /// Starts closing: each window's transition now starts from its current
    /// geometry `current[i]` and ends at the target listed for it in
    /// `targets` (it keeps its target when none is listed); the windows go to
    /// `destination` once the transition is over. The selection is kept.
    pub fn close_to(&mut self, current: &[Rect], targets: &[(u64, Rect)], destination: Destination)
        requires
            current.len() == old(self)@.windows.len(),
        ensures
            final(self)@ == (ExposeView {
                open: false,
                destination,
                windows: closed_windows(old(self)@.windows, current@, targets@),
                ..old(self)@
            }),
    {
        proof {
            use_type_invariant(&*self);
        }
        let mut windows: Vec<ExposeWindow> = Vec::new();
        let mut k: usize = 0;
        while k < self.windows.len()
            invariant
                k <= self.windows.len(),
                current.len() == self.windows.len(),
                windows.len() == k,
                forall|i: int|
                    0 <= i < k ==> (#[trigger] windows@[i]) == (ExposeWindow {
                        id: self.windows@[i].id,
                        size: self.windows@[i].size,
                        origin: current@[i],
                        target: retarget(self.windows@[i], targets@),
                    }),
            decreases self.windows.len() - k,
        {
            let w = self.windows[k];
            let target = match find_entry(targets, w.id) {
                Some(t) => t,
                None => w.target,
            };
            windows.push(ExposeWindow { id: w.id, size: w.size, origin: current[k], target });
            k = k + 1;
        }
        assert(windows@ =~= closed_windows(self.windows@, current@, targets@));
        self.windows = windows;
        self.open = false;
        self.destination = destination;
    }

    /// Points each window that `targets` lists at its new target; the origins,
    /// the selection and everything else stay.
    pub fn retarget_windows(&mut self, targets: &[(u64, Rect)])
        ensures
            final(self)@ == (ExposeView {
                windows: retargeted_windows(old(self)@.windows, targets@),
                ..old(self)@
            }),
    {
        proof {
            use_type_invariant(&*self);
        }
        let mut windows: Vec<ExposeWindow> = Vec::new();
        let mut k: usize = 0;
        while k < self.windows.len()
            invariant
                k <= self.windows.len(),
                windows.len() == k,
                forall|i: int|
                    0 <= i < k ==> (#[trigger] windows@[i]) == (ExposeWindow {
                        target: retarget(self.windows@[i], targets@),
                        ..self.windows@[i]
                    }),
            decreases self.windows.len() - k,
        {
            let w = self.windows[k];
            let target = match find_entry(targets, w.id) {
                Some(t) => t,
                None => w.target,
            };
            windows.push(ExposeWindow { target, ..w });
            k = k + 1;
        }
        assert(windows@ =~= retargeted_windows(self.windows@, targets@));
        self.windows = windows;
    }

    /// The targets for handing the windows over to the exposé of a single
    /// output: each window goes to the target that `local` lists for it,
    /// and stays where it currently is (`current[i]`) when none is listed.
    pub fn local_expose_targets(&self, current: &[Rect], local: &[(u64, Rect)]) -> (r: Vec<(u64, Rect)>)
        requires
            current.len() == self@.windows.len(),
        ensures
            r@ == local_handover(self@.windows, current@, local@),
    {
        let mut r: Vec<(u64, Rect)> = Vec::new();
        let mut k: usize = 0;
        while k < self.windows.len()
            invariant
                k <= self.windows.len(),
                current.len() == self.windows.len(),
                r.len() == k,
                forall|i: int|
                    0 <= i < k ==> (#[trigger] r@[i]) == (
                    self.windows@[i].id,
                    match lookup(local@, self.windows@[i].id) {
                        Some(t) => t,
                        None => current@[i],
                    },
                ),
            decreases self.windows.len() - k,
        {
            let id = self.windows[k].id;
            let target = match find_entry(local, id) {
                Some(t) => t,
                None => current[k],
            };
            r.push((id, target));
            k = k + 1;
        }
        assert(r@ =~= local_handover(self@.windows, current@, local@));
        r
    }

    /// The targets for handing the windows over to the overview: a window
    /// that lives on the host output (by the first entry for it in
    /// `owners`, which pairs each window with the output it lives on, if
    /// any) goes to the target that `overview` lists for it; every other
    /// window, and one that `overview` does not list, stays where it
    /// currently is (`current[i]`).
    pub fn overview_targets(
        &self,
        current: &[Rect],
        owners: &[(u64, Option<u64>)],
        overview: &[(u64, Rect)],
    ) -> (r: Vec<(u64, Rect)>)
        requires
            current.len() == self@.windows.len(),
        ensures
            r@ == overview_handover(self@.windows, current@, owners@, overview@, self@.output),
    {
        let mut r: Vec<(u64, Rect)> = Vec::new();
        let mut k: usize = 0;
        while k < self.windows.len()
            invariant
                k <= self.windows.len(),
                current.len() == self.windows.len(),
                r.len() == k,
                forall|i: int|
                    0 <= i < k ==> (#[trigger] r@[i]) == (
                    self.windows@[i].id,
                    overview_target(owners@, overview@, self.output, self.windows@[i].id, current@[i]),
                ),
            decreases self.windows.len() - k,
        {
            let id = self.windows[k].id;
            let on_host = match find_entry(owners, id) {
                Some(Some(o)) => o == self.output,
                _ => false,
            };
            let target = if on_host {
                match find_entry(overview, id) {
                    Some(t) => t,
                    None => current[k],
                }
            } else {
                current[k]
            };
            r.push((id, target));
            k = k + 1;
        }
        assert(r@ =~= overview_handover(self@.windows, current@, owners@, overview@, self@.output));
        r
    }
}

} // verus!
