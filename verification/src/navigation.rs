use vstd::prelude::*;
use crate::geometry::Rect;

verus! {

/// A direction for keyboard navigation in the exposé grid.
#[derive(Clone, Copy, Debug, PartialEq, Eq, Structural)]
pub enum ExposeDirection {
    Left,
    Right,
    Up,
    Down,
}

/// Horizontal distance (doubled) between the centre of `r` and the doubled
/// horizontal coordinate `c2`.
pub open spec fn center_distance(r: Rect, c2: int) -> int {
    let d = r.center_x2() - c2;
    if d < 0 {
        -d
    } else {
        d
    }
}

/// `j` is the last rectangle before `s` that lies strictly above `s`:
/// it names the row that Up moves into.
pub open spec fn is_row_above(rects: Seq<Rect>, s: int, j: int) -> bool {
    &&& 0 <= j < s < rects.len()
    &&& rects[j].loc.y < rects[s].loc.y
    &&& forall|k: int| j < k < s ==> rects[k].loc.y >= rects[s].loc.y
}

/// `j` is the first rectangle after `s` that lies strictly below `s`:
/// it names the row that Down moves into.
pub open spec fn is_row_below(rects: Seq<Rect>, s: int, j: int) -> bool {
    &&& 0 <= s < j < rects.len()
    &&& rects[j].loc.y > rects[s].loc.y
    &&& forall|k: int| s < k < j ==> rects[k].loc.y <= rects[s].loc.y
}

/// Among the rectangles whose top edge is at `row_y`, `i` is the one whose
/// centre is horizontally closest to `c2 / 2`, the first one on a tie.
pub open spec fn is_nearest_in_row(rects: Seq<Rect>, row_y: int, c2: int, i: int) -> bool {
    &&& 0 <= i < rects.len()
    &&& rects[i].loc.y == row_y
    &&& forall|k: int|
        0 <= k < rects.len() && rects[k].loc.y == row_y ==> center_distance(rects[i], c2)
            <= center_distance(#[trigger] rects[k], c2)
    &&& forall|k: int|
        0 <= k < i && rects[k].loc.y == row_y ==> center_distance(rects[i], c2) < center_distance(
            #[trigger] rects[k],
            c2,
        )
}

/// The neighbour to the left or right: the adjacent rectangle in the
/// sequence, when it shares the top edge of the selected one.
pub open spec fn horizontal_neighbor(rects: Seq<Rect>, s: int, right: bool) -> Option<int> {
    let t = if right {
        s + 1
    } else {
        s - 1
    };
    if 0 <= s < rects.len() && 0 <= t < rects.len() && rects[t].loc.y == rects[s].loc.y {
        Some(t)
    } else {
        None
    }
}

/// `result` is the rectangle reached from `s` in `direction`:
/// Left and Right stay within the row, Up and Down move to the adjacent row
/// in sequence order and pick the rectangle whose centre is horizontally
/// nearest to the centre of the selected one.
pub open spec fn is_neighbor(
    rects: Seq<Rect>,
    s: int,
    direction: ExposeDirection,
    result: Option<int>,
) -> bool {
    match direction {
        ExposeDirection::Left => result == horizontal_neighbor(rects, s, false),
        ExposeDirection::Right => result == horizontal_neighbor(rects, s, true),
        ExposeDirection::Up => match result {
            None => !(exists|j: int| is_row_above(rects, s, j)),
            Some(i) => exists|j: int|
                is_row_above(rects, s, j) && is_nearest_in_row(
                    rects,
                    rects[j].loc.y as int,
                    rects[s].center_x2(),
                    i,
                ),
        },
        ExposeDirection::Down => match result {
            None => !(exists|j: int| is_row_below(rects, s, j)),
            Some(i) => exists|j: int|
                is_row_below(rects, s, j) && is_nearest_in_row(
                    rects,
                    rects[j].loc.y as int,
                    rects[s].center_x2(),
                    i,
                ),
        },
    }
}

/// An optional index, seen as an optional integer.
pub open spec fn opt_int(o: Option<usize>) -> Option<int> {
    match o {
        Some(i) => Some(i as int),
        None => None,
    }
}

proof fn lemma_row_above_unique(rects: Seq<Rect>, s: int, j1: int, j2: int)
    requires
        is_row_above(rects, s, j1),
        is_row_above(rects, s, j2),
    ensures
        j1 == j2,
{
    if j1 < j2 {
        assert(rects[j2].loc.y >= rects[s].loc.y);
    } else if j2 < j1 {
        assert(rects[j1].loc.y >= rects[s].loc.y);
    }
}

proof fn lemma_row_below_unique(rects: Seq<Rect>, s: int, j1: int, j2: int)
    requires
        is_row_below(rects, s, j1),
        is_row_below(rects, s, j2),
    ensures
        j1 == j2,
{
    if j1 < j2 {
        assert(rects[j1].loc.y <= rects[s].loc.y);
    } else if j2 < j1 {
        assert(rects[j2].loc.y <= rects[s].loc.y);
    }
}

proof fn lemma_nearest_unique(rects: Seq<Rect>, row_y: int, c2: int, i1: int, i2: int)
    requires
        is_nearest_in_row(rects, row_y, c2, i1),
        is_nearest_in_row(rects, row_y, c2, i2),
    ensures
        i1 == i2,
{
    if i1 < i2 {
        assert(center_distance(rects[i2], c2) < center_distance(rects[i1], c2));
        assert(center_distance(rects[i1], c2) <= center_distance(rects[i2], c2));
    } else if i2 < i1 {
        assert(center_distance(rects[i1], c2) < center_distance(rects[i2], c2));
        assert(center_distance(rects[i2], c2) <= center_distance(rects[i1], c2));
    }
}

/// Navigation is deterministic: for a given grid, selection and direction,
/// at most one outcome meets `is_neighbor`, so the contract of `neighbor`
/// fixes its result.
pub proof fn lemma_neighbor_unique(
    rects: Seq<Rect>,
    s: int,
    direction: ExposeDirection,
    a: Option<int>,
    b: Option<int>,
)
    requires
        is_neighbor(rects, s, direction, a),
        is_neighbor(rects, s, direction, b),
    ensures
        a == b,
{
    match direction {
        ExposeDirection::Up => {
            if a is Some && b is Some {
                let j1 = choose|j: int|
                    is_row_above(rects, s, j) && is_nearest_in_row(
                        rects,
                        rects[j].loc.y as int,
                        rects[s].center_x2(),
                        a->0,
                    );
                let j2 = choose|j: int|
                    is_row_above(rects, s, j) && is_nearest_in_row(
                        rects,
                        rects[j].loc.y as int,
                        rects[s].center_x2(),
                        b->0,
                    );
                lemma_row_above_unique(rects, s, j1, j2);
                lemma_nearest_unique(rects, rects[j1].loc.y as int, rects[s].center_x2(), a->0, b->0);
            }
        },
        ExposeDirection::Down => {
            if a is Some && b is Some {
                let j1 = choose|j: int|
                    is_row_below(rects, s, j) && is_nearest_in_row(
                        rects,
                        rects[j].loc.y as int,
                        rects[s].center_x2(),
                        a->0,
                    );
                let j2 = choose|j: int|
                    is_row_below(rects, s, j) && is_nearest_in_row(
                        rects,
                        rects[j].loc.y as int,
                        rects[s].center_x2(),
                        b->0,
                    );
                lemma_row_below_unique(rects, s, j1, j2);
                lemma_nearest_unique(rects, rects[j1].loc.y as int, rects[s].center_x2(), a->0, b->0);
            }
        },
        _ => {},
    }
}

/// Moving right from `s` reaches `t` exactly when moving left from `t`
/// reaches `s`: Left and Right undo each other within a row.
pub proof fn lemma_left_right_inverse(rects: Seq<Rect>, s: int, t: int)
    ensures
        is_neighbor(rects, s, ExposeDirection::Right, Some(t)) <==> is_neighbor(
            rects,
            t,
            ExposeDirection::Left,
            Some(s),
        ),
{
}

/// Left and Right stay in the row of the selection and move by one place;
/// Up reaches a rectangle strictly higher than the selection and Down one
/// strictly lower, and neither ever stays on the selection.
pub proof fn lemma_neighbor_row(rects: Seq<Rect>, s: int, direction: ExposeDirection, i: int)
    requires
        is_neighbor(rects, s, direction, Some(i)),
    ensures
        0 <= s < rects.len(),
        0 <= i < rects.len(),
        i != s,
        match direction {
            ExposeDirection::Left => i == s - 1 && rects[i].loc.y == rects[s].loc.y,
            ExposeDirection::Right => i == s + 1 && rects[i].loc.y == rects[s].loc.y,
            ExposeDirection::Up => rects[i].loc.y < rects[s].loc.y,
            ExposeDirection::Down => rects[i].loc.y > rects[s].loc.y,
        },
{
}

/// Left and Right move to the adjacent window exactly when it has the same
/// top edge as the selection, whatever the sizes of the two windows, and go
/// nowhere otherwise.
pub proof fn lemma_horizontal_moves(rects: Seq<Rect>, s: int)
    requires
        0 <= s < rects.len(),
    ensures
        s + 1 < rects.len() && rects[s + 1].loc.y == rects[s].loc.y ==> is_neighbor(
            rects,
            s,
            ExposeDirection::Right,
            Some(s + 1),
        ),
        !(s + 1 < rects.len() && rects[s + 1].loc.y == rects[s].loc.y) ==> is_neighbor(
            rects,
            s,
            ExposeDirection::Right,
            None,
        ),
        s >= 1 && rects[s - 1].loc.y == rects[s].loc.y ==> is_neighbor(
            rects,
            s,
            ExposeDirection::Left,
            Some(s - 1),
        ),
        !(s >= 1 && rects[s - 1].loc.y == rects[s].loc.y) ==> is_neighbor(
            rects,
            s,
            ExposeDirection::Left,
            None,
        ),
{
}

/// Twice the horizontal distance between the centres of `a` and `b`.
pub open spec fn center_gap2(a: Rect, b: Rect) -> int {
    let d = (2 * a.loc.x + a.size.w) - (2 * b.loc.x + b.size.w);
    if d < 0 {
        -d
    } else {
        d
    }
}

/// Up goes nowhere exactly when no window before the selection lies higher;
/// otherwise it reaches a window of the row of the last such window, and
/// among the windows of that row it is the one whose centre is horizontally
/// nearest to the selection's centre (the first of them on a tie). Down is
/// the same with the first window after the selection that lies lower.
pub proof fn lemma_vertical_moves(rects: Seq<Rect>, s: int, r: Option<int>)
    requires
        0 <= s < rects.len(),
    ensures
        is_neighbor(rects, s, ExposeDirection::Up, r) ==> (r is None <==> forall|k: int|
            0 <= k < s ==> rects[k].loc.y >= rects[s].loc.y),
        is_neighbor(rects, s, ExposeDirection::Up, r) && r is Some ==> ({
            let i = r->0;
            &&& 0 <= i < rects.len()
            &&& rects[i].loc.y < rects[s].loc.y
            &&& exists|j: int|
                0 <= j < s && rects[j].loc.y == rects[i].loc.y && forall|k: int|
                    j < k < s ==> rects[k].loc.y >= rects[s].loc.y
            &&& forall|k: int|
                0 <= k < rects.len() && rects[k].loc.y == rects[i].loc.y ==> center_gap2(
                    rects[i],
                    rects[s],
                ) <= center_gap2(rects[k], rects[s])
            &&& forall|k: int|
                0 <= k < i && rects[k].loc.y == rects[i].loc.y ==> center_gap2(rects[i], rects[s])
                    < center_gap2(rects[k], rects[s])
        }),
        is_neighbor(rects, s, ExposeDirection::Down, r) ==> (r is None <==> forall|k: int|
            s < k < rects.len() ==> rects[k].loc.y <= rects[s].loc.y),
        is_neighbor(rects, s, ExposeDirection::Down, r) && r is Some ==> ({
            let i = r->0;
            &&& 0 <= i < rects.len()
            &&& rects[i].loc.y > rects[s].loc.y
            &&& exists|j: int|
                s < j < rects.len() && rects[j].loc.y == rects[i].loc.y && forall|k: int|
                    s < k < j ==> rects[k].loc.y <= rects[s].loc.y
            &&& forall|k: int|
                0 <= k < rects.len() && rects[k].loc.y == rects[i].loc.y ==> center_gap2(
                    rects[i],
                    rects[s],
                ) <= center_gap2(rects[k], rects[s])
            &&& forall|k: int|
                0 <= k < i && rects[k].loc.y == rects[i].loc.y ==> center_gap2(rects[i], rects[s])
                    < center_gap2(rects[k], rects[s])
        }),
{
    let c2 = rects[s].center_x2();
    assert forall|k: int| 0 <= k < rects.len() implies center_distance(#[trigger] rects[k], c2)
        == center_gap2(rects[k], rects[s]) by {}
    if is_neighbor(rects, s, ExposeDirection::Up, r) {
        if r is None {
            assert forall|k: int| 0 <= k < s implies rects[k].loc.y >= rects[s].loc.y by {
                if rects[k].loc.y < rects[s].loc.y {
                    lemma_last_above_exists(rects, s, k);
                }
            }
        } else {
            let j = choose|j: int|
                is_row_above(rects, s, j) && is_nearest_in_row(
                    rects,
                    rects[j].loc.y as int,
                    c2,
                    r->0,
                );
            assert(!(forall|k: int| 0 <= k < s ==> rects[k].loc.y >= rects[s].loc.y)) by {
                assert(rects[j].loc.y < rects[s].loc.y);
            }
        }
    }
    if is_neighbor(rects, s, ExposeDirection::Down, r) {
        if r is None {
            assert forall|k: int| s < k < rects.len() implies rects[k].loc.y <= rects[s].loc.y by {
                if rects[k].loc.y > rects[s].loc.y {
                    lemma_first_below_exists(rects, s, k);
                }
            }
        } else {
            let j = choose|j: int|
                is_row_below(rects, s, j) && is_nearest_in_row(
                    rects,
                    rects[j].loc.y as int,
                    c2,
                    r->0,
                );
            assert(!(forall|k: int| s < k < rects.len() ==> rects[k].loc.y <= rects[s].loc.y)) by {
                assert(rects[j].loc.y > rects[s].loc.y);
            }
        }
    }
}

/// When some window before `s` lies higher, a last such one names a row.
proof fn lemma_last_above_exists(rects: Seq<Rect>, s: int, k: int)
    requires
        0 <= k < s < rects.len(),
        rects[k].loc.y < rects[s].loc.y,
    ensures
        exists|j: int| is_row_above(rects, s, j),
    decreases s - k,
{
    if exists|m: int| k < m < s && rects[m].loc.y < rects[s].loc.y {
        let m = choose|m: int| k < m < s && rects[m].loc.y < rects[s].loc.y;
        lemma_last_above_exists(rects, s, m);
    } else {
        assert(is_row_above(rects, s, k));
    }
}

/// When some window after `s` lies lower, a first such one names a row.
proof fn lemma_first_below_exists(rects: Seq<Rect>, s: int, k: int)
    requires
        0 <= s < k < rects.len(),
        rects[k].loc.y > rects[s].loc.y,
    ensures
        exists|j: int| is_row_below(rects, s, j),
    decreases k - s,
{
    if exists|m: int| s < m < k && rects[m].loc.y > rects[s].loc.y {
        let m = choose|m: int| s < m < k && rects[m].loc.y > rects[s].loc.y;
        lemma_first_below_exists(rects, s, m);
    } else {
        assert(is_row_below(rects, s, k));
    }
}

/// The last rectangle before `selected` that lies strictly above it.
fn row_above(rects: &[Rect], selected: usize) -> (r: Option<usize>)
    requires
        selected < rects.len(),
    ensures
        match r {
            Some(j) => is_row_above(rects@, selected as int, j as int),
            None => !(exists|j: int| is_row_above(rects@, selected as int, j)),
        },
{
    let y = rects[selected].loc.y;
    let mut k = selected;
    while k > 0
        invariant
            k <= selected < rects.len(),
            y == rects@[selected as int].loc.y,
            forall|m: int| k <= m < selected ==> rects@[m].loc.y >= y,
        decreases k,
    {
        k = k - 1;
        if rects[k].loc.y < y {
            return Some(k);
        }
    }
    proof {
        assert forall|j: int| !is_row_above(rects@, selected as int, j) by {
            if 0 <= j < selected {
                assert(rects@[j].loc.y >= y);
            }
        }
    }
    None
}

/// The first rectangle after `selected` that lies strictly below it.
fn row_below(rects: &[Rect], selected: usize) -> (r: Option<usize>)
    requires
        selected < rects.len(),
    ensures
        match r {
            Some(j) => is_row_below(rects@, selected as int, j as int),
            None => !(exists|j: int| is_row_below(rects@, selected as int, j)),
        },
{
    let y = rects[selected].loc.y;
    let mut k = selected + 1;
    while k < rects.len()
        invariant
            selected < k <= rects.len(),
            y == rects@[selected as int].loc.y,
            forall|m: int| selected < m < k ==> rects@[m].loc.y <= y,
        decreases rects.len() - k,
    {
        if rects[k].loc.y > y {
            return Some(k);
        }
        k = k + 1;
    }
    proof {
        assert forall|j: int| !is_row_below(rects@, selected as int, j) by {
            if selected < j < rects.len() {
                assert(rects@[j].loc.y <= y);
            }
        }
    }
    None
}

/// The rectangle of the row at `row_y` whose centre is horizontally nearest
/// to `c2 / 2`, the first one on a tie.
fn nearest_in_row(rects: &[Rect], row_y: i64, c2: i128) -> (i: usize)
    requires
        exists|j: int| 0 <= j < rects.len() && rects@[j].loc.y == row_y,
        -3 * 0x8000_0000_0000_0000 <= c2 <= 3 * 0x8000_0000_0000_0000,
    ensures
        is_nearest_in_row(rects@, row_y as int, c2 as int, i as int),
{
    let mut best: Option<usize> = None;
    let mut best_distance: i128 = 0;
    let mut k: usize = 0;
    while k < rects.len()
        invariant
            k <= rects.len(),
            -3 * 0x8000_0000_0000_0000 <= c2 <= 3 * 0x8000_0000_0000_0000,
            match best {
                None => forall|m: int| 0 <= m < k ==> rects@[m].loc.y != row_y,
                Some(b) => {
                    &&& b < k
                    &&& rects@[b as int].loc.y == row_y
                    &&& best_distance == center_distance(rects@[b as int], c2 as int)
                    &&& forall|m: int|
                        0 <= m < k && rects@[m].loc.y == row_y ==> best_distance
                            <= center_distance(#[trigger] rects@[m], c2 as int)
                    &&& forall|m: int|
                        0 <= m < b && rects@[m].loc.y == row_y ==> best_distance
                            < center_distance(#[trigger] rects@[m], c2 as int)
                },
            },
        decreases rects.len() - k,
    {
        if rects[k].loc.y == row_y {
            let diff: i128 = rects[k].center_x2_exec() - c2;
            let d: i128 = if diff < 0 {
                -diff
            } else {
                diff
            };
            match best {
                None => {
                    best = Some(k);
                    best_distance = d;
                },
                Some(_) => {
                    if d < best_distance {
                        best = Some(k);
                        best_distance = d;
                    }
                },
            }
        }
        k = k + 1;
    }
    match best {
        Some(b) => b,
        None => {
            proof {
                let j = choose|j: int| 0 <= j < rects.len() && rects@[j].loc.y == row_y;
                assert(rects@[j].loc.y != row_y);
            }
            0
        },
    }
}

/// The window reached from `selected` when moving in `direction` through the
/// planned grid `rects` (one rectangle per window, in grid order).
///
/// Left and Right move to the previous or next rectangle when it lies in the
/// same row. Up and Down move to the adjacent row (the last rectangle above
/// before the selection, or the first one below after it) and choose there
/// the rectangle whose centre is horizontally nearest to the centre of the
/// selection. `None` when there is no such rectangle or `selected` is out of
/// range.
pub fn neighbor(rects: &[Rect], selected: usize, direction: ExposeDirection) -> (r: Option<usize>)
    ensures
        is_neighbor(rects@, selected as int, direction, opt_int(r)),
        r matches Some(i) ==> i < rects.len(),
{
    if selected >= rects.len() {
        proof {
            assert(!(exists|j: int| is_row_above(rects@, selected as int, j)));
            assert(!(exists|j: int| is_row_below(rects@, selected as int, j)));
        }
        return None;
    }
    let current = rects[selected];
    match direction {
        ExposeDirection::Left => {
            if selected >= 1 && rects[selected - 1].loc.y == current.loc.y {
                Some(selected - 1)
            } else {
                None
            }
        },
        ExposeDirection::Right => {
            let idx = selected + 1;
            if idx < rects.len() && rects[idx].loc.y == current.loc.y {
                Some(idx)
            } else {
                None
            }
        },
        ExposeDirection::Up => {
            match row_above(rects, selected) {
                None => None,
                Some(j) => {
                    let row_y = rects[j].loc.y;
                    let i = nearest_in_row(rects, row_y, current.center_x2_exec());
                    proof {
                        assert(is_row_above(rects@, selected as int, j as int));
                    }
                    Some(i)
                },
            }
        },
        ExposeDirection::Down => {
            match row_below(rects, selected) {
                None => None,
                Some(j) => {
                    let row_y = rects[j].loc.y;
                    let i = nearest_in_row(rects, row_y, current.center_x2_exec());
                    proof {
                        assert(is_row_below(rects@, selected as int, j as int));
                    }
                    Some(i)
                },
            }
        },
    }
}

} // verus!
