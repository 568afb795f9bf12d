//! The coverage search: a breadth-first flood fill over the geohash grid,
//! classifying every visited cell as accepted or rejected and expanding only
//! from cells that touch the polygon.
//!
//! The result is pinned down exactly: the accepted cells are precisely the
//! valid cells that are reachable from the seed cell through chains of
//! polygon-touching cells and that satisfy the mode's acceptance predicate.

use vstd::prelude::*;
use vstd::set_lib::{lemma_int_range, lemma_len_subset, set_int_range};
use std::collections::VecDeque;

use crate::{GeoPoint, GeohashError};
use crate::geometry::{
    PolyRings, Polygon, rect_intersects_poly, rect_within_poly, valid_polygon,
    rect_intersects_poly_val, rect_within_poly_val,
};
use crate::grid::{
    Cell, cell_code, cell_of_point, cell_of_point_val, code_chars, cols, neighbor_cells,
    neighbor_cells_val, lemma_neighbors_valid, rect_of_cell, rect_of_cell_val, rows, valid_cell,
    valid_precision,
};
use crate::seed::{bbox_center_val, search_seed, seed_interior_point_fast};

verus! {

/// Whether the cell's rectangle touches the polygon region at all.  Cells
/// that do not are pruned: they are rejected and never expanded from.
pub open spec fn cell_touches(pr: PolyRings, p: int, c: Cell) -> bool {
    rect_intersects_poly(rect_of_cell(c, p), pr)
}

/// Whether the cell's rectangle lies entirely within the polygon region.
pub open spec fn cell_inside(pr: PolyRings, p: int, c: Cell) -> bool {
    rect_within_poly(rect_of_cell(c, p), pr)
}

/// The acceptance predicate: touching is enough unless only fully contained
/// cells are wanted.
pub open spec fn cell_accepted(pr: PolyRings, p: int, full: bool, c: Cell) -> bool {
    cell_touches(pr, p, c) && (!full || cell_inside(pr, p, c))
}

/// The cell the search starts from: the one containing the seed point.
pub open spec fn start_cell(pr: PolyRings, p: int) -> Cell {
    cell_of_point(search_seed(pr), p)
}

/// Reachability in exactly `n` steps: each step moves to a grid neighbor of
/// a valid cell that touches the polygon.  Expansion does not depend on the
/// mode: in fully-contained mode, touching-but-not-contained cells are
/// rejected yet still expanded, which is what lets the search cross the
/// boundary region into the interior.
pub open spec fn reach_n(pr: PolyRings, p: int, c: Cell, n: nat) -> bool
    decreases n,
{
    if n == 0 {
        c == start_cell(pr, p)
    } else {
        exists|d: Cell|
            reach_n(pr, p, d, (n - 1) as nat) && valid_cell(d, p) && cell_touches(pr, p, d)
                && #[trigger] neighbor_cells(d, p).contains(c)
    }
}

/// Reachability from the seed cell in any number of steps.
pub open spec fn reachable(pr: PolyRings, p: int, c: Cell) -> bool {
    exists|n: nat| reach_n(pr, p, c, n)
}

/// What the coverage search computes for one polygon: every valid, reachable
/// cell that the mode accepts.
pub open spec fn cover_set(pr: PolyRings, p: int, full: bool) -> Set<Cell> {
    Set::new(
        |c: Cell| valid_cell(c, p) && reachable(pr, p, c) && cell_accepted(pr, p, full, c),
    )
}

/// Total number of cells in the grid at precision `p`.
pub open spec fn grid_size(p: int) -> int {
    cols(p) * rows(p)
}

/// Whether `c` is recorded in either classification list.
pub open spec fn classified(acc: Seq<Cell>, rej: Seq<Cell>, c: Cell) -> bool {
    acc.contains(c) || rej.contains(c)
}

fn vec_contains_cell(v: &Vec<Cell>, c: Cell) -> (r: bool)
    ensures
        r == v@.contains(c),
{
    let n: usize = v.len();
    let mut i: usize = 0;
    while i < n
        invariant
            0 <= i <= n,
            n == v@.len(),
            forall|j: int| 0 <= j < i ==> v@[j] != c,
        decreases n - i,
    {
        if v[i].cx == c.cx && v[i].cy == c.cy {
            assert(v@[i as int] == c);
            return true;
        }
        i = i + 1;
    }
    false
}

fn deque_contains_cell(q: &VecDeque<Cell>, c: Cell) -> (r: bool)
    ensures
        r == q@.contains(c),
{
    let n: usize = q.len();
    let mut i: usize = 0;
    while i < n
        invariant
            0 <= i <= n,
            n == q@.len(),
            forall|j: int| 0 <= j < i ==> q@[j] != c,
        decreases n - i,
    {
        let e = q[i];
        if e.cx == c.cx && e.cy == c.cy {
            assert(q@[i as int] == c);
            return true;
        }
        i = i + 1;
    }
    false
}

/// Two classification lists with no duplicates and no common member, all of
/// whose cells are valid, cannot outgrow the grid.
proof fn lemma_classified_bound(acc: Seq<Cell>, rej: Seq<Cell>, p: int)
    requires
        valid_precision(p),
        acc.no_duplicates(),
        rej.no_duplicates(),
        forall|x: Cell| acc.contains(x) ==> !rej.contains(x),
        forall|i: int| 0 <= i < acc.len() ==> valid_cell(#[trigger] acc[i], p),
        forall|i: int| 0 <= i < rej.len() ==> valid_cell(#[trigger] rej[i], p),
    ensures
        acc.len() + rej.len() <= grid_size(p),
{
    let s = acc + rej;
    assert forall|i: int, j: int| 0 <= i < s.len() && 0 <= j < s.len() && i != j implies s[i]
        != s[j] by {
        if i < acc.len() && j < acc.len() {
        } else if i >= acc.len() && j >= acc.len() {
        } else if i < acc.len() && j >= acc.len() {
            assert(acc.contains(s[i]));
            assert(rej.contains(s[j]));
        } else {
            assert(acc.contains(s[j]));
            assert(rej.contains(s[i]));
        }
    }
    assert(s.no_duplicates());
    let rws = rows(p);
    let f = |c: Cell| c.cx as int * rws + c.cy as int;
    let t = s.map_values(f);
    assert forall|i: int, j: int| 0 <= i < t.len() && 0 <= j < t.len() && i != j implies t[i]
        != t[j] by {
        let c1 = s[i];
        let c2 = s[j];
        assert(valid_cell(c1, p) && valid_cell(c2, p));
        assert(c1 != c2);
        assert(c1.cx as int * rws + c1.cy as int != c2.cx as int * rws + c2.cy as int)
            by (nonlinear_arith)
            requires
                0 <= c1.cy < rws,
                0 <= c2.cy < rws,
                0 <= c1.cx,
                0 <= c2.cx,
                c1 != c2,
        ;
    }
    assert(t.no_duplicates());
    t.unique_seq_to_set();
    assert forall|x: int| t.to_set().contains(x) implies set_int_range(0, grid_size(p)).contains(
        x,
    ) by {
        let i = choose|i: int| 0 <= i < t.len() && t[i] == x;
        let c1 = s[i];
        assert(valid_cell(c1, p));
        assert(0 <= (c1.cx as int) * rws + (c1.cy as int) < cols(p) * rws) by (nonlinear_arith)
            requires
                0 <= c1.cy < rws,
                0 <= c1.cx < cols(p),
        ;
    }
    lemma_int_range(0, grid_size(p));
    lemma_len_subset(t.to_set(), set_int_range(0, grid_size(p)));
}

/// If a set of cells contains the seed cell and is closed under expanding
/// any touching member to its neighbors, it contains every reachable cell.
proof fn lemma_reach_in_closed_seq(pr: PolyRings, p: int, s: Seq<Cell>, c: Cell, n: nat)
    requires
        s.contains(start_cell(pr, p)),
        forall|d: Cell, e: Cell|
            #![trigger s.contains(d), neighbor_cells(d, p).contains(e)]
            s.contains(d) && valid_cell(d, p) && cell_touches(pr, p, d) && neighbor_cells(
                d,
                p,
            ).contains(e) ==> s.contains(e),
        reach_n(pr, p, c, n),
    ensures
        s.contains(c),
    decreases n,
{
    if n == 0 {
    } else {
        let d = choose|d: Cell|
            reach_n(pr, p, d, (n - 1) as nat) && valid_cell(d, p) && cell_touches(pr, p, d)
                && #[trigger] neighbor_cells(d, p).contains(c);
        lemma_reach_in_closed_seq(pr, p, s, d, (n - 1) as nat);
    }
}

proof fn lemma_concat_contains(a: Seq<Cell>, b: Seq<Cell>, x: Cell)
    ensures
        (a + b).contains(x) <==> (a.contains(x) || b.contains(x)),
{
    if a.contains(x) {
        let i = choose|i: int| 0 <= i < a.len() && a[i] == x;
        assert((a + b)[i] == x);
    }
    if b.contains(x) {
        let i = choose|i: int| 0 <= i < b.len() && b[i] == x;
        assert((a + b)[a.len() + i] == x);
    }
    if (a + b).contains(x) {
        let i = choose|i: int| 0 <= i < (a + b).len() && (a + b)[i] == x;
        if i < a.len() {
            assert(a[i] == x);
        } else {
            assert(b[i - a.len()] == x);
        }
    }
}

proof fn lemma_push_contains(s: Seq<Cell>, c: Cell)
    ensures
        forall|x: Cell| #[trigger] s.push(c).contains(x) <==> (s.contains(x) || x == c),
        s.no_duplicates() && !s.contains(c) ==> s.push(c).no_duplicates(),
{
    assert forall|x: Cell| #[trigger] s.push(c).contains(x) implies (s.contains(x) || x == c) by {
        let i = choose|i: int| 0 <= i < s.push(c).len() && s.push(c)[i] == x;
        if i < s.len() {
            assert(s[i] == x);
        }
    }
    assert forall|x: Cell| (s.contains(x) || x == c) implies s.push(c).contains(x) by {
        if s.contains(x) {
            let i = choose|i: int| 0 <= i < s.len() && s[i] == x;
            assert(s.push(c)[i] == x);
        } else {
            assert(s.push(c)[s.len() as int] == x);
        }
    }
    if s.no_duplicates() && !s.contains(c) {
        assert forall|i: int, j: int|
            0 <= i < s.push(c).len() && 0 <= j < s.push(c).len() && i != j implies s.push(c)[i]
            != s.push(c)[j] by {
            if i < s.len() && j < s.len() {
            } else if j == s.len() {
                assert(s.push(c)[j] == c);
                assert(s[i] == s.push(c)[i]);
            } else {
                assert(s.push(c)[i] == c);
                assert(s[j] == s.push(c)[j]);
            }
        }
    }
}

/// Enqueues every neighbor of the touching cell `c` that is not yet
/// classified and not already waiting in the frontier.
#[verifier::loop_isolation(false)]
fn expand_neighbors(
    poly: &Polygon,
    precision: usize,
    accepted: &Vec<Cell>,
    rejected: &Vec<Cell>,
    queue: &mut VecDeque<Cell>,
    c: Cell,
)
    requires
        valid_polygon(poly@),
        valid_precision(precision as int),
        valid_cell(c, precision as int),
        cell_touches(poly@, precision as int, c),
        reachable(poly@, precision as int, c),
        forall|i: int|
            0 <= i < old(queue)@.len() ==> valid_cell(#[trigger] old(queue)@[i], precision as int)
                && reachable(poly@, precision as int, old(queue)@[i]),
    ensures
        final(queue)@.len() <= old(queue)@.len() + 8,
        forall|x: Cell| old(queue)@.contains(x) ==> #[trigger] final(queue)@.contains(x),
        forall|i: int|
            0 <= i < final(queue)@.len() ==> valid_cell(
                #[trigger] final(queue)@[i],
                precision as int,
            ) && reachable(poly@, precision as int, final(queue)@[i]),
        forall|e: Cell| #[trigger]
            neighbor_cells(c, precision as int).contains(e) ==> (classified(
                accepted@,
                rejected@,
                e,
            ) || final(queue)@.contains(e)),
{
    let ghost pr = poly@;
    let ghost p = precision as int;
    let ghost nc: nat = choose|n: nat| reach_n(pr, p, c, n);
    let nbrs = neighbor_cells_val(c, precision);
    proof {
        lemma_neighbors_valid(c, p);
    }
    let ghost q_entry = queue@;
    let nn: usize = nbrs.len();
    let mut k: usize = 0;
    while k < nn
        invariant
            0 <= k <= nn,
            queue@.len() <= q_entry.len() + k,
            forall|x: Cell| q_entry.contains(x) ==> #[trigger] queue@.contains(x),
            forall|i: int|
                0 <= i < queue@.len() ==> valid_cell(#[trigger] queue@[i], p) && reachable(
                    pr,
                    p,
                    queue@[i],
                ),
            forall|j: int|
                0 <= j < k ==> (classified(accepted@, rejected@, #[trigger] nbrs@[j])
                    || queue@.contains(nbrs@[j])),
        decreases nn - k,
    {
        let e = nbrs[k];
        let e_in_acc = vec_contains_cell(accepted, e);
        let e_in_rej = vec_contains_cell(rejected, e);
        let e_in_q = deque_contains_cell(queue, e);
        if !e_in_acc && !e_in_rej && !e_in_q {
            proof {
                assert(neighbor_cells(c, p).contains(nbrs@[k as int]));
                assert(reach_n(pr, p, e, nc + 1));
                assert(reachable(pr, p, e));
                lemma_push_contains(queue@, e);
            }
            queue.push_back(e);
        }
        k = k + 1;
    }
    proof {
        assert forall|e: Cell| neighbor_cells(c, p).contains(e) implies (classified(
            accepted@,
            rejected@,
            e,
        ) || queue@.contains(e)) by {
            let j = choose|j: int|
                0 <= j < neighbor_cells(c, p).len() && neighbor_cells(c, p)[j] == e;
            assert(nbrs@[j] == e);
        }
    }
}

/// When the frontier has drained, the classification lists contain exactly
/// the reachable cells, and the accepted list is exactly the cover set.
proof fn lemma_cover_final(pr: PolyRings, p: int, full: bool, acc: Seq<Cell>, rej: Seq<Cell>)
    requires
        classified(acc, rej, start_cell(pr, p)),
        forall|x: Cell| #[trigger]
            acc.contains(x) ==> valid_cell(x, p) && reachable(pr, p, x) && cell_accepted(
                pr,
                p,
                full,
                x,
            ),
        forall|x: Cell| #[trigger]
            rej.contains(x) ==> valid_cell(x, p) && reachable(pr, p, x) && !cell_accepted(
                pr,
                p,
                full,
                x,
            ),
        forall|d: Cell, e: Cell|
            #![trigger neighbor_cells(d, p).contains(e)]
            classified(acc, rej, d) && valid_cell(d, p) && cell_touches(pr, p, d)
                && neighbor_cells(d, p).contains(e) ==> classified(acc, rej, e),
    ensures
        acc.to_set() == cover_set(pr, p, full),
{
    let s = acc + rej;
    lemma_concat_contains(acc, rej, start_cell(pr, p));
    assert forall|d: Cell, e: Cell|
        #![trigger s.contains(d), neighbor_cells(d, p).contains(e)]
        s.contains(d) && valid_cell(d, p) && cell_touches(pr, p, d) && neighbor_cells(
            d,
            p,
        ).contains(e) implies s.contains(e) by {
        lemma_concat_contains(acc, rej, d);
        lemma_concat_contains(acc, rej, e);
    }
    assert forall|c0: Cell| cover_set(pr, p, full).contains(c0) implies acc.to_set().contains(
        c0,
    ) by {
        let n = choose|n: nat| reach_n(pr, p, c0, n);
        lemma_reach_in_closed_seq(pr, p, s, c0, n);
        lemma_concat_contains(acc, rej, c0);
    }
    assert forall|c0: Cell| acc.to_set().contains(c0) implies cover_set(pr, p, full).contains(
        c0,
    ) by {
        assert(acc.contains(c0));
    }
    assert(acc.to_set() =~= cover_set(pr, p, full));
}

/// Runs the flood fill for one polygon and returns its accepted cells.
///
/// The contract pins the result exactly: the returned cells are distinct and
/// form precisely `cover_set`, so any two runs on equal inputs agree.  The
/// search classifies each visited cell once, prunes cells that do not touch
/// the polygon without expanding them, and expands every touching cell to
/// its grid neighbors.
#[verifier::rlimit(60)]
pub fn cover_cells(poly: &Polygon, precision: usize, fully_contained_only: bool) -> (r: Vec<Cell>)
    requires
        valid_polygon(poly@),
        valid_precision(precision as int),
    ensures
        r@.no_duplicates(),
        forall|i: int| 0 <= i < r@.len() ==> valid_cell(#[trigger] r@[i], precision as int),
        r@.to_set() == cover_set(poly@, precision as int, fully_contained_only),
        r@.len() <= grid_size(precision as int),
{
    let ghost pr = poly@;
    let ghost p = precision as int;
    let ghost full = fully_contained_only;
    let seed_opt = seed_interior_point_fast(poly);
    let seed_pt: GeoPoint = match seed_opt {
        Some(pt) => pt,
        None => bbox_center_val(poly),
    };
    proof {
        assert(seed_pt == search_seed(pr));
    }
    let start: Cell = cell_of_point_val(seed_pt, precision);
    proof {
        assert(start == start_cell(pr, p));
        assert(reach_n(pr, p, start, 0));
    }
    let mut queue: VecDeque<Cell> = VecDeque::new();
    queue.push_back(start);
    proof {
        assert(queue@[0] == start_cell(pr, p));
        assert(queue@.contains(start_cell(pr, p)));
    }
    let mut accepted: Vec<Cell> = Vec::new();
    let mut rejected: Vec<Cell> = Vec::new();
    while queue.len() > 0
        invariant
            pr == poly@,
            p == precision as int,
            full == fully_contained_only,
            valid_polygon(pr),
            valid_precision(p),
            accepted@.no_duplicates(),
            rejected@.no_duplicates(),
            forall|x: Cell| accepted@.contains(x) ==> !rejected@.contains(x),
            forall|i: int| 0 <= i < accepted@.len() ==> valid_cell(#[trigger] accepted@[i], p),
            forall|i: int| 0 <= i < rejected@.len() ==> valid_cell(#[trigger] rejected@[i], p),
            forall|x: Cell| #[trigger]
                accepted@.contains(x) ==> reachable(pr, p, x) && cell_accepted(pr, p, full, x),
            forall|x: Cell| #[trigger]
                rejected@.contains(x) ==> reachable(pr, p, x) && !cell_accepted(pr, p, full, x),
            forall|i: int|
                0 <= i < queue@.len() ==> valid_cell(#[trigger] queue@[i], p) && reachable(
                    pr,
                    p,
                    queue@[i],
                ),
            classified(accepted@, rejected@, start_cell(pr, p)) || queue@.contains(
                start_cell(pr, p),
            ),
            forall|d: Cell, e: Cell|
                #![trigger neighbor_cells(d, p).contains(e)]
                classified(accepted@, rejected@, d) && valid_cell(d, p) && cell_touches(pr, p, d)
                    && neighbor_cells(d, p).contains(e) ==> (classified(accepted@, rejected@, e)
                    || queue@.contains(e)),
            accepted@.len() + rejected@.len() <= grid_size(p),
        decreases 9 * (grid_size(p) - accepted@.len() - rejected@.len()) + queue@.len(),
    {
        let ghost q_before = queue@;
        let popped = queue.pop_front();
        let c: Cell = popped.unwrap();
        proof {
            assert(c == q_before[0]);
            assert(q_before.contains(c));
            assert(valid_cell(c, p) && reachable(pr, p, c));
            assert forall|x: Cell| q_before.contains(x) && x != c implies queue@.contains(x) by {
                let i = choose|i: int| 0 <= i < q_before.len() && q_before[i] == x;
                assert(queue@[i - 1] == x);
            }
        }
        let in_acc = vec_contains_cell(&accepted, c);
        let in_rej = vec_contains_cell(&rejected, c);
        if !in_acc && !in_rej {
            let rect = rect_of_cell_val(c, precision);
            let touches = rect_intersects_poly_val(rect, poly);
            if !touches {
                proof {
                    lemma_push_contains(rejected@, c);
                    lemma_classified_bound(accepted@, rejected@.push(c), p);
                }
                rejected.push(c);
            } else {
                let accept = if fully_contained_only {
                    rect_within_poly_val(rect, poly)
                } else {
                    true
                };
                if accept {
                    proof {
                        lemma_push_contains(accepted@, c);
                        lemma_classified_bound(accepted@.push(c), rejected@, p);
                    }
                    accepted.push(c);
                } else {
                    proof {
                        lemma_push_contains(rejected@, c);
                        lemma_classified_bound(accepted@, rejected@.push(c), p);
                    }
                    rejected.push(c);
                }
                expand_neighbors(poly, precision, &accepted, &rejected, &mut queue, c);
            }
        }
    }
    proof {
        lemma_cover_final(pr, p, full, accepted@, rejected@);
    }
    accepted
}

/// The set of code strings (as character sequences) of a set of cells.
pub open spec fn views_of(v: Seq<String>) -> Set<Seq<char>> {
    v.map_values(|s: String| s@).to_set()
}

/// The cover set rendered as cell codes.
pub open spec fn cover_codes(pr: PolyRings, p: int, full: bool) -> Set<Seq<char>> {
    cover_set(pr, p, full).map(|c: Cell| code_chars(c, p))
}

proof fn lemma_views_contains(v: Seq<String>, x: Seq<char>)
    ensures
        views_of(v).contains(x) <==> exists|i: int| 0 <= i < v.len() && v[i]@ == x,
{
    let m = v.map_values(|s: String| s@);
    if views_of(v).contains(x) {
        let i = choose|i: int| 0 <= i < m.len() && m[i] == x;
        assert(v[i]@ == x);
    }
    if exists|i: int| 0 <= i < v.len() && v[i]@ == x {
        let i = choose|i: int| 0 <= i < v.len() && v[i]@ == x;
        assert(m[i] == x);
        assert(m.contains(x));
    }
}

spec fn some_code_matches(cells: Seq<Cell>, p: int, n: int, x: Seq<char>) -> bool {
    exists|j: int| 0 <= j < n && code_chars(#[trigger] cells[j], p) == x
}

spec fn out_has_code(out: Seq<String>, x: Seq<char>) -> bool {
    exists|k: int| 0 <= k < out.len() && #[trigger] out[k]@ == x
}

fn vec_contains_string(v: &Vec<String>, s: &String) -> (r: bool)
    ensures
        r == exists|i: int| 0 <= i < v@.len() && v@[i]@ == s@,
{
    let n: usize = v.len();
    let mut i: usize = 0;
    while i < n
        invariant
            0 <= i <= n,
            n == v@.len(),
            forall|j: int| 0 <= j < i ==> v@[j]@ != s@,
        decreases n - i,
    {
        if v[i] == *s {
            return true;
        }
        i = i + 1;
    }
    false
}

/// Renders a list of valid cells as their codes, dropping repeated codes.
#[verifier::loop_isolation(false)]
fn codes_of_cells(cells: &Vec<Cell>, precision: usize) -> (out: Vec<String>)
    requires
        valid_precision(precision as int),
        forall|i: int| 0 <= i < cells@.len() ==> valid_cell(#[trigger] cells@[i], precision as int),
    ensures
        forall|i: int, j: int| 0 <= i < j < out@.len() ==> out@[i]@ != out@[j]@,
        views_of(out@) == cells@.to_set().map(
            |c: Cell| code_chars(c, precision as int),
        ),
{
    let ghost p = precision as int;
    let n: usize = cells.len();
    let mut out: Vec<String> = Vec::new();
    let mut i: usize = 0;
    while i < n
        invariant
            0 <= i <= n,
            forall|k1: int, k2: int| 0 <= k1 < k2 < out@.len() ==> out@[k1]@ != out@[k2]@,
            forall|k: int|
                0 <= k < out@.len() ==> some_code_matches(cells@, p, i as int, #[trigger] out@[k]@),
            forall|j: int|
                0 <= j < i ==> out_has_code(out@, code_chars(#[trigger] cells@[j], p)),
        decreases n - i,
    {
        let ghost out_prev = out@;
        let code = cell_code(cells[i], precision);
        let ghost code_view = code@;
        let dup = vec_contains_string(&out, &code);
        if !dup {
            out.push(code);
        }
        proof {
            assert forall|k: int| 0 <= k < out@.len() implies some_code_matches(
                cells@,
                p,
                i + 1,
                #[trigger] out@[k]@,
            ) by {
                if k < out_prev.len() {
                    assert(out@[k]@ == out_prev[k]@);
                    assert(some_code_matches(cells@, p, i as int, out_prev[k]@));
                    let j = choose|j: int|
                        0 <= j < i && code_chars(#[trigger] cells@[j], p) == out_prev[k]@;
                    assert(code_chars(cells@[j], p) == out@[k]@);
                } else {
                    assert(out@[k]@ == code_view);
                    assert(code_chars(cells@[i as int], p) == out@[k]@);
                }
            }
            assert forall|j: int| 0 <= j < i + 1 implies out_has_code(
                out@,
                code_chars(#[trigger] cells@[j], p),
            ) by {
                if j < i {
                    assert(out_has_code(out_prev, code_chars(cells@[j], p)));
                    let k = choose|k: int|
                        0 <= k < out_prev.len() && #[trigger] out_prev[k]@ == code_chars(
                            cells@[j],
                            p,
                        );
                    assert(out@[k]@ == code_chars(cells@[j], p));
                } else {
                    if dup {
                        let k = choose|k: int| 0 <= k < out_prev.len() && out_prev[k]@ == code_view;
                        assert(out@[k]@ == code_chars(cells@[i as int], p));
                    } else {
                        assert(out@[out_prev.len() as int]@ == code_chars(cells@[i as int], p));
                    }
                }
            }
        }
        i = i + 1;
    }
    proof {
        let lhs = views_of(out@);
        let rhs = cells@.to_set().map(|c: Cell| code_chars(c, p));
        assert forall|x: Seq<char>| lhs.contains(x) implies rhs.contains(x) by {
            lemma_views_contains(out@, x);
            let k = choose|k: int| 0 <= k < out@.len() && out@[k]@ == x;
            assert(some_code_matches(cells@, p, n as int, out@[k]@));
            let j = choose|j: int| 0 <= j < n && code_chars(#[trigger] cells@[j], p) == x;
            assert(cells@.to_set().contains(cells@[j]));
        }
        assert forall|x: Seq<char>| rhs.contains(x) implies lhs.contains(x) by {
            let c = choose|c: Cell| cells@.to_set().contains(c) && code_chars(c, p) == x;
            let j = choose|j: int| 0 <= j < cells@.len() && cells@[j] == c;
            assert(out_has_code(out@, code_chars(cells@[j], p)));
            let k = choose|k: int| 0 <= k < out@.len() && out@[k]@ == x;
            lemma_views_contains(out@, x);
        }
        assert(lhs =~= rhs);
    }
    out
}

/// Covers one polygon and returns the accepted cell codes.
///
/// Success is owed exactly when the precision is in range and the polygon's
/// rings are well formed; the two failures report which check failed.  On
/// success the returned codes are distinct and form exactly the rendered
/// cover set, so repeated runs on equal inputs return the same set.
pub fn cover_one(poly: &Polygon, precision: usize, fully_contained_only: bool) -> (r: Result<
    Vec<String>,
    GeohashError,
>)
    ensures
        r is Ok <==> (valid_precision(precision as int) && valid_polygon(poly@)),
        !valid_precision(precision as int) ==> r == Err::<Vec<String>, GeohashError>(
            GeohashError::InvalidPrecision,
        ),
        valid_precision(precision as int) && !valid_polygon(poly@) ==> r == Err::<
            Vec<String>,
            GeohashError,
        >(GeohashError::CodecError),
        r matches Ok(v) ==> (forall|i: int, j: int| 0 <= i < j < v@.len() ==> v@[i]@ != v@[j]@)
            && views_of(v@) == cover_codes(poly@, precision as int, fully_contained_only),
{
    if precision < 1 || precision > 12 {
        return Err(GeohashError::InvalidPrecision);
    }
    if !poly.is_valid() {
        return Err(GeohashError::CodecError);
    }
    let cells = cover_cells(poly, precision, fully_contained_only);
    Ok(codes_of_cells(&cells, precision))
}

/// Whether every polygon of the collection is well formed.
pub open spec fn all_polys_valid(ps: Seq<Polygon>) -> bool {
    forall|i: int| 0 <= i < ps.len() ==> valid_polygon(#[trigger] ps[i]@)
}

/// The union of the rendered cover sets of the first `n` polygons.
pub open spec fn union_codes(ps: Seq<Polygon>, p: int, full: bool, n: int) -> Set<Seq<char>>
    decreases n,
{
    if n <= 0 {
        Set::empty()
    } else {
        union_codes(ps, p, full, n - 1).union(cover_codes(ps[n - 1]@, p, full))
    }
}

/// Covers a collection of polygons and returns the union of their accepted
/// cell codes, without repetitions.
///
/// Cells are deduplicated across polygons: two polygons may cover the same
/// cell, and its code appears once.  Each polygon is searched with its own
/// frontier and its own rejected partition, so a cell pruned for one polygon
/// can still be accepted for another.  Any malformed polygon fails the whole
/// call; no partial result is returned.
#[verifier::loop_isolation(false)]
pub fn polygons_to_geohashes(
    polygons: &Vec<Polygon>,
    precision: usize,
    fully_contained_only: bool,
) -> (r: Result<Vec<String>, GeohashError>)
    ensures
        r is Ok <==> (valid_precision(precision as int) && all_polys_valid(polygons@)),
        !valid_precision(precision as int) ==> r == Err::<Vec<String>, GeohashError>(
            GeohashError::InvalidPrecision,
        ),
        valid_precision(precision as int) && !all_polys_valid(polygons@) ==> r == Err::<
            Vec<String>,
            GeohashError,
        >(GeohashError::CodecError),
        r matches Ok(v) ==> (forall|i: int, j: int| 0 <= i < j < v@.len() ==> v@[i]@ != v@[j]@)
            && views_of(v@) == union_codes(
            polygons@,
            precision as int,
            fully_contained_only,
            polygons@.len() as int,
        ),
{
    let ghost p = precision as int;
    let ghost full = fully_contained_only;
    if precision < 1 || precision > 12 {
        return Err(GeohashError::InvalidPrecision);
    }
    let n: usize = polygons.len();
    let mut i: usize = 0;
    while i < n
        invariant
            0 <= i <= n,
            forall|j: int| 0 <= j < i ==> valid_polygon(#[trigger] polygons@[j]@),
        decreases n - i,
    {
        if !polygons[i].is_valid() {
            assert(!valid_polygon(polygons@[i as int]@));
            return Err(GeohashError::CodecError);
        }
        i = i + 1;
    }
    let mut out: Vec<String> = Vec::new();
    let mut k: usize = 0;
    while k < n
        invariant
            0 <= k <= n,
            forall|k1: int, k2: int| 0 <= k1 < k2 < out@.len() ==> out@[k1]@ != out@[k2]@,
            views_of(out@) == union_codes(polygons@, p, full, k as int),
        decreases n - k,
    {
        let cells = cover_cells(&polygons[k], precision, fully_contained_only);
        let codes = codes_of_cells(&cells, precision);
        let ghost out_before = out@;
        let m: usize = codes.len();
        let mut t: usize = 0;
        while t < m
            invariant
                0 <= t <= m,
                m == codes@.len(),
                forall|k1: int, k2: int| 0 <= k1 < k2 < out@.len() ==> out@[k1]@ != out@[k2]@,
                forall|x: Seq<char>|
                    #![trigger views_of(out@).contains(x)]
                    views_of(out@).contains(x) <==> (views_of(out_before).contains(x) || exists|
                        j: int,
                    |
                        0 <= j < t && codes@[j]@ == x),
            decreases m - t,
        {
            let ghost out_prev = out@;
            let code_in = vec_contains_string(&out, &codes[t]);
            if !code_in {
                let c = codes[t].clone();
                assert(c@ == codes@[t as int]@);
                out.push(c);
            }
            proof {
                assert forall|x: Seq<char>| #[trigger]
                    views_of(out@).contains(x) implies (views_of(out_before).contains(x) || exists|
                    j: int,
                |
                    0 <= j < t + 1 && codes@[j]@ == x) by {
                    lemma_views_contains(out@, x);
                    let ii = choose|ii: int| 0 <= ii < out@.len() && out@[ii]@ == x;
                    if ii < out_prev.len() {
                        assert(out_prev[ii]@ == x);
                        lemma_views_contains(out_prev, x);
                    } else {
                        assert(out@[ii]@ == codes@[t as int]@);
                    }
                }
                assert forall|x: Seq<char>|
                    (views_of(out_before).contains(x) || exists|j: int|
                        0 <= j < t + 1 && codes@[j]@ == x) implies #[trigger] views_of(
                    out@,
                ).contains(x) by {
                    if views_of(out_before).contains(x) || (exists|j: int|
                        0 <= j < t && codes@[j]@ == x) {
                        assert(views_of(out_prev).contains(x));
                        lemma_views_contains(out_prev, x);
                        let ii = choose|ii: int| 0 <= ii < out_prev.len() && out_prev[ii]@ == x;
                        if out@.len() > out_prev.len() {
                            assert(out@[ii]@ == x);
                        } else {
                            assert(out@[ii]@ == x);
                        }
                        lemma_views_contains(out@, x);
                    } else {
                        let j = choose|j: int| 0 <= j < t + 1 && codes@[j]@ == x;
                        assert(j == t);
                        if code_in {
                            let ii = choose|ii: int|
                                0 <= ii < out_prev.len() && out_prev[ii]@ == codes@[t as int]@;
                            assert(out@[ii]@ == x);
                        } else {
                            assert(out@[out_prev.len() as int]@ == x);
                        }
                        lemma_views_contains(out@, x);
                    }
                }
            }
            t = t + 1;
        }
        proof {
            let rendered = cover_codes(polygons@[k as int]@, p, full);
            assert(views_of(codes@) == rendered);
            assert forall|x: Seq<char>| #[trigger] views_of(out@).contains(x) implies union_codes(
                polygons@,
                p,
                full,
                k + 1,
            ).contains(x) by {
                if !views_of(out_before).contains(x) {
                    let j = choose|j: int| 0 <= j < codes@.len() && codes@[j]@ == x;
                    lemma_views_contains(codes@, x);
                }
            }
            assert forall|x: Seq<char>| union_codes(polygons@, p, full, k + 1).contains(
                x,
            ) implies #[trigger] views_of(out@).contains(x) by {
                if rendered.contains(x) {
                    lemma_views_contains(codes@, x);
                    let j = choose|j: int| 0 <= j < codes@.len() && codes@[j]@ == x;
                }
            }
            assert(views_of(out@) =~= union_codes(polygons@, p, full, k + 1));
        }
        k = k + 1;
    }
    Ok(out)
}

} // verus!
