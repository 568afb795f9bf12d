//! The properties the coverage search guarantees, stated on the cover set
//! that `cover_cells` (and through it `cover_one` and
//! `polygons_to_geohashes`) returns exactly.

use vstd::prelude::*;
use vstd::arithmetic::div_mod::lemma_fundamental_div_mod_converse;
use vstd::set_lib::{lemma_int_range, lemma_len_subset, lemma_map_size_bound, set_int_range};

use crate::cover::{
    cell_accepted, cell_inside, cell_touches, cover_set, grid_size, reachable, start_cell,
};
use crate::geometry::PolyRings;
use crate::grid::{Cell, cols, lemma_grid_shape, rows, valid_cell, valid_precision};

verus! {

/// Soundness: every cell of the cover set touches the polygon, and in
/// fully-contained mode lies entirely within it.
pub proof fn lemma_cover_sound(pr: PolyRings, p: int, full: bool, c: Cell)
    requires
        cover_set(pr, p, full).contains(c),
    ensures
        valid_cell(c, p),
        cell_touches(pr, p, c),
        full ==> cell_inside(pr, p, c),
{
}

/// Completeness over the search region: every valid cell that is reachable
/// from the seed through touching cells and that the mode accepts is in the
/// cover set.
pub proof fn lemma_cover_complete(pr: PolyRings, p: int, full: bool, c: Cell)
    requires
        valid_cell(c, p),
        reachable(pr, p, c),
        cell_accepted(pr, p, full, c),
    ensures
        cover_set(pr, p, full).contains(c),
{
}

/// Idempotence: the cover set is a function of the polygon, the precision
/// and the mode alone, so any two results that satisfy the search's
/// postcondition on equal inputs are one and the same set.
pub proof fn lemma_cover_deterministic(pr: PolyRings, p: int, full: bool, s1: Set<Cell>, s2: Set<
    Cell,
>)
    requires
        s1 == cover_set(pr, p, full),
        s2 == cover_set(pr, p, full),
    ensures
        s1 == s2,
{
}

/// Monotonicity across modes: whatever is accepted in fully-contained mode
/// is also accepted in touching mode.  Both modes expand through the same
/// touching cells, so reachability is shared, and a contained cell touches.
pub proof fn lemma_contained_subset_touching(pr: PolyRings, p: int)
    ensures
        cover_set(pr, p, true).subset_of(cover_set(pr, p, false)),
        forall|c: Cell|
            cover_set(pr, p, true).contains(c) ==> #[trigger] cover_set(pr, p, false).contains(c),
{
    assert forall|c: Cell| cover_set(pr, p, true).contains(c) implies #[trigger] cover_set(
        pr,
        p,
        false,
    ).contains(c) by {
        assert(cell_touches(pr, p, c));
    }
}

/// Termination bound: the cover set is finite and cannot exceed the total
/// number of grid cells at its precision.  Together with the search loop's
/// decreasing measure this bounds the whole flood fill.
pub proof fn lemma_cover_bounded(pr: PolyRings, p: int, full: bool)
    requires
        valid_precision(p),
    ensures
        cover_set(pr, p, full).finite(),
        cover_set(pr, p, full).len() <= grid_size(p),
{
    lemma_grid_shape(p);
    let rws = rows(p);
    let f = |v: int| Cell { cx: (v / rws) as u32, cy: (v % rws) as u32 };
    let universe = set_int_range(0, grid_size(p)).map(f);
    lemma_int_range(0, grid_size(p));
    assert forall|c: Cell| cover_set(pr, p, full).contains(c) implies universe.contains(c) by {
        let v = (c.cx as int) * rws + (c.cy as int);
        assert(0 <= (c.cx as int) * rws + (c.cy as int) < cols(p) * rws) by (nonlinear_arith)
            requires
                0 <= c.cy < rws,
                0 <= c.cx < cols(p),
        ;
        lemma_fundamental_div_mod_converse(v, rws, c.cx as int, c.cy as int);
        assert(f(v) == c);
        assert(set_int_range(0, grid_size(p)).contains(v));
    }
    lemma_map_size_bound(set_int_range(0, grid_size(p)), universe, f);
    lemma_len_subset(cover_set(pr, p, full), universe);
}

} // verus!
