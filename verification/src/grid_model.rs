//! The mathematical model of the occupancy grid.
//!
//! A grid is modelled as a three-dimensional sequence `g[x][y][s]`: slot `s`
//! of the cell at column `x`, row `y` holds either a non-negative occupant id
//! or `-1`, the empty sentinel. The spec functions here give the vocabulary
//! that every contract of the library is stated in; the proof functions state
//! the laws of the model (uniqueness preservation, the place/remove round
//! trip) that the operations rely on.

use vstd::prelude::*;

verus! {

/// The grid as a mathematical value: `g[x][y][s]` is the id held by slot
/// `s` of the cell at `(x, y)`, or `-1` when the slot is empty.
pub type Grid = Seq<Seq<Seq<i16>>>;

/// The model of the executable representation: a nested vector, viewed
/// pointwise.
pub open spec fn vec_grid_view(v: Vec<Vec<Vec<i16>>>) -> Grid {
    Seq::new(v@.len(), |x: int| Seq::new(v@[x]@.len(), |y: int| v@[x]@[y]@))
}

pub open spec fn grid_width(g: Grid) -> int {
    g.len() as int
}

pub open spec fn grid_height(g: Grid) -> int {
    g[0].len() as int
}

pub open spec fn grid_cap(g: Grid) -> int {
    g[0][0].len() as int
}

/// Well-formedness: non-zero dimensions, every column of the same height,
/// every cell of the same capacity. Width and height are bounded by
/// `i16::MAX` so that every cell can be named by a `Coordinate`.
pub open spec fn grid_wf(g: Grid) -> bool {
    &&& 0 < g.len() <= 0x7fff
    &&& 0 < g[0].len() <= 0x7fff
    &&& 0 < g[0][0].len()
    &&& forall|x: int| 0 <= x < g.len() ==> (#[trigger] g[x]).len() == g[0].len()
    &&& forall|x: int, y: int|
        0 <= x < g.len() && 0 <= y < g[0].len() ==> (#[trigger] g[x][y]).len() == g[0][0].len()
}

pub open spec fn in_bounds(g: Grid, x: int, y: int) -> bool {
    0 <= x < grid_width(g) && 0 <= y < grid_height(g)
}

/// Some slot of the cell at `(x, y)` holds `id`.
pub open spec fn cell_has(g: Grid, x: int, y: int, id: i16) -> bool {
    exists|s: int| 0 <= s < g[x][y].len() && (#[trigger] g[x][y][s]) == id
}

/// The cell at `(x, y)` has at least one empty slot.
pub open spec fn cell_free(g: Grid, x: int, y: int) -> bool {
    cell_has(g, x, y, -1i16)
}

/// Some slot somewhere on the grid holds `id`.
pub open spec fn grid_has(g: Grid, id: i16) -> bool {
    exists|x: int, y: int| in_bounds(g, x, y) && #[trigger] cell_has(g, x, y, id)
}

/// `(a, b)` comes strictly before `(x, y)` in the scan order of
/// `get_position`: x ascending, then y ascending.
pub open spec fn scans_before(a: int, b: int, x: int, y: int) -> bool {
    a < x || (a == x && b < y)
}

/// `(x, y)` is the first cell in scan order holding `id`.
pub open spec fn is_first_cell(g: Grid, id: i16, x: int, y: int) -> bool {
    &&& in_bounds(g, x, y)
    &&& cell_has(g, x, y, id)
    &&& forall|a: int, b: int|
        in_bounds(g, a, b) && scans_before(a, b, x, y) ==> !(#[trigger] cell_has(g, a, b, id))
}

/// The first cell in scan order holding `id` (meaningful when
/// `grid_has(g, id)`; see `lemma_first_cell_exists`).
pub open spec fn first_cell(g: Grid, id: i16) -> (int, int) {
    choose|x: int, y: int| is_first_cell(g, id, x, y)
}

/// `s` is the first slot index of `cell` holding `v`.
pub open spec fn is_first_slot(cell: Seq<i16>, v: i16, s: int) -> bool {
    &&& 0 <= s < cell.len()
    &&& cell[s] == v
    &&& forall|t: int| 0 <= t < s ==> (#[trigger] cell[t]) != v
}

/// The first slot index of `cell` holding `v` (meaningful when some slot
/// does; see `lemma_first_slot_exists`).
pub open spec fn first_slot(cell: Seq<i16>, v: i16) -> int {
    choose|s: int| is_first_slot(cell, v, s)
}

/// The grid with slot `s` of the cell at `(x, y)` set to `v`.
pub open spec fn grid_update(g: Grid, x: int, y: int, s: int, v: i16) -> Grid {
    g.update(x, g[x].update(y, g[x][y].update(s, v)))
}

/// The grid after a successful `place(id, (x, y))`: the first empty slot
/// of the cell is assigned `id`.
pub open spec fn spec_place(g: Grid, x: int, y: int, id: i16) -> Grid {
    grid_update(g, x, y, first_slot(g[x][y], -1i16), id)
}

/// The grid after a successful `remove(id, (x, y))`: the first slot of the
/// cell holding `id` is cleared.
pub open spec fn spec_remove(g: Grid, x: int, y: int, id: i16) -> Grid {
    grid_update(g, x, y, first_slot(g[x][y], id), -1i16)
}

/// Both grids have the same dimensions, cell for cell.
pub open spec fn same_shape(g1: Grid, g2: Grid) -> bool {
    &&& g1.len() == g2.len()
    &&& forall|x: int| 0 <= x < g1.len() ==> (#[trigger] g1[x]).len() == g2[x].len()
    &&& forall|x: int, y: int|
        0 <= x < g1.len() && 0 <= y < g1[x].len() ==> (#[trigger] g1[x][y]).len() == g2[x][y].len()
}

/// Every slot of every cell is empty.
pub open spec fn all_slots_empty(g: Grid) -> bool {
    forall|x: int, y: int, s: int|
        0 <= x < g.len() && 0 <= y < g[x].len() && 0 <= s < g[x][y].len()
            ==> (#[trigger] g[x][y][s]) == -1
}

/// No two distinct slots across the grid hold the same non-empty id.
pub open spec fn unique_ids(g: Grid) -> bool {
    forall|x1: int, y1: int, s1: int, x2: int, y2: int, s2: int|
        #![trigger g[x1][y1][s1], g[x2][y2][s2]]
        0 <= x1 < g.len() && 0 <= y1 < g[x1].len() && 0 <= s1 < g[x1][y1].len()
        && 0 <= x2 < g.len() && 0 <= y2 < g[x2].len() && 0 <= s2 < g[x2][y2].len()
        && g[x1][y1][s1] == g[x2][y2][s2] && g[x1][y1][s1] != -1
            ==> x1 == x2 && y1 == y2 && s1 == s2
}

/// A grid shaped like a well-formed grid is well-formed.
pub proof fn lemma_same_shape_wf(g1: Grid, g2: Grid)
    requires
        grid_wf(g1),
        same_shape(g1, g2),
    ensures
        grid_wf(g2),
{
    assert(g2[0].len() == g1[0].len());
    assert(g2[0][0].len() == g1[0][0].len());
    assert forall|x: int| 0 <= x < g2.len() implies (#[trigger] g2[x]).len() == g2[0].len() by {
        assert(g1[x].len() == g1[0].len());
    }
    assert forall|x: int, y: int|
        0 <= x < g2.len() && 0 <= y < g2[0].len() implies (#[trigger] g2[x][y]).len()
        == g2[0][0].len() by {
        assert(g1[x].len() == g1[0].len());
        assert(g1[x][y].len() == g1[0][0].len());
    }
}

/// A first slot holding `v` exists as soon as any slot holds `v`, and
/// `first_slot` denotes it.
pub proof fn lemma_first_slot_exists(cell: Seq<i16>, v: i16)
    requires
        exists|t: int| 0 <= t < cell.len() && (#[trigger] cell[t]) == v,
    ensures
        is_first_slot(cell, v, first_slot(cell, v)),
{
    let t0 = choose|t: int| 0 <= t < cell.len() && (#[trigger] cell[t]) == v;
    lemma_first_slot_from_witness(cell, v, t0);
}

proof fn lemma_first_slot_from_witness(cell: Seq<i16>, v: i16, t0: int)
    requires
        0 <= t0 < cell.len(),
        cell[t0] == v,
    ensures
        exists|s: int| is_first_slot(cell, v, s),
    decreases t0,
{
    if exists|t: int| 0 <= t < t0 && (#[trigger] cell[t]) == v {
        let t1 = choose|t: int| 0 <= t < t0 && (#[trigger] cell[t]) == v;
        lemma_first_slot_from_witness(cell, v, t1);
    } else {
        assert(is_first_slot(cell, v, t0));
    }
}

/// A first cell holding `id` exists as soon as any cell holds it, and
/// `first_cell` denotes it.
pub proof fn lemma_first_cell_exists(g: Grid, id: i16)
    requires
        grid_has(g, id),
    ensures
        is_first_cell(g, id, first_cell(g, id).0, first_cell(g, id).1),
{
    let (x0, y0) = choose|x: int, y: int| in_bounds(g, x, y) && #[trigger] cell_has(g, x, y, id);
    lemma_first_cell_from_witness(g, id, x0, y0);
}

proof fn lemma_first_cell_from_witness(g: Grid, id: i16, x0: int, y0: int)
    requires
        in_bounds(g, x0, y0),
        cell_has(g, x0, y0, id),
    ensures
        exists|x: int, y: int| is_first_cell(g, id, x, y),
    decreases x0, y0,
{
    if exists|a: int, b: int|
        in_bounds(g, a, b) && scans_before(a, b, x0, y0) && #[trigger] cell_has(g, a, b, id) {
        let (a, b) = choose|a: int, b: int|
            in_bounds(g, a, b) && scans_before(a, b, x0, y0) && #[trigger] cell_has(g, a, b, id);
        lemma_first_cell_from_witness(g, id, a, b);
    } else {
        assert(is_first_cell(g, id, x0, y0));
    }
}

/// There is only one first cell for a given id.
pub proof fn lemma_first_cell_unique(g: Grid, id: i16, x1: int, y1: int, x2: int, y2: int)
    requires
        is_first_cell(g, id, x1, y1),
        is_first_cell(g, id, x2, y2),
    ensures
        x1 == x2 && y1 == y2,
{
    if scans_before(x1, y1, x2, y2) {
        assert(!cell_has(g, x1, y1, id));
    } else if scans_before(x2, y2, x1, y1) {
        assert(!cell_has(g, x2, y2, id));
    }
}

/// How `grid_update` relates to the grid it starts from: one slot changed,
/// every other slot and every dimension kept.
pub proof fn lemma_grid_update_index(g: Grid, x: int, y: int, s: int, v: i16)
    requires
        0 <= x < g.len(),
        0 <= y < g[x].len(),
        0 <= s < g[x][y].len(),
    ensures
        grid_update(g, x, y, s, v).len() == g.len(),
        forall|a: int|
            0 <= a < g.len() ==> (#[trigger] grid_update(g, x, y, s, v)[a]).len() == g[a].len(),
        forall|a: int, b: int|
            0 <= a < g.len() && 0 <= b < g[a].len()
                ==> (#[trigger] grid_update(g, x, y, s, v)[a][b]).len() == g[a][b].len(),
        forall|a: int, b: int, t: int|
            0 <= a < g.len() && 0 <= b < g[a].len() && 0 <= t < g[a][b].len()
                && !(a == x && b == y && t == s)
                ==> (#[trigger] grid_update(g, x, y, s, v)[a][b][t]) == g[a][b][t],
        grid_update(g, x, y, s, v)[x][y][s] == v,
        same_shape(g, grid_update(g, x, y, s, v)),
        grid_wf(g) ==> grid_wf(grid_update(g, x, y, s, v)),
{
}

/// Clearing one slot cannot duplicate an id.
pub proof fn lemma_clear_slot_preserves_unique(g: Grid, x: int, y: int, s: int)
    requires
        unique_ids(g),
        0 <= x < g.len(),
        0 <= y < g[x].len(),
        0 <= s < g[x][y].len(),
    ensures
        unique_ids(grid_update(g, x, y, s, -1i16)),
{
    lemma_grid_update_index(g, x, y, s, -1i16);
}

/// Placing an id that the grid does not hold cannot duplicate an id.
pub proof fn lemma_place_fresh_preserves_unique(g: Grid, x: int, y: int, s: int, id: i16)
    requires
        unique_ids(g),
        grid_wf(g),
        !grid_has(g, id),
        id != -1,
        in_bounds(g, x, y),
        0 <= s < g[x][y].len(),
    ensures
        unique_ids(grid_update(g, x, y, s, id)),
{
    lemma_grid_update_index(g, x, y, s, id);
    let g2 = grid_update(g, x, y, s, id);
    assert forall|x1: int, y1: int, s1: int, x2: int, y2: int, s2: int|
        #![trigger g2[x1][y1][s1], g2[x2][y2][s2]]
        0 <= x1 < g2.len() && 0 <= y1 < g2[x1].len() && 0 <= s1 < g2[x1][y1].len()
        && 0 <= x2 < g2.len() && 0 <= y2 < g2[x2].len() && 0 <= s2 < g2[x2][y2].len()
        && g2[x1][y1][s1] == g2[x2][y2][s2] && g2[x1][y1][s1] != -1
        implies x1 == x2 && y1 == y2 && s1 == s2 by {
        if x1 == x && y1 == y && s1 == s {
            if !(x2 == x && y2 == y && s2 == s) {
                assert(g2[x2][y2][s2] == g[x2][y2][s2]);
                assert(g[x2][y2][s2] == id);
                assert(cell_has(g, x2, y2, id));
                assert(in_bounds(g, x2, y2));
                assert(grid_has(g, id));
            }
        } else if x2 == x && y2 == y && s2 == s {
            assert(g2[x1][y1][s1] == g[x1][y1][s1]);
            assert(g[x1][y1][s1] == id);
            assert(cell_has(g, x1, y1, id));
            assert(in_bounds(g, x1, y1));
            assert(grid_has(g, id));
        } else {
            assert(g2[x1][y1][s1] == g[x1][y1][s1]);
            assert(g2[x2][y2][s2] == g[x2][y2][s2]);
        }
    }
}

/// When ids are unique, clearing the one slot that holds `id` leaves a grid
/// without `id`.
pub proof fn lemma_remove_makes_absent(g: Grid, x: int, y: int, s: int, id: i16)
    requires
        unique_ids(g),
        grid_wf(g),
        id != -1,
        in_bounds(g, x, y),
        0 <= s < g[x][y].len(),
        g[x][y][s] == id,
    ensures
        !grid_has(grid_update(g, x, y, s, -1i16), id),
{
    lemma_grid_update_index(g, x, y, s, -1i16);
    let g2 = grid_update(g, x, y, s, -1i16);
    assert forall|a: int, b: int| in_bounds(g2, a, b) implies !(#[trigger] cell_has(
        g2,
        a,
        b,
        id,
    )) by {
        assert forall|t: int| 0 <= t < g2[a][b].len() implies (#[trigger] g2[a][b][t]) != id by {
            if !(a == x && b == y && t == s) {
                assert(g2[a][b][t] == g[a][b][t]);
                if g[a][b][t] == id {
                    assert(g[a][b][t] == g[x][y][s]);
                }
            }
        }
    }
}

/// All-empty grids trivially have unique ids: together with the preservation
/// clauses of `start` and `move_to`, uniqueness holds after any sequence of
/// those calls on a freshly built area.
pub proof fn lemma_empty_grid_unique(g: Grid)
    requires
        all_slots_empty(g),
    ensures
        unique_ids(g),
{
}

/// The place/remove round trip: placing a fresh id at a free cell makes that
/// cell the id's position; removing it there restores the original grid, on
/// which the id is again absent.
pub proof fn lemma_place_remove_round_trip(g: Grid, id: i16, x: int, y: int)
    requires
        grid_wf(g),
        id != -1,
        !grid_has(g, id),
        in_bounds(g, x, y),
        cell_free(g, x, y),
    ensures
        is_first_cell(spec_place(g, x, y, id), id, x, y),
        spec_remove(spec_place(g, x, y, id), x, y, id) == g,
        !grid_has(spec_remove(spec_place(g, x, y, id), x, y, id), id),
{
    lemma_first_slot_exists(g[x][y], -1i16);
    let s = first_slot(g[x][y], -1i16);
    lemma_grid_update_index(g, x, y, s, id);
    let g2 = spec_place(g, x, y, id);

    // After the place, (x, y) holds id and no other cell does.
    assert(g2[x][y][s] == id);
    assert(cell_has(g2, x, y, id));
    assert forall|a: int, b: int|
        in_bounds(g2, a, b) && !(a == x && b == y) implies !(#[trigger] cell_has(
        g2,
        a,
        b,
        id,
    )) by {
        assert forall|t: int| 0 <= t < g2[a][b].len() implies (#[trigger] g2[a][b][t]) != id by {
            assert(g2[a][b][t] == g[a][b][t]);
            if g[a][b][t] == id {
                assert(cell_has(g, a, b, id));
                assert(grid_has(g, id));
            }
        }
    }
    assert(is_first_cell(g2, id, x, y));

    // The slot the place filled is the first slot of the cell holding id:
    // earlier slots held something other than -1 before, and were not touched.
    assert forall|t: int| 0 <= t < s implies (#[trigger] g2[x][y][t]) != id by {
        assert(g2[x][y][t] == g[x][y][t]);
        if g[x][y][t] == id {
            assert(cell_has(g, x, y, id));
            assert(grid_has(g, id));
        }
    }
    assert(is_first_slot(g2[x][y], id, s));
    lemma_first_slot_exists(g2[x][y], id);
    assert(first_slot(g2[x][y], id) == s);

    // Clearing that slot again restores the original grid pointwise.
    let g3 = spec_remove(g2, x, y, id);
    lemma_grid_update_index(g2, x, y, s, -1i16);
    assert forall|a: int| 0 <= a < g.len() implies #[trigger] g3[a] == g[a] by {
        assert(g3[a].len() == g[a].len());
        assert forall|b: int| 0 <= b < g[a].len() implies #[trigger] g3[a][b] == g[a][b] by {
            assert(g3[a][b].len() == g[a][b].len());
            assert forall|t: int| 0 <= t < g[a][b].len() implies (#[trigger] g3[a][b][t])
                == g[a][b][t] by {
                if a == x && b == y && t == s {
                    assert(g3[a][b][t] == -1);
                    assert(g[x][y][s] == -1);
                } else {
                    assert(g3[a][b][t] == g2[a][b][t]);
                }
            }
            assert(g3[a][b] =~= g[a][b]);
        }
        assert(g3[a] =~= g[a]);
    }
    assert(g3 =~= g);
}

} // verus!
