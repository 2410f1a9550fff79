//! Entry and one-step movement on top of the occupancy grid.
//!
//! `start` admits a client at the first free cell of the entry column
//! `x = 0`; `move_to` advances a client one cell per call, to the free cell
//! of its Moore neighborhood that is nearest to the target. Distances are
//! compared by their squares: squaring is strictly monotone on non-negative
//! reals, so every comparison agrees with the Euclidean metric itself.

use vstd::prelude::*;

use crate::coordinate::Coordinate;
use crate::grid_model::{
    cell_free, cell_has, first_cell, first_slot, grid_has, grid_height, grid_wf, grid_width,
    in_bounds, spec_place, spec_remove, unique_ids, Grid,
};
use crate::movement_not_possible::MovementNotPossible;
use crate::traffic_area::TrafficArea;

verus! {

/// `v` clamped to `[0, hi]`.
pub open spec fn clamped(v: int, hi: int) -> int {
    if v < 0 {
        0
    } else if v > hi {
        hi
    } else {
        v
    }
}

/// The squared Euclidean distance between `(ax, ay)` and `(bx, by)`.
pub open spec fn dist2(ax: int, ay: int, bx: int, by: int) -> int {
    (ax - bx) * (ax - bx) + (ay - by) * (ay - by)
}

/// The cell examined at step `k` (`0 <= k < 9`) of the neighborhood scan
/// around `(cx, cy)`: offsets `(k / 3 - 1, k % 3 - 1)` — x-offset ascending
/// outside, y-offset ascending inside — each coordinate clamped
/// independently to the grid bounds, so edge and corner cells fold onto
/// in-bounds cells rather than being skipped.
pub open spec fn neighbor_at(g: Grid, cx: int, cy: int, k: int) -> (int, int) {
    (
        clamped(cx + (k / 3 - 1), grid_width(g) - 1),
        clamped(cy + (k % 3 - 1), grid_height(g) - 1),
    )
}

/// The best cell after the first `k` steps of the scan: it starts as the
/// current cell and moves to an examined cell only when that cell is free
/// and strictly nearer to `(tx, ty)` — so the final choice is the free
/// neighbor of least distance, ties broken in favor of the earliest-scanned
/// cell, and the current cell when nothing strictly improves.
pub open spec fn best_after(g: Grid, cx: int, cy: int, tx: int, ty: int, k: int) -> (int, int)
    decreases k,
{
    if k <= 0 {
        (cx, cy)
    } else {
        let prev = best_after(g, cx, cy, tx, ty, k - 1);
        let n = neighbor_at(g, cx, cy, k - 1);
        if cell_free(g, n.0, n.1) && dist2(n.0, n.1, tx, ty) < dist2(prev.0, prev.1, tx, ty) {
            n
        } else {
            prev
        }
    }
}

/// The cell `move_to` steps to from `(cx, cy)` with target `(tx, ty)`.
pub open spec fn chosen_step(g: Grid, cx: int, cy: int, tx: int, ty: int) -> (int, int) {
    best_after(g, cx, cy, tx, ty, 9)
}

proof fn lemma_best_after_distance(g: Grid, cx: int, cy: int, tx: int, ty: int, k: int)
    ensures
        dist2(
            best_after(g, cx, cy, tx, ty, k).0,
            best_after(g, cx, cy, tx, ty, k).1,
            tx,
            ty,
        ) <= dist2(cx, cy, tx, ty),
    decreases k,
{
    if k > 0 {
        lemma_best_after_distance(g, cx, cy, tx, ty, k - 1);
    }
}

/// Movement never increases distance: the cell `move_to` chooses is at most
/// as far from the target as the cell the client stands on, since the best
/// candidate starts as the current cell and is only ever replaced by a
/// strictly nearer one.
pub proof fn lemma_move_never_increases_distance(g: Grid, cx: int, cy: int, tx: int, ty: int)
    ensures
        dist2(
            chosen_step(g, cx, cy, tx, ty).0,
            chosen_step(g, cx, cy, tx, ty).1,
            tx,
            ty,
        ) <= dist2(cx, cy, tx, ty),
{
    lemma_best_after_distance(g, cx, cy, tx, ty, 9);
}

proof fn lemma_best_after_free_or_current(g: Grid, cx: int, cy: int, tx: int, ty: int, k: int)
    ensures
        (best_after(g, cx, cy, tx, ty, k) == (cx, cy)) || cell_free(
            g,
            best_after(g, cx, cy, tx, ty, k).0,
            best_after(g, cx, cy, tx, ty, k).1,
        ),
    decreases k,
{
    if k > 0 {
        lemma_best_after_free_or_current(g, cx, cy, tx, ty, k - 1);
    }
}

proof fn lemma_best_after_in_bounds(g: Grid, cx: int, cy: int, tx: int, ty: int, k: int)
    requires
        grid_wf(g),
        in_bounds(g, cx, cy),
    ensures
        in_bounds(g, best_after(g, cx, cy, tx, ty, k).0, best_after(g, cx, cy, tx, ty, k).1),
    decreases k,
{
    if k > 0 {
        lemma_best_after_in_bounds(g, cx, cy, tx, ty, k - 1);
    }
}

/// Admission and one-step movement over an owned `TrafficArea`, pairing
/// `remove` with `place` so that a client occupies exactly one cell across
/// calls.
pub struct TrafficControlLogic {
    traffic_area: TrafficArea,
}

impl View for TrafficControlLogic {
    type V = Grid;

    closed spec fn view(&self) -> Grid {
        self.traffic_area@
    }
}

impl TrafficControlLogic {
    pub fn new(traffic_area: TrafficArea) -> (r: Self)
        ensures
            r@ == traffic_area@,
    {
        Self { traffic_area }
    }

    /// Admits `id` at the first free cell of the entry column `x = 0`,
    /// scanning `y` ascending. Fails when `id` is already on the grid, or
    /// when the whole entry column is full; the grid is untouched on
    /// failure.
    pub fn start(&mut self, id: i16) -> (r: Result<Coordinate, MovementNotPossible>)
        requires
            grid_wf(old(self)@),
        ensures
            grid_wf(final(self)@),
            grid_has(old(self)@, id) ==> (r matches Err(e)
                && e.message@ == "client already available"@ && final(self)@ == old(self)@),
            !grid_has(old(self)@, id) && (forall|b: int|
                0 <= b < grid_height(old(self)@) ==> !(#[trigger] cell_free(old(self)@, 0, b)))
                ==> (r matches Err(e) && e.message@ == "no free position found"@
                && final(self)@ == old(self)@),
            !grid_has(old(self)@, id) && (exists|b: int|
                0 <= b < grid_height(old(self)@) && #[trigger] cell_free(old(self)@, 0, b))
                ==> (r matches Ok(c) && c.x == 0 && 0 <= c.y < grid_height(old(self)@)
                && cell_free(old(self)@, 0, c.y as int)
                && (forall|b: int| 0 <= b < c.y ==> !(#[trigger] cell_free(old(self)@, 0, b)))
                && final(self)@ == spec_place(old(self)@, 0, c.y as int, id)),
            unique_ids(old(self)@) ==> unique_ids(final(self)@),
    {
        let current_position = self.traffic_area.get_position(id);
        if let Some(_position) = current_position {
            proof {
                assert(grid_has(self@, id));
            }
            Err(MovementNotPossible::new("client already available"))
        } else {
            let area = self.traffic_area.get_area();
            let height = area[0].len();
            proof {
                assert(self@[0].len() == area@[0]@.len());
            }
            let mut y: usize = 0;
            while y < height
                invariant
                    grid_wf(self@),
                    self@ == old(self)@,
                    height == grid_height(self@),
                    y <= height,
                    !grid_has(self@, id),
                    forall|b: int| 0 <= b < y ==> !(#[trigger] cell_free(self@, 0, b)),
                decreases height - y,
            {
                let pos = Coordinate::new(0, y as i16);
                if self.traffic_area.is_free(&pos) {
                    proof {
                        assert(cell_free(self@, 0, y as int));
                        assert(in_bounds(self@, 0, y as int));
                        if id == -1 {
                            assert(cell_has(self@, 0, y as int, -1i16));
                            assert(grid_has(self@, id));
                        }
                    }
                    let ghost g0 = self@;
                    match self.traffic_area.place(id, &pos) {
                        Ok(_) => {
                            proof {
                                if unique_ids(g0) {
                                    crate::grid_model::lemma_first_slot_exists(
                                        g0[0][y as int],
                                        -1i16,
                                    );
                                    crate::grid_model::lemma_place_fresh_preserves_unique(
                                        g0,
                                        0,
                                        y as int,
                                        first_slot(g0[0][y as int], -1i16),
                                        id,
                                    );
                                }
                            }
                            return Ok(pos);
                        },
                        // The cell is free and id is nowhere on the grid, so in
                        // particular id is not the empty sentinel: place cannot fail.
                        Err(e) => return Err(e),
                    }
                }
                y = y + 1;
            }
            Err(MovementNotPossible::new("no free position found"))
        }
    }

    /// Moves `id` one step: of the nine cells of the clamped Moore
    /// neighborhood of its current cell, steps to the free one nearest to
    /// `target_to_reach` — staying put when no free neighbor is strictly
    /// nearer. Fails, leaving the grid untouched, when `id` is not on the
    /// grid. The target may lie outside the grid: only in-bounds cells are
    /// ever stepped to, so the client then walks toward the nearest boundary.
    pub fn move_to(&mut self, id: i16, target_to_reach: Coordinate) -> (r: Result<
        Coordinate,
        MovementNotPossible,
    >)
        requires
            grid_wf(old(self)@),
            0 <= id,
        ensures
            grid_wf(final(self)@),
            !grid_has(old(self)@, id) ==> (r matches Err(e)
                && e.message@ == "client not available"@ && final(self)@ == old(self)@),
            grid_has(old(self)@, id) ==> (r matches Ok(c) && ({
                let cur = first_cell(old(self)@, id);
                let best = chosen_step(
                    old(self)@,
                    cur.0,
                    cur.1,
                    target_to_reach.x as int,
                    target_to_reach.y as int,
                );
                &&& c.x == best.0
                &&& c.y == best.1
                &&& final(self)@ == spec_place(
                    spec_remove(old(self)@, cur.0, cur.1, id),
                    best.0,
                    best.1,
                    id,
                )
                &&& dist2(c.x as int, c.y as int, target_to_reach.x as int, target_to_reach.y as int)
                    <= dist2(cur.0, cur.1, target_to_reach.x as int, target_to_reach.y as int)
            })),
            unique_ids(old(self)@) ==> unique_ids(final(self)@),
    {
        let current_position = match self.traffic_area.get_position(id) {
            Some(p) => p,
            None => {
                return Err(MovementNotPossible::new("client not available"));
            },
        };
        let ghost g0 = self@;
        let ghost cx = current_position.x as int;
        let ghost cy = current_position.y as int;
        let ghost tx = target_to_reach.x as int;
        let ghost ty = target_to_reach.y as int;
        proof {
            assert(grid_has(g0, id));
            crate::grid_model::lemma_first_cell_exists(g0, id);
            crate::grid_model::lemma_first_cell_unique(
                g0,
                id,
                first_cell(g0, id).0,
                first_cell(g0, id).1,
                cx,
                cy,
            );
        }

        let area = self.traffic_area.get_area();
        let width = area.len();
        let height = area[0].len();
        proof {
            assert(self@[0].len() == area@[0]@.len());
        }
        let wmax: i16 = (width - 1) as i16;
        let hmax: i16 = (height - 1) as i16;

        let mut best_coordinate = current_position;
        let mut distance = Self::get_distance(&best_coordinate, &target_to_reach);

        let mut k: usize = 0;
        while k < 9
            invariant
                grid_wf(self@),
                self@ == g0,
                in_bounds(self@, cx, cy),
                cx == current_position.x as int,
                cy == current_position.y as int,
                tx == target_to_reach.x as int,
                ty == target_to_reach.y as int,
                wmax as int == grid_width(self@) - 1,
                hmax as int == grid_height(self@) - 1,
                k <= 9,
                best_coordinate.x as int == best_after(self@, cx, cy, tx, ty, k as int).0,
                best_coordinate.y as int == best_after(self@, cx, cy, tx, ty, k as int).1,
                distance == dist2(best_coordinate.x as int, best_coordinate.y as int, tx, ty),
            decreases 9 - k,
        {
            let x_offset: i16 = (k / 3) as i16 - 1;
            let y_offset: i16 = (k % 3) as i16 - 1;

            let mut nx: i16 = current_position.x + x_offset;
            if nx < 0 {
                nx = 0;
            }
            if nx > wmax {
                nx = wmax;
            }
            let mut ny: i16 = current_position.y + y_offset;
            if ny < 0 {
                ny = 0;
            }
            if ny > hmax {
                ny = hmax;
            }

            let coordinate_to_check = Coordinate::new(nx, ny);
            proof {
                assert(nx as int == clamped(cx + (k as int / 3 - 1), grid_width(self@) - 1));
                assert(ny as int == clamped(cy + (k as int % 3 - 1), grid_height(self@) - 1));
                assert((nx as int, ny as int) == neighbor_at(self@, cx, cy, k as int));
            }
            if self.traffic_area.is_free(&coordinate_to_check) {
                let new_distance = Self::get_distance(&coordinate_to_check, &target_to_reach);
                if new_distance < distance {
                    distance = new_distance;
                    best_coordinate = coordinate_to_check;
                }
            }
            proof {
                assert(best_coordinate.x as int == best_after(
                    self@,
                    cx,
                    cy,
                    tx,
                    ty,
                    k as int + 1,
                ).0);
            }
            k = k + 1;
        }

        proof {
            assert(cell_has(g0, cx, cy, id));
            crate::grid_model::lemma_first_slot_exists(g0[cx][cy], id);
        }
        let ghost s_r = first_slot(g0[cx][cy], id);
        match self.traffic_area.remove(id, &current_position) {
            Ok(_) => {},
            // The current cell holds id — get_position found it there — so
            // remove cannot fail.
            Err(e) => return Err(e),
        }
        let ghost g1 = self@;
        let ghost bx = best_coordinate.x as int;
        let ghost by = best_coordinate.y as int;
        proof {
            crate::grid_model::lemma_grid_update_index(g0, cx, cy, s_r, -1i16);
            lemma_best_after_in_bounds(g0, cx, cy, tx, ty, 9);
            lemma_best_after_free_or_current(g0, cx, cy, tx, ty, 9);
            if bx == cx && by == cy {
                assert(g1[cx][cy][s_r] == -1i16);
                assert(cell_free(g1, bx, by));
            } else {
                assert(cell_free(g0, bx, by));
                let s_f = choose|s: int| 0 <= s < g0[bx][by].len() && (#[trigger] g0[bx][by][s])
                    == -1i16;
                assert(g1[bx][by][s_f] == -1i16);
                assert(cell_free(g1, bx, by));
            }
            assert(in_bounds(g1, bx, by));
            if unique_ids(g0) {
                crate::grid_model::lemma_clear_slot_preserves_unique(g0, cx, cy, s_r);
                crate::grid_model::lemma_remove_makes_absent(g0, cx, cy, s_r, id);
            }
        }
        match self.traffic_area.place(id, &best_coordinate) {
            Ok(_) => {},
            // The chosen cell is the current cell, just vacated, or a cell
            // that was free and untouched by the remove: place cannot fail.
            Err(e) => return Err(e),
        }
        proof {
            if unique_ids(g0) {
                crate::grid_model::lemma_first_slot_exists(g1[bx][by], -1i16);
                crate::grid_model::lemma_place_fresh_preserves_unique(
                    g1,
                    bx,
                    by,
                    first_slot(g1[bx][by], -1i16),
                    id,
                );
            }
            lemma_move_never_increases_distance(g0, cx, cy, tx, ty);
        }
        Ok(best_coordinate)
    }

    /// The squared Euclidean distance between two positions; exactly zero
    /// when they are equal.
    fn get_distance(first_coordinate: &Coordinate, second_coordinate: &Coordinate) -> (r: i64)
        ensures
            r == dist2(
                first_coordinate.x as int,
                first_coordinate.y as int,
                second_coordinate.x as int,
                second_coordinate.y as int,
            ),
    {
        let x1 = first_coordinate.x;
        let x2 = second_coordinate.x;
        let y1 = first_coordinate.y;
        let y2 = second_coordinate.y;

        if x1 == x2 && y1 == y2 {
            0
        } else {
            let dx: i64 = x1 as i64 - x2 as i64;
            let dy: i64 = y1 as i64 - y2 as i64;
            proof {
                assert(dx * dx <= 0xffff * 0xffff && dx * dx >= 0) by (nonlinear_arith)
                    requires
                        -0xffff <= dx <= 0xffff,
                ;
                assert(dy * dy <= 0xffff * 0xffff && dy * dy >= 0) by (nonlinear_arith)
                    requires
                        -0xffff <= dy <= 0xffff,
                ;
            }
            dx * dx + dy * dy
        }
    }

    pub fn get_traffic_area(&self) -> (r: &TrafficArea)
        ensures
            r@ == self@,
    {
        &self.traffic_area
    }
}

} // verus!
