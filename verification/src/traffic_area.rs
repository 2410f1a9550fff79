//! The occupancy grid: the sole authority over which slot of which cell
//! holds which occupant id. Pure storage with capacity semantics — no
//! knowledge of movement or distance.

use vstd::prelude::*;

use crate::coordinate::Coordinate;
use crate::grid_model::{
    all_slots_empty, cell_free, cell_has, first_slot, grid_cap, grid_has, grid_height,
    grid_update, grid_wf, grid_width, in_bounds, is_first_cell, is_first_slot, same_shape,
    spec_place, spec_remove, vec_grid_view, Grid,
};
use crate::movement_not_possible::MovementNotPossible;

verus! {

/// A fixed-size `width × height × capacity` grid of occupant slots. Each
/// slot holds a non-negative occupant id or `-1`, the empty sentinel.
pub struct TrafficArea {
    area: Vec<Vec<Vec<i16>>>,
}

impl View for TrafficArea {
    type V = Grid;

    closed spec fn view(&self) -> Grid {
        vec_grid_view(self.area)
    }
}

/// The index of the first slot of `cell` holding `v`, scanning ascending —
/// the verified counterpart of a linear position search.
fn find_slot(cell: &Vec<i16>, v: i16) -> (r: Option<usize>)
    ensures
        match r {
            Some(s) => is_first_slot(cell@, v, s as int),
            None => forall|t: int| 0 <= t < cell@.len() ==> (#[trigger] cell@[t]) != v,
        },
{
    let mut s: usize = 0;
    while s < cell.len()
        invariant
            s <= cell@.len(),
            forall|t: int| 0 <= t < s ==> (#[trigger] cell@[t]) != v,
        decreases cell@.len() - s,
    {
        if cell[s] == v {
            return Some(s);
        }
        s = s + 1;
    }
    None
}

impl TrafficArea {
    /// A grid of the given dimensions, all slots empty. Dimensions must be
    /// non-zero; width and height must fit in an `i16` so that every cell
    /// can be named by a `Coordinate`.
    pub fn new(max_per_node: usize, max_size_x: usize, max_size_y: usize) -> (r: Self)
        requires
            0 < max_per_node,
            0 < max_size_x <= 0x7fff,
            0 < max_size_y <= 0x7fff,
        ensures
            grid_wf(r@),
            grid_width(r@) == max_size_x,
            grid_height(r@) == max_size_y,
            grid_cap(r@) == max_per_node,
            all_slots_empty(r@),
    {
        let mut area: Vec<Vec<Vec<i16>>> = Vec::new();
        while area.len() < max_size_x
            invariant
                area@.len() <= max_size_x,
                forall|x: int| 0 <= x < area@.len() ==> (#[trigger] area@[x])@.len() == max_size_y,
                forall|x: int, y: int|
                    0 <= x < area@.len() && 0 <= y < max_size_y
                        ==> (#[trigger] area@[x]@[y])@.len() == max_per_node,
                forall|x: int, y: int, s: int|
                    0 <= x < area@.len() && 0 <= y < max_size_y && 0 <= s < max_per_node
                        ==> (#[trigger] area@[x]@[y]@[s]) == -1,
            decreases max_size_x - area@.len(),
        {
            let mut column: Vec<Vec<i16>> = Vec::new();
            while column.len() < max_size_y
                invariant
                    column@.len() <= max_size_y,
                    forall|y: int|
                        0 <= y < column@.len() ==> (#[trigger] column@[y])@.len() == max_per_node,
                    forall|y: int, s: int|
                        0 <= y < column@.len() && 0 <= s < max_per_node
                            ==> (#[trigger] column@[y]@[s]) == -1,
                decreases max_size_y - column@.len(),
            {
                let mut cell: Vec<i16> = Vec::new();
                while cell.len() < max_per_node
                    invariant
                        cell@.len() <= max_per_node,
                        forall|s: int| 0 <= s < cell@.len() ==> (#[trigger] cell@[s]) == -1,
                    decreases max_per_node - cell@.len(),
                {
                    cell.push(-1);
                }
                column.push(cell);
            }
            area.push(column);
        }
        TrafficArea { area }
    }

    /// Clears the first slot of cell `from` holding `id`; fails, leaving the
    /// grid untouched, when no slot of that cell holds `id`.
    pub fn remove(&mut self, id: i16, from: &Coordinate) -> (r: Result<(), MovementNotPossible>)
        requires
            grid_wf(old(self)@),
            in_bounds(old(self)@, from.x as int, from.y as int),
        ensures
            grid_wf(final(self)@),
            same_shape(old(self)@, final(self)@),
            cell_has(old(self)@, from.x as int, from.y as int, id) ==> (r matches Ok(u)
                && final(self)@ == spec_remove(old(self)@, from.x as int, from.y as int, id)),
            !cell_has(old(self)@, from.x as int, from.y as int, id) ==> (r matches Err(e)
                && e.message@ == "id not found at start"@ && final(self)@ == old(self)@),
    {
        let x = from.get_x() as usize;
        let y = from.get_y() as usize;
        proof {
            assert(self@.len() == self.area@.len());
            assert(self@[x as int].len() == self.area@[x as int]@.len());
            assert(self@[x as int][y as int] == self.area@[x as int]@[y as int]@);
        }

        let position = find_slot(&self.area[x][y], id);

        match position {
            Some(pos) => {
                proof {
                    let g = self@;
                    assert(g[x as int][y as int] == self.area@[x as int]@[y as int]@);
                    assert(is_first_slot(g[x as int][y as int], id, pos as int));
                    crate::grid_model::lemma_first_slot_exists(g[x as int][y as int], id);
                    assert(first_slot(g[x as int][y as int], id) == pos as int);
                }
                let ghost g0 = self@;
                self.area[x][y][pos] = -1;
                proof {
                    assert(self@ =~~= grid_update(g0, x as int, y as int, pos as int, -1i16));
                    crate::grid_model::lemma_grid_update_index(
                        g0,
                        x as int,
                        y as int,
                        pos as int,
                        -1i16,
                    );
                }
                Ok(())
            },
            None => Err(MovementNotPossible::new("id not found at start")),
        }
    }

    /// Assigns `id` to the first empty slot of cell `to`; fails, leaving the
    /// grid untouched, when the cell's capacity is exhausted — and, as a
    /// defensive guard, when the empty slot found already compares equal to
    /// `id` (only the sentinel id `-1` can trip it).
    pub fn place(&mut self, id: i16, to: &Coordinate) -> (r: Result<(), MovementNotPossible>)
        requires
            grid_wf(old(self)@),
            in_bounds(old(self)@, to.x as int, to.y as int),
        ensures
            grid_wf(final(self)@),
            same_shape(old(self)@, final(self)@),
            !cell_free(old(self)@, to.x as int, to.y as int) ==> (r matches Err(e)
                && e.message@ == "no empty space left"@ && final(self)@ == old(self)@),
            cell_free(old(self)@, to.x as int, to.y as int) && id == -1 ==> (r matches Err(e)
                && e.message@ == "id already placed at target position"@ && final(self)@ == old(self)@),
            cell_free(old(self)@, to.x as int, to.y as int) && id != -1 ==> (r matches Ok(u)
                && final(self)@ == spec_place(old(self)@, to.x as int, to.y as int, id)),
    {
        let x = to.get_x() as usize;
        let y = to.get_y() as usize;
        proof {
            assert(self@.len() == self.area@.len());
            assert(self@[x as int].len() == self.area@[x as int]@.len());
            assert(self@[x as int][y as int] == self.area@[x as int]@[y as int]@);
        }

        let position = find_slot(&self.area[x][y], -1);

        match position {
            Some(pos) => {
                proof {
                    let g = self@;
                    assert(g[x as int][y as int] == self.area@[x as int]@[y as int]@);
                    assert(is_first_slot(g[x as int][y as int], -1i16, pos as int));
                    crate::grid_model::lemma_first_slot_exists(g[x as int][y as int], -1i16);
                    assert(first_slot(g[x as int][y as int], -1i16) == pos as int);
                }
                if self.area[x][y][pos] == id {
                    Err(MovementNotPossible::new("id already placed at target position"))
                } else {
                    let ghost g0 = self@;
                    self.area[x][y][pos] = id;
                    proof {
                        assert(self@ =~~= grid_update(g0, x as int, y as int, pos as int, id));
                        crate::grid_model::lemma_grid_update_index(
                            g0,
                            x as int,
                            y as int,
                            pos as int,
                            id,
                        );
                    }
                    Ok(())
                }
            },
            None => Err(MovementNotPossible::new("no empty space left")),
        }
    }

    /// The first cell in scan order (x ascending, then y ascending) holding
    /// `id`, or `None` when no cell does.
    pub fn get_position(&self, id: i16) -> (r: Option<Coordinate>)
        requires
            grid_wf(self@),
        ensures
            match r {
                Some(c) => is_first_cell(self@, id, c.x as int, c.y as int),
                None => !grid_has(self@, id),
            },
    {
        let width = self.area.len();
        let mut x: usize = 0;
        while x < width
            invariant
                grid_wf(self@),
                width == self@.len(),
                x <= width,
                forall|a: int, b: int|
                    0 <= a < x && 0 <= b < grid_height(self@)
                        ==> !(#[trigger] cell_has(self@, a, b, id)),
        decreases width - x,
        {
            let height = self.area[x].len();
            proof {
                assert(self@.len() == self.area@.len());
                assert(self@[x as int].len() == self.area@[x as int]@.len());
            }
            let mut y: usize = 0;
            while y < height
                invariant
                    grid_wf(self@),
                    width == self@.len(),
                    x < width,
                    height == grid_height(self@),
                    y <= height,
                    forall|a: int, b: int|
                        0 <= a < x && 0 <= b < grid_height(self@)
                            ==> !(#[trigger] cell_has(self@, a, b, id)),
                    forall|b: int| 0 <= b < y ==> !(#[trigger] cell_has(self@, x as int, b, id)),
                decreases height - y,
            {
                proof {
                    assert(self@.len() == self.area@.len());
                    assert(self@[x as int].len() == self.area@[x as int]@.len());
                    assert(self@[x as int][y as int] == self.area@[x as int]@[y as int]@);
                }
                if find_slot(&self.area[x][y], id).is_some() {
                    proof {
                        assert(self@[x as int][y as int] == self.area@[x as int]@[y as int]@);
                        assert(cell_has(self@, x as int, y as int, id));
                    }
                    return Some(Coordinate::new(x as i16, y as i16));
                }
                proof {
                    assert(self@[x as int][y as int] == self.area@[x as int]@[y as int]@);
                    assert(!cell_has(self@, x as int, y as int, id));
                }
                y = y + 1;
            }
            x = x + 1;
        }
        None
    }

    /// Whether the cell at `position` still has an empty slot.
    pub fn is_free(&self, position: &Coordinate) -> (r: bool)
        requires
            grid_wf(self@),
            in_bounds(self@, position.x as int, position.y as int),
        ensures
            r == cell_free(self@, position.x as int, position.y as int),
    {
        let x = position.get_x() as usize;
        let y = position.get_y() as usize;
        proof {
            assert(self@.len() == self.area@.len());
            assert(self@[x as int].len() == self.area@[x as int]@.len());
            assert(self@[x as int][y as int] == self.area@[x as int]@[y as int]@);
        }

        let r = find_slot(&self.area[x][y], -1).is_some();
        proof {
            assert(self@[x as int][y as int] == self.area@[x as int]@[y as int]@);
        }
        r
    }

    /// The whole grid, for snapshotting.
    pub fn get_area(&self) -> (r: &Vec<Vec<Vec<i16>>>)
        ensures
            vec_grid_view(*r) == self@,
    {
        &self.area
    }

    /// Replaces the whole grid, e.g. to restore a snapshot.
    pub fn set_area(&mut self, area: Vec<Vec<Vec<i16>>>)
        ensures
            final(self)@ == vec_grid_view(area),
    {
        self.area = area;
    }

    /// Resets every slot to empty, whatever the grid held before; the
    /// dimensions are kept.
    pub fn clear(&mut self)
        ensures
            same_shape(old(self)@, final(self)@),
            all_slots_empty(final(self)@),
            grid_wf(old(self)@) ==> grid_wf(final(self)@),
    {
        let width = self.area.len();
        let mut x: usize = 0;
        while x < width
            invariant
                width == self@.len(),
                x <= width,
                same_shape(old(self)@, self@),
                forall|a: int, b: int, t: int|
                    0 <= a < x && 0 <= b < self@[a].len() && 0 <= t < self@[a][b].len()
                        ==> (#[trigger] self@[a][b][t]) == -1,
            decreases width - x,
        {
            let height = self.area[x].len();
            proof {
                assert(self@.len() == self.area@.len());
                assert(self@[x as int].len() == self.area@[x as int]@.len());
            }
            let mut y: usize = 0;
            while y < height
                invariant
                    width == self@.len(),
                    x < width,
                    height == self@[x as int].len(),
                    y <= height,
                    same_shape(old(self)@, self@),
                    forall|a: int, b: int, t: int|
                        0 <= a < x && 0 <= b < self@[a].len() && 0 <= t < self@[a][b].len()
                            ==> (#[trigger] self@[a][b][t]) == -1,
                    forall|b: int, t: int|
                        0 <= b < y && 0 <= t < self@[x as int][b].len()
                            ==> (#[trigger] self@[x as int][b][t]) == -1,
                decreases height - y,
            {
                let cap = self.area[x][y].len();
                proof {
                    assert(self@.len() == self.area@.len());
                    assert(self@[x as int].len() == self.area@[x as int]@.len());
                    assert(self@[x as int][y as int] == self.area@[x as int]@[y as int]@);
                }
                let mut s: usize = 0;
                while s < cap
                    invariant
                        width == self@.len(),
                        x < width,
                        height == self@[x as int].len(),
                        y < height,
                        cap == self@[x as int][y as int].len(),
                        s <= cap,
                        same_shape(old(self)@, self@),
                        forall|a: int, b: int, t: int|
                            0 <= a < x && 0 <= b < self@[a].len() && 0 <= t < self@[a][b].len()
                                ==> (#[trigger] self@[a][b][t]) == -1,
                        forall|b: int, t: int|
                            0 <= b < y && 0 <= t < self@[x as int][b].len()
                                ==> (#[trigger] self@[x as int][b][t]) == -1,
                        forall|t: int|
                            0 <= t < s ==> (#[trigger] self@[x as int][y as int][t]) == -1,
                    decreases cap - s,
                {
                    proof {
                        assert(self@.len() == self.area@.len());
                        assert(self@[x as int].len() == self.area@[x as int]@.len());
                        assert(self@[x as int][y as int] == self.area@[x as int]@[y as int]@);
                    }
                    let ghost g0 = self@;
                    self.area[x][y][s] = -1;
                    proof {
                        assert(self@ =~~= grid_update(g0, x as int, y as int, s as int, -1i16));
                        crate::grid_model::lemma_grid_update_index(
                            g0,
                            x as int,
                            y as int,
                            s as int,
                            -1i16,
                        );
                    }
                    s = s + 1;
                }
                y = y + 1;
            }
            x = x + 1;
        }
        proof {
            if grid_wf(old(self)@) {
                crate::grid_model::lemma_same_shape_wf(old(self)@, self@);
            }
        }
    }
}

} // verus!
