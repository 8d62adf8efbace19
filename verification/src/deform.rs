//! Terrain deformation on the active grid: crushing bedrock, digging out and piling up loose
//! granular matter, and clearing foliage.
//!
//! Heights are measured in elevation levels, the grid's own unit: a caller working in world
//! units passes the floor of `height / elevation_scale`. For a whole number of levels `n` and
//! a world height `h`, `n * scale <= h` exactly when `n <= floor(h / scale)`, so the
//! comparisons below decide as they would on world heights.
use vstd::prelude::*;
use crate::cell::{lemma_cell_fields_bounded, lemma_mask_noop, CellFields, GranularMat, SurfaceMat, WorldCell};
use crate::geom::IVec2;
use crate::grid::ActiveWorldGrid;

verus! {

/// The current cell at world position `p` of the grid `g`.
pub open spec fn cell_of(g: ActiveWorldGrid, p: IVec2) -> WorldCell {
    g.cells@[g.index_of(p)]
}

/// `after` is `before` with the cell at `p` rewritten to the fields `f`, `p` and its in-window
/// neighbours woken, and everything else as it was.
pub open spec fn rewritten(before: ActiveWorldGrid, after: ActiveWorldGrid, p: IVec2, f: CellFields) -> bool {
    &&& after.wf()
    &&& after.cells@.len() == before.cells@.len()
    &&& after.cells@[before.index_of(p)]@ == f
    &&& forall|i: int|
        0 <= i < before.cells@.len() && i != before.index_of(p) ==> #[trigger] after.cells@[i] == before.cells@[i]
    &&& forall|i: int|
        0 <= i < before.size() ==> #[trigger] after.next_wake_buffer@[i] == (if before.wake_hits(p, i) {
            if before.next_wake_buffer@[i] < 2 {
                2
            } else {
                before.next_wake_buffer@[i]
            }
        } else {
            before.next_wake_buffer@[i]
        })
    &&& after.cells_dirty
    &&& after.back_buffer@ == before.back_buffer@
    &&& after.wake_buffer@ == before.wake_buffer@
    &&& after.width == before.width
    &&& after.height == before.height
    &&& after.window_origin == before.window_origin
    &&& after.buffer_head == before.buffer_head
    &&& after.tick == before.tick
}

/// Levels of bedrock crushed at a cell of elevation `elev` by a body whose bottom sits at
/// `bottom` and that can pay for `affordable` levels: what lies above the bottom, no more than
/// the cell holds or the body can pay for.
pub open spec fn crush_amount(elev: int, bottom: int, affordable: int) -> int {
    if elev == 0 || elev <= bottom {
        0
    } else {
        let needed = elev - bottom;
        let a = if needed < elev {
            needed
        } else {
            elev
        };
        if a < affordable {
            a
        } else {
            affordable
        }
    }
}

/// The granular volume left at a cell of elevation `elev` after digging down to `bottom`.
pub open spec fn excavation_target(elev: int, bottom: int) -> int {
    if bottom <= elev {
        0
    } else {
        bottom - elev
    }
}

/// Granular volume dug out of a cell of elevation `elev` holding `gran`, down to `bottom`.
pub open spec fn excavated_amount(elev: int, gran: int, bottom: int) -> int {
    if gran == 0 || elev + gran <= bottom || gran <= excavation_target(elev, bottom) {
        0
    } else {
        gran - excavation_target(elev, bottom)
    }
}

/// Granular volume piled onto a cell with floor `floor` (elevation plus granular volume) and
/// granular volume `gran`, under a blade whose ceiling sits at `ceiling`: the attempt, capped
/// by the room left in the cell, the rim limit and the room under the ceiling.
pub open spec fn deposit_amount(floor: int, gran: int, attempt: int, ceiling: int, max_rim: int) -> int {
    if attempt == 0 || floor >= ceiling {
        0
    } else {
        let room = if gran >= 511 {
            0
        } else {
            511 - gran
        };
        let allowance = if ceiling - floor > u16::MAX {
            u16::MAX as int
        } else {
            ceiling - floor
        };
        let a = if attempt < room {
            attempt
        } else {
            room
        };
        let b = if a < max_rim {
            a
        } else {
            max_rim
        };
        if b < allowance {
            b
        } else {
            allowance
        }
    }
}

/// Whether foliage on `c` reaches above a carving body whose bottom sits at `carving`: the
/// foliage top is the cell's floor and fluid plus at least one level of growth.
pub open spec fn foliage_reached(c: CellFields, carving: int) -> bool {
    &&& c.surface_mat == SurfaceMat::SURFACE_FOLIAGE
    &&& carving < c.elevation + c.granular_vol + c.fluid_vol + (if c.surface_state < 1 {
        1
    } else {
        c.surface_state as int
    })
}

/// Crushing never takes bedrock below the crushing body's bottom or below zero, and never
/// crushes more levels than the body can pay for.
pub proof fn law_crush_bounds(elev: int, bottom: int, affordable: int)
    requires
        0 <= elev,
        0 <= affordable,
    ensures
        0 <= crush_amount(elev, bottom, affordable) <= affordable,
        crush_amount(elev, bottom, affordable) <= elev,
        crush_amount(elev, bottom, affordable) > 0 ==> elev - crush_amount(elev, bottom, affordable) >= bottom,
{
}

/// Digging loose matter out down to a level and piling the same matter back, under a ceiling
/// no lower than the column's old floor and with a rim limit no smaller than what was dug,
/// piles back exactly what was dug out.
pub proof fn law_dig_and_refill(elev: int, gran: int, bottom: int, ceiling: int, max_rim: int)
    requires
        0 <= elev,
        0 < gran <= 511,
        excavated_amount(elev, gran, bottom) > 0,
        ceiling >= elev + gran,
        max_rim >= excavated_amount(elev, gran, bottom),
    ensures
        ({
            let dug = excavated_amount(elev, gran, bottom);
            deposit_amount(elev + gran - dug, gran - dug, dug, ceiling, max_rim) == dug
        }),
{
}

impl ActiveWorldGrid {
    /// Writes `cell` at `cell_position` and wakes it.
    fn rewrite_cell(&mut self, cell_position: IVec2, cell: WorldCell)
        requires
            old(self).wf(),
        ensures
            rewritten(*old(self), *final(self), cell_position, cell@),
    {
        let ghost before = *self;
        proof {
            self.lemma_index_bounds(cell_position.x as int, cell_position.y as int);
        }
        self.set_cell(cell_position, cell);
        let ghost mid = *self;
        self.wake_cell(cell_position);
        assert forall|i: int| 0 <= i < before.size() implies #[trigger] mid.wake_hits(cell_position, i)
            == before.wake_hits(cell_position, i) by {
            if mid.wake_hits(cell_position, i) {
                let j = choose|j: int|
                    0 <= j < 9 && #[trigger] mid.in_window_xy(cell_position.x + j % 3 - 1, cell_position.y + j / 3 - 1)
                        && mid.index_xy(cell_position.x + j % 3 - 1, cell_position.y + j / 3 - 1) == i;
                assert(before.in_window_xy(cell_position.x + j % 3 - 1, cell_position.y + j / 3 - 1));
            }
            if before.wake_hits(cell_position, i) {
                let j = choose|j: int|
                    0 <= j < 9 && #[trigger] before.in_window_xy(cell_position.x + j % 3 - 1, cell_position.y + j / 3 - 1)
                        && before.index_xy(cell_position.x + j % 3 - 1, cell_position.y + j / 3 - 1) == i;
                assert(mid.in_window_xy(cell_position.x + j % 3 - 1, cell_position.y + j / 3 - 1));
            }
        }
    }

    /// Whether `cell_position` lies inside the active window.
    pub fn is_in_bounds(&self, cell_position: IVec2) -> (r: bool)
        ensures
            r == self.in_window(cell_position),
    {
        let local_x = cell_position.x as i64 - self.window_origin.x as i64;
        let local_y = cell_position.y as i64 - self.window_origin.y as i64;
        0 <= local_x && local_x < self.width as i64 && 0 <= local_y && local_y < self.height as i64
    }

    /// The bedrock elevation at `cell_position`, when it lies in the window.
    pub fn bedrock_level(&self, cell_position: IVec2) -> (r: Option<u16>)
        requires
            self.wf(),
        ensures
            r == if self.in_window(cell_position) {
                Some(cell_of(*self, cell_position)@.elevation as u16)
            } else {
                None
            },
    {
        if !self.is_in_bounds(cell_position) {
            return None;
        }
        Some(self.get_cell(cell_position).elevation())
    }

    /// The floor level (bedrock plus loose granular matter) at `cell_position`, when it lies in
    /// the window.
    pub fn floor_level(&self, cell_position: IVec2) -> (r: Option<u32>)
        requires
            self.wf(),
        ensures
            r == if self.in_window(cell_position) {
                Some((cell_of(*self, cell_position)@.elevation + cell_of(*self, cell_position)@.granular_vol) as u32)
            } else {
                None
            },
    {
        if !self.is_in_bounds(cell_position) {
            return None;
        }
        let cell = self.get_cell(cell_position);
        proof {
            lemma_cell_fields_bounded(cell);
        }
        Some(cell.elevation() as u32 + cell.granular_vol() as u32)
    }

    /// Removes foliage at `cell_position` when it reaches above the carving body's bottom
    /// `carving_level`, and wakes the cell; otherwise leaves the grid as it is.
    pub fn clear_surface_organics(&mut self, cell_position: IVec2, carving_level: i64)
        requires
            old(self).wf(),
        ensures
            if old(self).in_window(cell_position) && foliage_reached(
                cell_of(*old(self), cell_position)@,
                carving_level as int,
            ) {
                rewritten(
                    *old(self),
                    *final(self),
                    cell_position,
                    cell_of(*old(self), cell_position)@.with_surface_mat(0).with_surface_state(0),
                )
            } else {
                *final(self) == *old(self)
            },
    {
        if !self.is_in_bounds(cell_position) {
            return;
        }
        let mut cell = self.get_cell(cell_position);
        proof {
            lemma_cell_fields_bounded(cell);
        }
        if cell.surface_mat().0 == SurfaceMat::SURFACE_FOLIAGE {
            let base = cell.elevation() as i64 + cell.granular_vol() as i64 + cell.fluid_vol() as i64;
            let growth: i64 = if cell.surface_state() < 1 {
                1
            } else {
                cell.surface_state() as i64
            };
            if carving_level < base + growth {
                proof {
                    lemma_mask_noop(0);
                }
                cell.set_surface_mat(SurfaceMat(SurfaceMat::EMPTY));
                cell.set_surface_state(0);
                self.rewrite_cell(cell_position, cell);
            }
        }
    }

    /// Crushes the bedrock at `cell_position` down towards `bottom_level`, by no more than
    /// `affordable` levels, wakes the cell and returns the levels crushed; leaves the grid as it
    /// is when nothing is crushed.
    pub fn crush_bedrock(&mut self, cell_position: IVec2, bottom_level: i64, affordable: u16) -> (r: u16)
        requires
            old(self).wf(),
        ensures
            r == if old(self).in_window(cell_position) {
                crush_amount(
                    cell_of(*old(self), cell_position)@.elevation as int,
                    bottom_level as int,
                    affordable as int,
                )
            } else {
                0
            },
            if r > 0 {
                rewritten(
                    *old(self),
                    *final(self),
                    cell_position,
                    cell_of(*old(self), cell_position)@.with_elevation(
                        (cell_of(*old(self), cell_position)@.elevation - r) as u64,
                    ),
                )
            } else {
                *final(self) == *old(self)
            },
    {
        if !self.is_in_bounds(cell_position) {
            return 0;
        }
        let mut cell = self.get_cell(cell_position);
        proof {
            lemma_cell_fields_bounded(cell);
        }
        let elev = cell.elevation();
        if elev == 0 || elev as i64 <= bottom_level {
            return 0;
        }
        let mut actual: i64 = if bottom_level <= 0 {
            elev as i64
        } else {
            elev as i64 - bottom_level
        };
        if affordable as i64 <= actual {
            actual = affordable as i64;
        }
        if actual > 0 {
            let crushed = actual as u16;
            let lowered: u16 = elev - crushed;
            proof {
                assert(lowered as u64 & 0xFFF == lowered as u64) by (bit_vector)
                    requires
                        lowered <= 4095,
                ;
            }
            cell.set_elevation(lowered);
            self.rewrite_cell(cell_position, cell);
            return crushed;
        }
        0
    }

    /// Digs loose granular matter at `cell_position` out down to `bottom_level`, wakes the cell
    /// and returns the volume removed with the material it was made of; a column dug empty
    /// loses its material. Leaves the grid as it is when nothing is dug out.
    pub fn excavate_granular(&mut self, cell_position: IVec2, bottom_level: i64) -> (r: (u32, Option<GranularMat>))
        requires
            old(self).wf(),
        ensures
            ({
                let c = cell_of(*old(self), cell_position)@;
                let amount = if old(self).in_window(cell_position) {
                    excavated_amount(c.elevation as int, c.granular_vol as int, bottom_level as int)
                } else {
                    0
                };
                &&& r.0 == amount
                &&& if amount > 0 {
                    &&& r.1 == Some(GranularMat(c.granular_mat as u8))
                    &&& rewritten(
                        *old(self),
                        *final(self),
                        cell_position,
                        if c.granular_vol - amount == 0 {
                            c.with_granular_vol(0).with_granular_mat(0)
                        } else {
                            c.with_granular_vol((c.granular_vol - amount) as u64)
                        },
                    )
                } else {
                    &&& r.1 is None
                    &&& *final(self) == *old(self)
                }
            }),
    {
        if !self.is_in_bounds(cell_position) {
            return (0, None);
        }
        let mut cell = self.get_cell(cell_position);
        proof {
            lemma_cell_fields_bounded(cell);
        }
        let granular_volume = cell.granular_vol();
        if granular_volume == 0 {
            return (0, None);
        }
        let elev = cell.elevation() as i64;
        if elev + granular_volume as i64 > bottom_level {
            let target: i64 = if bottom_level <= elev {
                0
            } else {
                bottom_level - elev
            };
            if (granular_volume as i64) > target {
                let left = target as u16;
                let removal = granular_volume - left;
                let primary_material = cell.granular_mat();
                proof {
                    assert(left as u64 & 0x1FF == left as u64) by (bit_vector)
                        requires
                            left < 512,
                    ;
                }
                cell.set_granular_vol(left);
                if cell.granular_vol() == 0 {
                    proof {
                        lemma_mask_noop(0);
                    }
                    cell.set_granular_mat(GranularMat(GranularMat::EMPTY));
                }
                self.rewrite_cell(cell_position, cell);
                return (removal as u32, Some(primary_material));
            }
        }
        (0, None)
    }

    /// How much granular `material` a rim deposit could still pile at `cell_position` under a
    /// blade whose ceiling sits at `ceiling_level`, at most `max_rim_deposit`: what
    /// `deposit_granular` would pile for an unbounded attempt. The grid is not changed.
    pub fn deposit_capacity(
        &self,
        cell_position: IVec2,
        material: GranularMat,
        ceiling_level: i64,
        max_rim_deposit: u16,
    ) -> (r: u16)
        requires
            self.wf(),
        ensures
            ({
                let c = cell_of(*self, cell_position)@;
                r == if self.in_window(cell_position) && (c.granular_mat == 0 || c.granular_mat == material.0) {
                    deposit_amount(
                        c.elevation + c.granular_vol,
                        c.granular_vol as int,
                        u16::MAX as int,
                        ceiling_level as int,
                        max_rim_deposit as int,
                    )
                } else {
                    0
                }
            }),
    {
        if !self.is_in_bounds(cell_position) {
            return 0;
        }
        let cell = self.get_cell(cell_position);
        proof {
            lemma_cell_fields_bounded(cell);
        }
        let current_material = cell.granular_mat();
        if current_material.0 != GranularMat::EMPTY && current_material.0 != material.0 {
            return 0;
        }
        let floor = cell.elevation() as i64 + cell.granular_vol() as i64;
        if floor >= ceiling_level {
            return 0;
        }
        let allowance: u16 = if ceiling_level - floor > u16::MAX as i64 {
            u16::MAX
        } else {
            (ceiling_level - floor) as u16
        };
        let mut cap = WorldCell::MAX_GRANULAR_VOL.saturating_sub(cell.granular_vol());
        if max_rim_deposit < cap {
            cap = max_rim_deposit;
        }
        if allowance < cap {
            cap = allowance;
        }
        cap
    }

    /// Piles up to `attempt_amount` of granular `material` at `cell_position` under a blade
    /// whose ceiling sits at `ceiling_level`, no more than `max_rim_deposit` at once and only
    /// onto an empty column or one of the same material; wakes the cell and returns the volume
    /// piled; the cell keeps the material's three low bits. Leaves the grid as it is when
    /// nothing is piled.
    pub fn deposit_granular(
        &mut self,
        cell_position: IVec2,
        material: GranularMat,
        attempt_amount: u16,
        ceiling_level: i64,
        max_rim_deposit: u16,
    ) -> (r: u16)
        requires
            old(self).wf(),
        ensures
            ({
                let c = cell_of(*old(self), cell_position)@;
                let amount = if old(self).in_window(cell_position) && (c.granular_mat == 0 || c.granular_mat
                    == material.0) {
                    deposit_amount(
                        c.elevation + c.granular_vol,
                        c.granular_vol as int,
                        attempt_amount as int,
                        ceiling_level as int,
                        max_rim_deposit as int,
                    )
                } else {
                    0
                };
                &&& r == amount
                &&& if amount > 0 {
                    rewritten(
                        *old(self),
                        *final(self),
                        cell_position,
                        c.with_granular_mat(material.0 as u64 & 0x7).with_granular_vol((c.granular_vol + amount) as u64),
                    )
                } else {
                    *final(self) == *old(self)
                }
            }),
    {
        if attempt_amount == 0 || !self.is_in_bounds(cell_position) {
            return 0;
        }
        let mut cell = self.get_cell(cell_position);
        proof {
            lemma_cell_fields_bounded(cell);
        }
        let current_material = cell.granular_mat();
        if current_material.0 != GranularMat::EMPTY && current_material.0 != material.0 {
            return 0;
        }
        let floor = cell.elevation() as i64 + cell.granular_vol() as i64;
        if floor >= ceiling_level {
            return 0;
        }
        let allowance: u16 = if ceiling_level - floor > u16::MAX as i64 {
            u16::MAX
        } else {
            (ceiling_level - floor) as u16
        };
        let available_slot = WorldCell::MAX_GRANULAR_VOL.saturating_sub(cell.granular_vol());
        let mut actual = attempt_amount;
        if available_slot < actual {
            actual = available_slot;
        }
        if max_rim_deposit < actual {
            actual = max_rim_deposit;
        }
        if allowance < actual {
            actual = allowance;
        }
        if actual > 0 {
            let new_vol = cell.granular_vol() + actual;
            proof {
                assert(new_vol as u64 & 0x1FF == new_vol as u64) by (bit_vector)
                    requires
                        new_vol <= 511,
                ;
            }
            cell.set_granular_mat(material);
            cell.set_granular_vol(new_vol);
            self.rewrite_cell(cell_position, cell);
        }
        actual
    }
}

} // verus!
