//! The chunk: a fixed block of 16 x 64 x 16 cells held in one flat vector.
//!
//! Cells are stored row-major, `x + z * 16 + y * 256`, so that a horizontal
//! layer is contiguous. Access through the `_wrapped` methods wraps every
//! coordinate around the chunk.
use vstd::prelude::*;
use crate::voxel::cell::{Cell, CELL_SIZE};

verus! {

/// Chunk extent along X and Z (a power of two).
pub const CHUNK_SIZE_XZ: usize = 16;
/// Chunk extent along Y, the fixed height of the world.
pub const CHUNK_SIZE_Y: usize = 64;
/// Number of cells in a chunk: 16 x 16 x 64 = 16384.
pub const CHUNK_VOLUME: usize = CHUNK_SIZE_XZ * CHUNK_SIZE_XZ * CHUNK_SIZE_Y;
/// Mask that reduces an X or Z coordinate modulo `CHUNK_SIZE_XZ`.
pub const CHUNK_MASK_XZ: usize = CHUNK_SIZE_XZ - 1;
/// Mask that reduces a Y coordinate modulo `CHUNK_SIZE_Y`.
pub const CHUNK_MASK_Y: usize = CHUNK_SIZE_Y - 1;

/// Position of a chunk in the world, in chunks along X and Z.
#[derive(Debug, Clone, Copy, PartialEq, Eq, Hash, Structural)]
pub struct ChunkPos {
    pub x: i32,
    pub z: i32,
}

/// The key that packs a chunk position: `x` in the high 32 bits and `z` in the
/// low 32 bits, each as its two's complement bit pattern.
pub open spec fn key_of(x: i32, z: i32) -> u64 {
    ((x as u32 as u64) << 32u64) | (z as u32 as u64)
}

impl ChunkPos {
    pub fn new(x: i32, z: i32) -> (r: ChunkPos)
        ensures
            r == (ChunkPos { x, z }),
    {
        ChunkPos { x, z }
    }

    /// Packs the position into a map key: `x` in the high half, `z` in the low
    /// half.
    pub fn to_key(&self) -> (r: u64)
        ensures
            r == key_of(self.x, self.z),
            r >> 32u64 == self.x as u32 as u64,
            r & 0xffff_ffffu64 == self.z as u32 as u64,
    {
        let x = self.x;
        let z = self.z;
        let r = ((x as u64 & 0xffff_ffff) << 32u64) | (z as u64 & 0xffff_ffff);
        proof {
            assert(r == key_of(x, z)) by (bit_vector)
                requires r == ((x as u64 & 0xffff_ffffu64) << 32u64) | (z as u64 & 0xffff_ffffu64);
            assert(r >> 32u64 == x as u32 as u64 && r & 0xffff_ffffu64 == z as u32 as u64)
                by (bit_vector)
                requires r == ((x as u64 & 0xffff_ffffu64) << 32u64) | (z as u64 & 0xffff_ffffu64);
        }
        r
    }

    /// Unpacks a key: the high half becomes `x`, the low half `z`.
    pub fn from_key(key: u64) -> (r: ChunkPos)
        ensures
            r.x == (key >> 32u64) as u32 as i32,
            r.z == key as u32 as i32,
    {
        let x = ((key >> 32u64) & 0xffff_ffff) as i32;
        let z = (key & 0xffff_ffff) as i32;
        proof {
            assert(x == (key >> 32u64) as u32 as i32) by (bit_vector)
                requires x == ((key >> 32u64) & 0xffff_ffffu64) as i32;
            assert(z == key as u32 as i32) by (bit_vector)
                requires z == (key & 0xffff_ffffu64) as i32;
        }
        ChunkPos { x, z }
    }

    /// World coordinates of the chunk's first cell.
    pub fn world_origin(&self) -> (r: (isize, isize, isize))
        requires
            isize::MIN <= self.x * 16 <= isize::MAX,
            isize::MIN <= self.z * 16 <= isize::MAX,
        ensures
            r.0 == self.x * 16,
            r.1 == 0,
            r.2 == self.z * 16,
    {
        (self.x as isize * CHUNK_SIZE_XZ as isize, 0, self.z as isize * CHUNK_SIZE_XZ as isize)
    }
}

/// Unpacking a packed position gives the position back.
pub proof fn lemma_key_roundtrip(x: i32, z: i32)
    ensures
        (key_of(x, z) >> 32u64) as u32 as i32 == x,
        key_of(x, z) as u32 as i32 == z,
{
    assert((key_of(x, z) >> 32u64) as u32 as i32 == x && key_of(x, z) as u32 as i32 == z)
        by (bit_vector);
}

/// Packing an unpacked key gives the key back: packing is a bijection.
pub proof fn lemma_key_surjective(key: u64)
    ensures
        key_of((key >> 32u64) as u32 as i32, key as u32 as i32) == key,
{
    assert(key_of((key >> 32u64) as u32 as i32, key as u32 as i32) == key) by (bit_vector);
}

/// Flat index of the cell at `(x, y, z)`.
pub open spec fn cell_index(x: int, y: int, z: int) -> int {
    x + z * 16 + y * 256
}

/// The cell holds some material other than air or vacuum.
pub open spec fn is_active(c: Cell) -> bool {
    c.material > 1
}

/// Number of active cells among the first `n` of `cells`.
pub open spec fn count_active(cells: Seq<Cell>, n: int) -> nat
    decreases n,
{
    if n <= 0 {
        0
    } else {
        count_active(cells, n - 1) + if is_active(cells[n - 1]) { 1nat } else { 0nat }
    }
}

/// The statistics `count`, `min_y`, `max_y` describe the first `n` cells:
/// `count` active cells, whose layers span exactly `min_y..=max_y` (both zero
/// when none is active).
pub open spec fn stats_describe(cells: Seq<Cell>, n: int, count: int, min_y: int, max_y: int) -> bool {
    &&& count == count_active(cells, n)
    &&& count == 0 ==> min_y == 0 && max_y == 0
    &&& count > 0 ==> {
        &&& forall|i: int| 0 <= i < n && is_active(#[trigger] cells[i]) ==> min_y <= i / 256 <= max_y
        &&& exists|i: int| 0 <= i < n && is_active(#[trigger] cells[i]) && i / 256 == min_y
        &&& exists|i: int| 0 <= i < n && is_active(#[trigger] cells[i]) && i / 256 == max_y
    }
}

/// A fixed-size block of cells.
#[derive(Clone)]
pub struct Chunk {
    /// The cells, row-major; `CHUNK_VOLUME` of them in a well-formed chunk.
    pub cells: Vec<Cell>,
    /// Position of the chunk in the world.
    pub pos: ChunkPos,
    /// Set by every write access.
    pub is_dirty: bool,
    /// Number of active (non-air, non-vacuum) cells: kept up to date by `set`,
    /// made exact by `recalculate_stats`.
    pub active_cell_count: u32,
    /// Lowest layer of the Y range that holds the active cells: `set` widens
    /// the range to cover what it writes, `get_mut` widens it when the cell at
    /// `(0, y, 0)` is active, and `recalculate_stats` makes it exact.
    pub min_y: u8,
    /// Highest layer of the Y range that holds the active cells.
    pub max_y: u8,
}

/// The Y range widened to include layer `y`.
pub open spec fn widened_range(min_y: u8, max_y: u8, y: u8) -> (u8, u8) {
    (if y < min_y { y } else { min_y }, if y > max_y { y } else { max_y })
}

/// Every active cell among `cells` lies in a layer of `min_y..=max_y`.
pub open spec fn range_covers(cells: Seq<Cell>, min_y: int, max_y: int) -> bool {
    forall|i: int| 0 <= i < cells.len() && is_active(#[trigger] cells[i]) ==> min_y <= i / 256 <= max_y
}

/// The active-cell count after one cell changes from active (`was`) or not to
/// active (`now`) or not; the count saturates at zero and at `u32::MAX`.
pub open spec fn count_after_write(count: u32, was: bool, now: bool) -> u32 {
    if was && !now {
        if count > 0 { (count - 1) as u32 } else { 0 }
    } else if !was && now {
        if count < u32::MAX { (count + 1) as u32 } else { count }
    } else {
        count
    }
}

impl Chunk {
    /// The chunk holds exactly `CHUNK_VOLUME` cells.
    pub open spec fn wf(&self) -> bool {
        self.cells.len() == CHUNK_VOLUME
    }

    /// The statistics agree with the cells.
    pub open spec fn stats_exact(&self) -> bool {
        stats_describe(
            self.cells@,
            CHUNK_VOLUME as int,
            self.active_cell_count as int,
            self.min_y as int,
            self.max_y as int,
        )
    }

    /// A chunk at `pos` filled with air, clean, with zero statistics.
    pub fn new(pos: ChunkPos) -> (r: Chunk)
        ensures
            r.wf(),
            forall|i: int| 0 <= i < CHUNK_VOLUME ==> (#[trigger] r.cells@[i]).is_default_air(),
            r.pos == pos,
            !r.is_dirty,
            r.active_cell_count == 0,
            r.min_y == 0,
            r.max_y == 0,
    {
        let mut cells: Vec<Cell> = Vec::with_capacity(CHUNK_VOLUME);
        cells.resize(CHUNK_VOLUME, Cell::AIR());
        Chunk { cells, pos, is_dirty: false, active_cell_count: 0, min_y: 0, max_y: 0 }
    }

    /// A chunk at `pos` holding `cells`, marked dirty, with its statistics
    /// computed from the cells.
    pub fn from_cells(pos: ChunkPos, cells: Vec<Cell>) -> (r: Chunk)
        requires
            cells.len() == CHUNK_VOLUME,
        ensures
            r.wf(),
            r.cells@ == cells@,
            r.pos == pos,
            r.is_dirty,
            r.stats_exact(),
    {
        let (active_cell_count, min_y, max_y) = compute_stats(&cells);
        Chunk { cells, pos, is_dirty: true, active_cell_count, min_y, max_y }
    }

    /// Flat index of `(x, y, z)`: `x + z * 16 + y * 256`.
    pub fn index(&self, x: usize, y: usize, z: usize) -> (r: usize)
        requires
            cell_index(x as int, y as int, z as int) <= usize::MAX,
        ensures
            r == cell_index(x as int, y as int, z as int),
    {
        x + z * CHUNK_SIZE_XZ + y * CHUNK_SIZE_XZ * CHUNK_SIZE_XZ
    }

    /// Flat index of `(x, y, z)` after wrapping each coordinate around the chunk.
    fn index_wrapped(&self, x: isize, y: isize, z: isize) -> (r: usize)
        ensures
            r == cell_index(x as int % 16, y as int % 64, z as int % 16),
            r < CHUNK_VOLUME,
    {
        let xm = x & (CHUNK_MASK_XZ as isize);
        let zm = z & (CHUNK_MASK_XZ as isize);
        let ym = y & (CHUNK_MASK_Y as isize);
        proof {
            assert(xm == x % 16 && 0 <= xm < 16) by (bit_vector)
                requires xm == x & 15isize;
            assert(zm == z % 16 && 0 <= zm < 16) by (bit_vector)
                requires zm == z & 15isize;
            assert(ym == y % 64 && 0 <= ym < 64) by (bit_vector)
                requires ym == y & 63isize;
        }
        self.index(xm as usize, ym as usize, zm as usize)
    }

    /// The cell at `(x, y, z)`.
    pub fn get(&self, x: usize, y: usize, z: usize) -> (r: &Cell)
        requires
            self.wf(),
            x < CHUNK_SIZE_XZ,
            y < CHUNK_SIZE_Y,
            z < CHUNK_SIZE_XZ,
        ensures
            *r == self.cells@[cell_index(x as int, y as int, z as int)],
    {
        &self.cells[self.index(x, y, z)]
    }

    /// Write access to the cell at `(x, y, z)`. Marks the chunk dirty and,
    /// when the cell at `(0, y, 0)` is active before the write, widens the Y
    /// range to include `y`. The active-cell count is left as it was (what is
    /// written is not known here); `recalculate_stats` brings the statistics
    /// up to date.
    pub fn get_mut(&mut self, x: usize, y: usize, z: usize) -> (r: &mut Cell)
        requires
            old(self).wf(),
            x < CHUNK_SIZE_XZ,
            y < CHUNK_SIZE_Y,
            z < CHUNK_SIZE_XZ,
        ensures
            *r == old(self).cells@[cell_index(x as int, y as int, z as int)],
            final(self).cells@ == old(self).cells@.update(
                cell_index(x as int, y as int, z as int),
                *final(r),
            ),
            final(self).pos == old(self).pos,
            final(self).is_dirty,
            final(self).active_cell_count == old(self).active_cell_count,
            (final(self).min_y, final(self).max_y) == if is_active(old(self).cells@[cell_index(0, y as int, 0)]) {
                widened_range(old(self).min_y, old(self).max_y, y as u8)
            } else {
                (old(self).min_y, old(self).max_y)
            },
    {
        self.is_dirty = true;
        if !self.cells[self.index(0, y, 0)].is_empty() {
            self.widen_y_range(y as u8);
        }
        let idx = self.index(x, y, z);
        &mut self.cells[idx]
    }

    /// Writes `cell` at `(x, y, z)` and marks the chunk dirty. A non-empty cell
    /// widens the Y range to include `y`; the active-cell count follows the
    /// change of the cell from active or not to active or not, so that an exact
    /// count stays exact.
    pub fn set(&mut self, x: usize, y: usize, z: usize, cell: Cell)
        requires
            old(self).wf(),
            x < CHUNK_SIZE_XZ,
            y < CHUNK_SIZE_Y,
            z < CHUNK_SIZE_XZ,
        ensures
            final(self).wf(),
            final(self).cells@ == old(self).cells@.update(cell_index(x as int, y as int, z as int), cell),
            final(self).pos == old(self).pos,
            final(self).is_dirty,
            final(self).active_cell_count == count_after_write(
                old(self).active_cell_count,
                is_active(old(self).cells@[cell_index(x as int, y as int, z as int)]),
                is_active(cell),
            ),
            (final(self).min_y, final(self).max_y) == if is_active(cell) {
                widened_range(old(self).min_y, old(self).max_y, y as u8)
            } else {
                (old(self).min_y, old(self).max_y)
            },
            is_active(cell) ==> final(self).min_y <= y <= final(self).max_y,
            old(self).active_cell_count == count_active(old(self).cells@, CHUNK_VOLUME as int)
                ==> final(self).active_cell_count == count_active(final(self).cells@, CHUNK_VOLUME as int),
            range_covers(old(self).cells@, old(self).min_y as int, old(self).max_y as int)
                ==> range_covers(final(self).cells@, final(self).min_y as int, final(self).max_y as int),
    {
        let idx = self.index(x, y, z);
        let was_active = !self.cells[idx].is_empty();
        let now_active = !cell.is_empty();
        let ghost old_cells = self.cells@;
        self.cells.set(idx, cell);
        self.is_dirty = true;
        if was_active && !now_active {
            if self.active_cell_count > 0 {
                self.active_cell_count = self.active_cell_count - 1;
            }
        } else if !was_active && now_active {
            if self.active_cell_count < u32::MAX {
                self.active_cell_count = self.active_cell_count + 1;
            }
        }
        if now_active {
            self.widen_y_range(y as u8);
        }
        proof {
            lemma_count_after_update(old_cells, idx as int, cell, CHUNK_VOLUME as int);
            lemma_count_bound(old_cells, CHUNK_VOLUME as int);
            if now_active {
                if range_covers(old_cells, old(self).min_y as int, old(self).max_y as int) {
                    lemma_covers_after_write(old_cells, old(self).min_y as int, old(self).max_y as int,
                        self.min_y as int, self.max_y as int, x as int, y as int, z as int);
                    assert(range_covers(old_cells.update(idx as int, cell), self.min_y as int, self.max_y as int));
                }
            } else {
                assert forall|i: int| 0 <= i < self.cells@.len() && is_active(#[trigger] self.cells@[i])
                    && range_covers(old_cells, old(self).min_y as int, old(self).max_y as int)
                    implies old(self).min_y <= i / 256 <= old(self).max_y by {
                    assert(old_cells[i] == self.cells@[i]);
                }
            }
        }
    }

    /// The cell at `(x mod 16, y mod 64, z mod 16)`.
    pub fn get_wrapped(&self, x: isize, y: isize, z: isize) -> (r: &Cell)
        requires
            self.wf(),
        ensures
            *r == self.cells@[cell_index(x as int % 16, y as int % 64, z as int % 16)],
    {
        &self.cells[self.index_wrapped(x, y, z)]
    }

    /// Write access to the cell at `(x mod 16, y mod 64, z mod 16)`; marks the
    /// chunk dirty. The statistics stay as they were: `recalculate_stats`
    /// brings them up to date.
    pub fn get_mut_wrapped(&mut self, x: isize, y: isize, z: isize) -> (r: &mut Cell)
        requires
            old(self).wf(),
        ensures
            *r == old(self).cells@[cell_index(x as int % 16, y as int % 64, z as int % 16)],
            final(self).cells@ == old(self).cells@.update(cell_index(x as int % 16, y as int % 64, z as int % 16), *final(r)),
            final(self).pos == old(self).pos,
            final(self).is_dirty,
            final(self).active_cell_count == old(self).active_cell_count,
            final(self).min_y == old(self).min_y,
            final(self).max_y == old(self).max_y,
    {
        self.is_dirty = true;
        let idx = self.index_wrapped(x, y, z);
        &mut self.cells[idx]
    }

    fn widen_y_range(&mut self, y: u8)
        ensures
            final(self).cells == old(self).cells,
            final(self).pos == old(self).pos,
            final(self).is_dirty == old(self).is_dirty,
            final(self).active_cell_count == old(self).active_cell_count,
            (final(self).min_y, final(self).max_y) == widened_range(old(self).min_y, old(self).max_y, y),
    {
        if y < self.min_y {
            self.min_y = y;
        }
        if y > self.max_y {
            self.max_y = y;
        }
    }

    /// All cells, in storage order.
    pub fn cells(&self) -> (r: &[Cell])
        ensures
            r@ == self.cells@,
    {
        self.cells.as_slice()
    }

    /// Write access to all cells; marks the chunk dirty. The statistics stay as
    /// they were: `recalculate_stats` brings them up to date.
    pub fn cells_mut(&mut self) -> (r: &mut [Cell])
        ensures
            r@ == old(self).cells@,
            final(self).cells@ == final(r)@,
            final(self).pos == old(self).pos,
            final(self).is_dirty,
            final(self).active_cell_count == old(self).active_cell_count,
            final(self).min_y == old(self).min_y,
            final(self).max_y == old(self).max_y,
    {
        self.is_dirty = true;
        self.cells.as_mut_slice()
    }

    /// The chunk holds only air and vacuum: no cell is active.
    pub fn is_empty(&self) -> (r: bool)
        ensures
            r == forall|i: int| 0 <= i < self.cells@.len() ==> !is_active(#[trigger] self.cells@[i]),
    {
        let mut i: usize = 0;
        while i < self.cells.len()
            invariant
                0 <= i <= self.cells@.len(),
                forall|j: int| 0 <= j < i ==> !is_active(#[trigger] self.cells@[j]),
            decreases self.cells@.len() - i,
        {
            if !self.cells[i].is_empty() {
                return false;
            }
            i = i + 1;
        }
        true
    }

    /// Recomputes the active-cell count and the Y range from the cells.
    pub fn recalculate_stats(&mut self)
        requires
            old(self).wf(),
        ensures
            final(self).cells == old(self).cells,
            final(self).pos == old(self).pos,
            final(self).is_dirty == old(self).is_dirty,
            final(self).stats_exact(),
    {
        let (count, min_y, max_y) = compute_stats(&self.cells);
        self.active_cell_count = count;
        self.min_y = min_y;
        self.max_y = max_y;
    }

    /// Fills every cell with `cell`, marks the chunk dirty and sets the
    /// statistics to those of a uniform chunk.
    pub fn fill(&mut self, cell: Cell)
        requires
            old(self).wf(),
        ensures
            final(self).wf(),
            forall|i: int| 0 <= i < CHUNK_VOLUME ==> #[trigger] final(self).cells@[i] == cell,
            final(self).pos == old(self).pos,
            final(self).is_dirty,
            final(self).active_cell_count == if is_active(cell) { CHUNK_VOLUME as u32 } else { 0 },
            final(self).min_y == 0,
            final(self).max_y == if is_active(cell) { (CHUNK_SIZE_Y - 1) as u8 } else { 0 },
            final(self).stats_exact(),
    {
        let mut i: usize = 0;
        while i < self.cells.len()
            invariant
                self.cells.len() == CHUNK_VOLUME,
                0 <= i <= CHUNK_VOLUME,
                forall|j: int| 0 <= j < i ==> #[trigger] self.cells@[j] == cell,
                self.pos == old(self).pos,
            decreases CHUNK_VOLUME - i,
        {
            self.cells.set(i, cell);
            i = i + 1;
        }
        let empty = cell.is_empty();
        self.active_cell_count = if empty { 0 } else { CHUNK_VOLUME as u32 };
        self.min_y = 0;
        self.max_y = if empty { 0 } else { (CHUNK_SIZE_Y - 1) as u8 };
        self.is_dirty = true;
        proof {
            lemma_count_uniform(self.cells@, cell, CHUNK_VOLUME as int);
            if !empty {
                assert(is_active(self.cells@[0]) && 0int / 256 == 0);
                assert(is_active(self.cells@[CHUNK_VOLUME - 1]) && (CHUNK_VOLUME - 1) / 256 == 63);
            }
        }
    }

    /// Fills the chunk with air.
    pub fn clear(&mut self)
        requires
            old(self).wf(),
        ensures
            final(self).wf(),
            forall|i: int| 0 <= i < CHUNK_VOLUME ==> (#[trigger] final(self).cells@[i]).is_default_air(),
            final(self).pos == old(self).pos,
            final(self).is_dirty,
            final(self).active_cell_count == 0,
            final(self).min_y == 0,
            final(self).max_y == 0,
    {
        self.fill(Cell::AIR());
    }

    /// Size of the chunk's cells in bytes: `CHUNK_VOLUME` cells of `CELL_SIZE`
    /// (48) bytes each, 786432 in all. The tests check that 48 is what
    /// `size_of::<Cell>()` gives.
    pub fn size_bytes() -> (r: usize)
        ensures
            r == CHUNK_VOLUME * CELL_SIZE,
            r == 786432,
    {
        CHUNK_VOLUME * CELL_SIZE
    }

    /// Extent of a chunk along X, Y and Z.
    pub fn dimensions() -> (r: (usize, usize, usize))
        ensures
            r == (16usize, 64usize, 16usize),
    {
        (CHUNK_SIZE_XZ, CHUNK_SIZE_Y, CHUNK_SIZE_XZ)
    }
}

/// Every one of the first `n` cells equal to `c` makes them all active or all
/// inactive.
proof fn lemma_count_uniform(cells: Seq<Cell>, c: Cell, n: int)
    requires
        0 <= n <= cells.len(),
        forall|i: int| 0 <= i < n ==> #[trigger] cells[i] == c,
    ensures
        count_active(cells, n) == if is_active(c) { n } else { 0 },
    decreases n,
{
    if n > 0 {
        lemma_count_uniform(cells, c, n - 1);
    }
}

proof fn lemma_count_zero(cells: Seq<Cell>, n: int)
    requires
        0 <= n <= cells.len(),
        count_active(cells, n) == 0,
    ensures
        forall|i: int| 0 <= i < n ==> !is_active(#[trigger] cells[i]),
    decreases n,
{
    if n > 0 {
        lemma_count_zero(cells, n - 1);
    }
}

/// Counts the active cells and finds the lowest and highest layer holding one.
fn compute_stats(cells: &Vec<Cell>) -> (r: (u32, u8, u8))
    requires
        cells.len() == CHUNK_VOLUME,
    ensures
        stats_describe(cells@, CHUNK_VOLUME as int, r.0 as int, r.1 as int, r.2 as int),
{
    let mut count: u32 = 0;
    let mut min_y: u8 = CHUNK_SIZE_Y as u8;
    let mut max_y: u8 = 0;
    let mut idx: usize = 0;
    while idx < cells.len()
        invariant
            cells.len() == CHUNK_VOLUME,
            0 <= idx <= CHUNK_VOLUME,
            count == count_active(cells@, idx as int),
            count <= idx,
            count == 0 ==> min_y == 64 && max_y == 0,
            count > 0 ==> {
                &&& min_y <= max_y < 64
                &&& forall|i: int| 0 <= i < idx && is_active(#[trigger] cells@[i]) ==> min_y <= i / 256 <= max_y
                &&& exists|i: int| 0 <= i < idx && is_active(#[trigger] cells@[i]) && i / 256 == min_y
                &&& exists|i: int| 0 <= i < idx && is_active(#[trigger] cells@[i]) && i / 256 == max_y
            },
        decreases CHUNK_VOLUME - idx,
    {
        if !cells[idx].is_empty() {
            count = count + 1;
            let y = (idx / (CHUNK_SIZE_XZ * CHUNK_SIZE_XZ)) as u8;
            if y < min_y {
                min_y = y;
            }
            if y > max_y {
                max_y = y;
            }
            proof {
                let ii = idx as int;
                assert(is_active(cells@[ii]) && ii / 256 == y);
                if count == 1 {
                    lemma_count_zero(cells@, ii);
                }
                assert forall|i: int| 0 <= i <= ii && is_active(#[trigger] cells@[i])
                    implies min_y <= i / 256 <= max_y by {
                    assert(i / 256 <= ii / 256);
                }
            }
        }
        idx = idx + 1;
    }
    if count > 0 {
        (count, min_y, max_y)
    } else {
        (count, 0, 0)
    }
}

/// Replacing the cell at `i` changes the count of the first `n` cells by the
/// change of that one cell.
proof fn lemma_count_after_update(cells: Seq<Cell>, i: int, c: Cell, n: int)
    requires
        0 <= i < n <= cells.len(),
    ensures
        count_active(cells.update(i, c), n) + (if is_active(cells[i]) { 1int } else { 0int })
            == count_active(cells, n) + (if is_active(c) { 1int } else { 0int }),
    decreases n,
{
    if n - 1 > i {
        lemma_count_after_update(cells, i, c, n - 1);
    } else {
        lemma_count_unchanged_prefix(cells, cells.update(i, c), i);
    }
}

/// Two sequences that agree on their first `n` cells count alike there.
proof fn lemma_count_unchanged_prefix(a: Seq<Cell>, b: Seq<Cell>, n: int)
    requires
        0 <= n <= a.len(),
        n <= b.len(),
        forall|j: int| 0 <= j < n ==> a[j] == b[j],
    ensures
        count_active(a, n) == count_active(b, n),
    decreases n,
{
    if n > 0 {
        lemma_count_unchanged_prefix(a, b, n - 1);
    }
}

/// At most `n` of the first `n` cells are active.
proof fn lemma_count_bound(cells: Seq<Cell>, n: int)
    requires
        0 <= n,
    ensures
        count_active(cells, n) <= n,
    decreases n,
{
    if n > 0 {
        lemma_count_bound(cells, n - 1);
    }
}

/// A write at `(x, y, z)` keeps the Y range covering the active cells once the
/// range has been widened to include `y`, whatever was written.
proof fn lemma_covers_after_write(
    cells: Seq<Cell>,
    old_min: int,
    old_max: int,
    min_y: int,
    max_y: int,
    x: int,
    y: int,
    z: int,
)
    requires
        cells.len() == CHUNK_VOLUME,
        0 <= x < 16,
        0 <= y < 64,
        0 <= z < 16,
        range_covers(cells, old_min, old_max),
        min_y <= old_min,
        old_max <= max_y,
        min_y <= y <= max_y,
    ensures
        forall|c: Cell| #[trigger] range_covers(cells.update(cell_index(x, y, z), c), min_y, max_y),
{
    assert(cell_index(x, y, z) / 256 == y) by {
        vstd::arithmetic::div_mod::lemma_fundamental_div_mod_converse(
            cell_index(x, y, z), 256, y, x + z * 16);
    }
    assert forall|c: Cell| #[trigger] range_covers(cells.update(cell_index(x, y, z), c), min_y, max_y) by {
        let after = cells.update(cell_index(x, y, z), c);
        assert forall|i: int| 0 <= i < after.len() && is_active(#[trigger] after[i])
            implies min_y <= i / 256 <= max_y by {
            if i != cell_index(x, y, z) {
                assert(cells[i] == after[i]);
            }
        }
    }
}

/// Distinct coordinates inside a chunk name distinct cells: writing one cell
/// and reading another gives what the other held, reading the written one gives
/// what was written.
pub proof fn lemma_set_then_get(
    cells: Seq<Cell>,
    x: int,
    y: int,
    z: int,
    c: Cell,
    x2: int,
    y2: int,
    z2: int,
)
    requires
        cells.len() == CHUNK_VOLUME,
        0 <= x < 16,
        0 <= y < 64,
        0 <= z < 16,
        0 <= x2 < 16,
        0 <= y2 < 64,
        0 <= z2 < 16,
    ensures
        cells.update(cell_index(x, y, z), c)[cell_index(x2, y2, z2)] == if x == x2 && y == y2 && z == z2 {
            c
        } else {
            cells[cell_index(x2, y2, z2)]
        },
{
    let i = cell_index(x, y, z);
    let j = cell_index(x2, y2, z2);
    if i == j {
        vstd::arithmetic::div_mod::lemma_fundamental_div_mod_converse(i, 256, y, x + z * 16);
        vstd::arithmetic::div_mod::lemma_fundamental_div_mod_converse(j, 256, y2, x2 + z2 * 16);
        vstd::arithmetic::div_mod::lemma_fundamental_div_mod_converse(x + z * 16, 16, z, x);
        vstd::arithmetic::div_mod::lemma_fundamental_div_mod_converse(x2 + z2 * 16, 16, z2, x2);
    }
}

/// Wrapped access agrees with plain access inside the chunk, and shifting any
/// coordinate by a whole chunk extent reaches the same cell.
pub proof fn lemma_wrapped_index(x: int, y: int, z: int, kx: int, ky: int, kz: int)
    ensures
        0 <= x < 16 && 0 <= y < 64 && 0 <= z < 16 ==> cell_index(x % 16, y % 64, z % 16) == cell_index(
            x,
            y,
            z,
        ),
        cell_index((x + 16 * kx) % 16, (y + 64 * ky) % 64, (z + 16 * kz) % 16) == cell_index(
            x % 16,
            y % 64,
            z % 16,
        ),
        0 <= cell_index(x % 16, y % 64, z % 16) < CHUNK_VOLUME,
{
    crate::utils::torus_math::lemma_wrap_periodic(x, 16, kx);
    crate::utils::torus_math::lemma_wrap_periodic(y, 64, ky);
    crate::utils::torus_math::lemma_wrap_periodic(z, 16, kz);
    assert(x + kx * 16 == x + 16 * kx) by (nonlinear_arith);
    assert(y + ky * 64 == y + 64 * ky) by (nonlinear_arith);
    assert(z + kz * 16 == z + 16 * kz) by (nonlinear_arith);
    vstd::arithmetic::div_mod::lemma_mod_bound(x, 16);
    vstd::arithmetic::div_mod::lemma_mod_bound(y, 64);
    vstd::arithmetic::div_mod::lemma_mod_bound(z, 16);
    if 0 <= x < 16 && 0 <= y < 64 && 0 <= z < 16 {
        crate::utils::torus_math::lemma_wrap_identity(x, 16);
        crate::utils::torus_math::lemma_wrap_identity(y, 64);
        crate::utils::torus_math::lemma_wrap_identity(z, 16);
    }
}

} // verus!
