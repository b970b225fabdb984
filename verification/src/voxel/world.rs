//! The toroidal world: chunks kept in a map keyed by their packed position.
//!
//! The world wraps around on X and Z (it is a torus of 16 x 16 chunks); Y spans
//! the 64 layers of one chunk, and a Y coordinate outside them is reduced
//! modulo 64, so the world repeats along Y as well. Chunks are created on
//! first access, and removed chunks are kept in a pool for reuse.
use vstd::prelude::*;
use std::collections::HashMap;
use std::collections::hash_map::Entry;
use crate::voxel::cell::{Cell, air_value};
use crate::voxel::chunk::{
    Chunk, ChunkPos, CHUNK_SIZE_XZ, CHUNK_SIZE_Y, CHUNK_VOLUME, key_of, cell_index,
};
use crate::utils::torus_math::{
    wrap_cell_coords, wrap_cell_coord, wrap_chunk_coords, wrap_spec, lemma_wrap_defined,
    lemma_wrap_identity,
};

verus! {

broadcast use vstd::std_specs::hash::group_hash_axioms;

/// World extent in chunks along X and Z.
pub const WORLD_SIZE_CHUNKS_XZ: usize = 16;
/// World extent in chunks along Y: one layer of chunks.
pub const WORLD_SIZE_CHUNKS_Y: usize = 1;
/// World extent in cells along X and Z.
pub const WORLD_SIZE_CELLS_XZ: usize = WORLD_SIZE_CHUNKS_XZ * CHUNK_SIZE_XZ;
/// World extent in cells along Y.
pub const WORLD_SIZE_CELLS_Y: usize = WORLD_SIZE_CHUNKS_Y * CHUNK_SIZE_Y;
/// Mask that reduces a cell coordinate modulo the world size.
pub const WORLD_MASK_CELLS_XZ: usize = WORLD_SIZE_CELLS_XZ - 1;
/// Mask that reduces a chunk coordinate modulo the world size.
pub const WORLD_MASK_CHUNKS_XZ: usize = WORLD_SIZE_CHUNKS_XZ - 1;
/// Largest number of chunks meant to be held at once.
pub const MAX_ACTIVE_CHUNKS: usize = 100;

/// Counters kept by the chunk manager.
#[derive(Debug, Default)]
pub struct ChunkManagerStats {
    /// Chunks created so far.
    pub total_chunks: usize,
    /// Chunks held at the last access.
    pub active_chunks: usize,
    /// Chunks returned to the pool so far.
    pub pooled_chunks: usize,
    /// Cell reads so far.
    pub cells_accessed: u64,
}

/// Position of the chunk holding world cells `(x, _, z)`: the wrapped cell
/// coordinates divided by the chunk size.
pub open spec fn world_chunk_pos(x: int, z: int) -> ChunkPos {
    ChunkPos { x: (wrap_spec(x, 256) / 16) as i32, z: (wrap_spec(z, 256) / 16) as i32 }
}

/// Map key of the chunk holding world cells `(x, _, z)`.
pub open spec fn world_key(x: int, z: int) -> u64 {
    key_of(world_chunk_pos(x, z).x, world_chunk_pos(x, z).z)
}

/// Index, inside its chunk, of world cell `(x, y, z)`; `y` wraps around the
/// chunk height.
pub open spec fn world_index(x: int, y: int, z: int) -> int {
    cell_index(wrap_spec(x, 256) % 16, wrap_spec(y, 64), wrap_spec(z, 256) % 16)
}

/// Both coordinate triples name the same world cell.
pub open spec fn same_world_cell(x1: int, y1: int, z1: int, x2: int, y2: int, z2: int) -> bool {
    &&& wrap_spec(x1, 256) == wrap_spec(x2, 256)
    &&& wrap_spec(y1, 64) == wrap_spec(y2, 64)
    &&& wrap_spec(z1, 256) == wrap_spec(z2, 256)
}

/// What world cell `(x, y, z)` holds in the chunk map `m`: the stored cell when
/// its chunk is present, default air otherwise.
pub open spec fn cell_at(
    m: Map<u64, Chunk>,
    x: int,
    y: int,
    z: int,
) -> ((u8, u8, u8, u8, i16, i16, i16, i16, i16, u8, u8, u8), Seq<u8>) {
    if m.contains_key(world_key(x, z)) {
        m[world_key(x, z)].cells@[world_index(x, y, z)].value()
    } else {
        air_value()
    }
}

/// The chunk map `after` is `before` with world cell `(x, y, z)` holding `v`:
/// every coordinate triple that names that cell reads `v`, every other reads
/// what it read in `before`.
pub open spec fn writes_cell(
    before: Map<u64, Chunk>,
    after: Map<u64, Chunk>,
    x: int,
    y: int,
    z: int,
    v: ((u8, u8, u8, u8, i16, i16, i16, i16, i16, u8, u8, u8), Seq<u8>),
) -> bool {
    forall|x2: int, y2: int, z2: int| #[trigger] cell_at(after, x2, y2, z2) == if same_world_cell(x, y, z, x2, y2, z2) {
        v
    } else {
        cell_at(before, x2, y2, z2)
    }
}

/// Every chunk of `m` is well formed, sits under the key of its own position,
/// and that position lies inside the world.
pub open spec fn chunk_map_wf(m: Map<u64, Chunk>) -> bool {
    forall|k: u64| #[trigger] m.contains_key(k) ==> {
        &&& m[k].wf()
        &&& key_of(m[k].pos.x, m[k].pos.z) == k
        &&& 0 <= m[k].pos.x < 16
        &&& 0 <= m[k].pos.z < 16
    }
}

/// A chunk fresh from creation at `pos`: all air, statistics zero.
pub open spec fn is_fresh_chunk(c: Chunk, pos: ChunkPos) -> bool {
    &&& c.wf()
    &&& c.pos == pos
    &&& forall|i: int| 0 <= i < CHUNK_VOLUME ==> (#[trigger] c.cells@[i]).is_default_air()
    &&& c.active_cell_count == 0
    &&& c.min_y == 0
    &&& c.max_y == 0
}

/// Position `pos` reduced into the world: each coordinate modulo 16.
pub open spec fn normalized(pos: ChunkPos) -> ChunkPos {
    ChunkPos { x: wrap_spec(pos.x as int, 16) as i32, z: wrap_spec(pos.z as int, 16) as i32 }
}

/// Manager of the world's chunks.
pub struct ChunkManager {
    chunks: HashMap<u64, Chunk>,
    chunk_pool: Vec<Chunk>,
    world_size_chunks_xz: usize,
    stats: ChunkManagerStats,
}

impl ChunkManager {
    /// The chunks held, by packed position.
    pub closed spec fn chunk_map(&self) -> Map<u64, Chunk> {
        self.chunks@
    }

    /// The chunks kept for reuse; the last one is reused first.
    pub closed spec fn pool(&self) -> Seq<Chunk> {
        self.chunk_pool@
    }

    /// The counters.
    pub closed spec fn stats_view(&self) -> ChunkManagerStats {
        self.stats
    }

    /// World size in chunks along X and Z.
    pub closed spec fn world_size(&self) -> int {
        self.world_size_chunks_xz as int
    }

    /// The manager's invariant: a 16-chunk world whose finite map and whose
    /// pool hold well-formed chunks.
    pub open spec fn wf(&self) -> bool {
        &&& self.world_size() == 16
        &&& self.chunk_map().dom().finite()
        &&& chunk_map_wf(self.chunk_map())
        &&& forall|i: int| 0 <= i < self.pool().len() ==> (#[trigger] self.pool()[i]).wf()
    }

    /// What world cell `(x, y, z)` holds.
    pub open spec fn cell_value(
        &self,
        x: int,
        y: int,
        z: int,
    ) -> ((u8, u8, u8, u8, i16, i16, i16, i16, i16, u8, u8, u8), Seq<u8>) {
        cell_at(self.chunk_map(), x, y, z)
    }

    /// An empty manager for a 16 x 16 chunk world.
    pub fn new() -> (r: ChunkManager)
        ensures
            r.wf(),
            r.chunk_map() == Map::<u64, Chunk>::empty(),
            r.pool() == Seq::<Chunk>::empty(),
            r.stats_view() == (ChunkManagerStats {
                total_chunks: 0,
                active_chunks: 0,
                pooled_chunks: 0,
                cells_accessed: 0,
            }),
    {
        ChunkManager {
            chunks: HashMap::with_capacity(WORLD_SIZE_CHUNKS_XZ * WORLD_SIZE_CHUNKS_XZ),
            chunk_pool: Vec::with_capacity(64),
            world_size_chunks_xz: WORLD_SIZE_CHUNKS_XZ,
            stats: ChunkManagerStats {
                total_chunks: 0,
                active_chunks: 0,
                pooled_chunks: 0,
                cells_accessed: 0,
            },
        }
    }

    /// Position of the chunk holding world cell `(x, y, z)`: the wrapped X and
    /// Z cell coordinates divided by the chunk size.
    pub fn global_to_chunk_pos(&self, x: i32, y: i32, z: i32) -> (r: ChunkPos)
        ensures
            r == world_chunk_pos(x as int, z as int),
            r.x == wrap_spec(x as int, 256) / 16,
            r.z == wrap_spec(z as int, 256) / 16,
            key_of(r.x, r.z) == world_key(x as int, z as int),
            0 <= r.x < 16,
            0 <= r.z < 16,
    {
        proof {
            lemma_wrap_defined(x, 256);
            lemma_wrap_defined(z, 256);
        }
        let (wx, _wy, wz) = wrap_cell_coords(x, y, z, WORLD_SIZE_CELLS_XZ as i32);
        ChunkPos::new(wx / CHUNK_SIZE_XZ as i32, wz / CHUNK_SIZE_XZ as i32)
    }

    /// Coordinates of world cell `(x, y, z)` inside its chunk: the wrapped X and
    /// Z coordinates modulo the chunk size, and `y` modulo the chunk height.
    pub fn global_to_local(&self, x: i32, y: i32, z: i32) -> (r: (usize, usize, usize))
        ensures
            r.0 == wrap_spec(x as int, 256) % 16,
            r.1 == wrap_spec(y as int, 64),
            r.2 == wrap_spec(z as int, 256) % 16,
            r.0 < CHUNK_SIZE_XZ,
            r.1 < CHUNK_SIZE_Y,
            r.2 < CHUNK_SIZE_XZ,
            cell_index(r.0 as int, r.1 as int, r.2 as int) == world_index(x as int, y as int, z as int),
    {
        proof {
            lemma_wrap_defined(x, 256);
            lemma_wrap_defined(z, 256);
            lemma_wrap_defined(y, 64);
        }
        let (wx, _wy, wz) = wrap_cell_coords(x, y, z, WORLD_SIZE_CELLS_XZ as i32);
        let wy = wrap_cell_coord(y, CHUNK_SIZE_Y as i32);
        (
            (wx % CHUNK_SIZE_XZ as i32) as usize,
            wy as usize,
            (wz % CHUNK_SIZE_XZ as i32) as usize,
        )
    }

    /// Reduces a chunk position into the world, each coordinate modulo the
    /// world size in chunks.
    fn normalize_chunk_pos(&self, pos: ChunkPos) -> (r: ChunkPos)
        requires
            self.wf(),
        ensures
            r == normalized(pos),
            0 <= r.x < 16,
            0 <= r.z < 16,
    {
        proof {
            lemma_wrap_defined(pos.x, 16);
            lemma_wrap_defined(pos.z, 16);
        }
        let (nx, nz) = wrap_chunk_coords(pos.x, pos.z, self.world_size_chunks_xz as i32);
        ChunkPos::new(nx, nz)
    }

    /// The manager can make the chunk of key `key` without a counter overflow.
    pub open spec fn can_create(&self, key: u64) -> bool {
        !self.chunk_map().contains_key(key) ==> self.stats_view().total_chunks < usize::MAX
    }

    /// The effect of making sure the chunk at normalized position `pos` exists:
    /// a present chunk stays as it is; otherwise a fresh one is stored, taken
    /// from the end of the pool when the pool is not empty (and then dirty), and
    /// counted, so that one more chunk is held. Either way every world cell
    /// keeps what it held.
    pub open spec fn creates(&self, next: &ChunkManager, pos: ChunkPos) -> bool {
        let key = key_of(pos.x, pos.z);
        &&& next.wf()
        &&& next.world_size() == self.world_size()
        &&& if self.chunk_map().contains_key(key) {
            &&& next.chunk_map() == self.chunk_map()
            &&& next.pool() == self.pool()
            &&& next.stats_view().total_chunks == self.stats_view().total_chunks
        } else {
            &&& next.chunk_map().dom() == self.chunk_map().dom().insert(key)
            &&& forall|k: u64| k != key && #[trigger] self.chunk_map().contains_key(k)
                ==> next.chunk_map()[k] == self.chunk_map()[k]
            &&& is_fresh_chunk(next.chunk_map()[key], pos)
            &&& next.chunk_map()[key].is_dirty == (self.pool().len() > 0)
            &&& next.pool() == if self.pool().len() > 0 {
                self.pool().drop_last()
            } else {
                self.pool()
            }
            &&& next.stats_view().total_chunks == self.stats_view().total_chunks + 1
        }
        &&& next.chunk_map().len() == self.chunk_map().len()
            + if self.chunk_map().contains_key(key) { 0int } else { 1int }
        &&& next.stats_view().active_chunks == next.chunk_map().len()
        &&& next.stats_view().pooled_chunks == self.stats_view().pooled_chunks
        &&& forall|x: int, y: int, z: int| #[trigger] next.cell_value(x, y, z) == self.cell_value(x, y, z)
    }

    /// Makes sure the chunk at normalized position `pos` is stored, and returns
    /// its key.
    fn ensure_chunk(&mut self, pos: ChunkPos) -> (key: u64)
        requires
            old(self).wf(),
            0 <= pos.x < 16,
            0 <= pos.z < 16,
            old(self).can_create(key_of(pos.x, pos.z)),
        ensures
            key == key_of(pos.x, pos.z),
            old(self).creates(final(self), pos),
            final(self).stats_view().cells_accessed == old(self).stats_view().cells_accessed,
            final(self).chunk_map().contains_key(key),
    {
        let key = pos.to_key();
        if !self.chunks.contains_key(&key) {
            assert(forall|i: int| 0 <= i < self.chunk_pool@.len() ==> (#[trigger] self.chunk_pool@[i]).wf()) by {
                assert(forall|i: int| 0 <= i < self.pool().len() ==> (#[trigger] self.pool()[i]).wf());
            }
            let chunk = fresh_chunk(&mut self.chunk_pool, pos);
            self.chunks.insert(key, chunk);
            self.stats.total_chunks = self.stats.total_chunks + 1;
            proof {
                assert(self.chunks@.dom() =~= old(self).chunks@.dom().insert(key));
                assert(self.chunks@.len() == old(self).chunks@.len() + 1);
                assert forall|i: int| 0 <= i < self.pool().len() implies (#[trigger] self.pool()[i]).wf() by {
                    assert(self.pool()[i] == old(self).pool()[i]);
                }
                assert forall|k: u64| #[trigger] self.chunks@.contains_key(k) implies {
                    &&& self.chunks@[k].wf()
                    &&& key_of(self.chunks@[k].pos.x, self.chunks@[k].pos.z) == k
                    &&& 0 <= self.chunks@[k].pos.x < 16
                    &&& 0 <= self.chunks@[k].pos.z < 16
                } by {
                    if k != key {
                        assert(old(self).chunks@.contains_key(k));
                    }
                }
                assert forall|x: int, y: int, z: int|
                    #[trigger] self.cell_value(x, y, z) == old(self).cell_value(x, y, z) by {
                    lemma_world_index_bounds(x, y, z);
                }
            }
        }
        self.stats.active_chunks = self.chunks.len();
        key
    }

    /// The chunk at `pos` (reduced into the world), created when missing.
    pub fn get_or_create_chunk(&mut self, pos: ChunkPos) -> (r: &Chunk)
        requires
            old(self).wf(),
            old(self).can_create(key_of(normalized(pos).x, normalized(pos).z)),
        ensures
            old(self).creates(final(self), normalized(pos)),
            final(self).stats_view().cells_accessed == old(self).stats_view().cells_accessed,
            *r == final(self).chunk_map()[key_of(normalized(pos).x, normalized(pos).z)],
    {
        let normalized_pos = self.normalize_chunk_pos(pos);
        let key = self.ensure_chunk(normalized_pos);
        self.chunks.get(&key).unwrap()
    }

    /// Write access to the chunk at `pos` (reduced into the world), created
    /// when missing. What is written through the result lands in the map.
    pub fn get_or_create_chunk_mut(&mut self, pos: ChunkPos) -> (r: &mut Chunk)
        requires
            old(self).wf(),
            old(self).can_create(key_of(normalized(pos).x, normalized(pos).z)),
        ensures
            ({
                let key = key_of(normalized(pos).x, normalized(pos).z);
                &&& if old(self).chunk_map().contains_key(key) {
                    &&& *r == old(self).chunk_map()[key]
                    &&& final(self).pool() == old(self).pool()
                    &&& final(self).stats_view().total_chunks == old(self).stats_view().total_chunks
                } else {
                    &&& is_fresh_chunk(*r, normalized(pos))
                    &&& r.is_dirty == (old(self).pool().len() > 0)
                    &&& final(self).pool() == if old(self).pool().len() > 0 {
                        old(self).pool().drop_last()
                    } else {
                        old(self).pool()
                    }
                    &&& final(self).stats_view().total_chunks == old(self).stats_view().total_chunks + 1
                }
                &&& final(self).chunk_map() == old(self).chunk_map().insert(key, *final(r))
                &&& final(self).chunk_map().len() == old(self).chunk_map().len()
                    + if old(self).chunk_map().contains_key(key) { 0int } else { 1int }
                &&& final(self).world_size() == 16
                &&& forall|i: int| 0 <= i < final(self).pool().len() ==> (#[trigger] final(self).pool()[i]).wf()
                &&& final(self).stats_view().active_chunks == final(self).chunk_map().len()
                &&& final(self).stats_view().pooled_chunks == old(self).stats_view().pooled_chunks
                &&& final(self).stats_view().cells_accessed == old(self).stats_view().cells_accessed
            }),
    {
        let normalized_pos = self.normalize_chunk_pos(pos);
        let key = normalized_pos.to_key();
        let held = self.chunks.len();
        if self.chunks.contains_key(&key) {
            self.stats.active_chunks = held;
        } else {
            proof {
                lemma_chunk_count_bound(self.chunk_map());
            }
            self.stats.active_chunks = held + 1;
            self.stats.total_chunks = self.stats.total_chunks + 1;
        }
        assert(forall|i: int| 0 <= i < self.chunk_pool@.len() ==> (#[trigger] self.chunk_pool@[i]).wf()) by {
            assert(forall|i: int| 0 <= i < self.pool().len() ==> (#[trigger] self.pool()[i]).wf());
        }
        match self.chunks.entry(key) {
            Entry::Occupied(o) => o.into_mut(),
            Entry::Vacant(v) => v.insert(fresh_chunk(&mut self.chunk_pool, normalized_pos)),
        }
    }

    /// Reads world cell `(x, y, z)`, creating its chunk when missing; counts the
    /// access. What the world holds does not change.
    pub fn get_cell(&mut self, x: i32, y: i32, z: i32) -> (r: &Cell)
        requires
            old(self).wf(),
            old(self).stats_view().cells_accessed < u64::MAX,
            old(self).can_create(world_key(x as int, z as int)),
        ensures
            r.value() == old(self).cell_value(x as int, y as int, z as int),
            forall|x2: int, y2: int, z2: int|
                #[trigger] final(self).cell_value(x2, y2, z2) == old(self).cell_value(x2, y2, z2),
            old(self).creates(final(self), world_chunk_pos(x as int, z as int)),
            final(self).stats_view().cells_accessed == old(self).stats_view().cells_accessed + 1,
    {
        self.stats.cells_accessed = self.stats.cells_accessed + 1;
        assert(self.wf()) by {
            assert(self.chunk_map() == old(self).chunk_map());
            assert(self.pool() == old(self).pool());
        }
        let chunk_pos = self.global_to_chunk_pos(x, y, z);
        let (lx, ly, lz) = self.global_to_local(x, y, z);
        proof {
            lemma_wrap_identity(chunk_pos.x as int, 16);
            lemma_wrap_identity(chunk_pos.z as int, 16);
            assert(normalized(chunk_pos) == chunk_pos);
        }
        let chunk = self.get_or_create_chunk(chunk_pos);
        chunk.get(lx, ly, lz)
    }

    /// Writes `cell` at world cell `(x, y, z)`, creating its chunk when
    /// missing. Every other world cell keeps what it held.
    pub fn set_cell(&mut self, x: i32, y: i32, z: i32, cell: Cell)
        requires
            old(self).wf(),
            old(self).can_create(world_key(x as int, z as int)),
        ensures
            final(self).wf(),
            final(self).cell_value(x as int, y as int, z as int) == cell.value(),
            writes_cell(old(self).chunk_map(), final(self).chunk_map(), x as int, y as int, z as int, cell.value()),
            final(self).chunk_map().dom() == old(self).chunk_map().dom().insert(world_key(x as int, z as int)),
            final(self).chunk_map()[world_key(x as int, z as int)].is_dirty,
            forall|k: u64| k != world_key(x as int, z as int) && #[trigger] old(self).chunk_map().contains_key(k)
                ==> final(self).chunk_map()[k] == old(self).chunk_map()[k],
            final(self).pool() == if !old(self).chunk_map().contains_key(world_key(x as int, z as int))
                && old(self).pool().len() > 0 {
                old(self).pool().drop_last()
            } else {
                old(self).pool()
            },
            final(self).stats_view().total_chunks == old(self).stats_view().total_chunks
                + if old(self).chunk_map().contains_key(world_key(x as int, z as int)) { 0int } else { 1int },
            final(self).stats_view().active_chunks == final(self).chunk_map().len(),
            final(self).stats_view().pooled_chunks == old(self).stats_view().pooled_chunks,
            final(self).stats_view().cells_accessed == old(self).stats_view().cells_accessed,
    {
        let chunk_pos = self.global_to_chunk_pos(x, y, z);
        let (lx, ly, lz) = self.global_to_local(x, y, z);
        proof {
            lemma_wrap_identity(chunk_pos.x as int, 16);
            lemma_wrap_identity(chunk_pos.z as int, 16);
            assert(normalized(chunk_pos) == chunk_pos);
        }
        let chunk = self.get_or_create_chunk_mut(chunk_pos);
        chunk.set(lx, ly, lz, cell);
        proof {
            let key = world_key(x as int, z as int);
            assert(self.chunk_map() == old(self).chunk_map().insert(key, *chunk));
            assert forall|x2: int, y2: int, z2: int|
                #[trigger] cell_at(self.chunk_map(), x2, y2, z2) == if same_world_cell(x as int, y as int, z as int, x2, y2, z2) {
                    cell.value()
                } else {
                    cell_at(old(self).chunk_map(), x2, y2, z2)
                } by {
                lemma_world_index_bounds(x2, y2, z2);
                if same_world_cell(x as int, y as int, z as int, x2, y2, z2) {
                    lemma_cell_at_same_cell(self.chunk_map(), x as int, y as int, z as int, x2, y2, z2);
                } else if world_key(x2, z2) == key
                    && world_index(x2, y2, z2) == world_index(x as int, y as int, z as int) {
                    lemma_world_cell_determined(x as int, y as int, z as int, x2, y2, z2);
                }
            }
            assert(chunk_map_wf(self.chunk_map()));
            assert(self.chunk_map().dom() =~= old(self).chunk_map().dom().insert(key));
        }
    }

    /// Removes the chunk at `pos` (reduced into the world); a removed chunk is
    /// cleared and pushed onto the pool, and counted.
    pub fn remove_chunk(&mut self, pos: ChunkPos)
        requires
            old(self).wf(),
            old(self).chunk_map().contains_key(key_of(normalized(pos).x, normalized(pos).z))
                ==> old(self).stats_view().pooled_chunks < usize::MAX,
        ensures
            final(self).wf(),
            ({
                let key = key_of(normalized(pos).x, normalized(pos).z);
                &&& final(self).chunk_map() == old(self).chunk_map().remove(key)
                &&& final(self).chunk_map().len() == old(self).chunk_map().len()
                    - if old(self).chunk_map().contains_key(key) { 1int } else { 0int }
                &&& if old(self).chunk_map().contains_key(key) {
                    &&& final(self).pool().len() == old(self).pool().len() + 1
                    &&& final(self).pool().drop_last() == old(self).pool()
                    &&& final(self).pool().last().pos == old(self).chunk_map()[key].pos
                    &&& forall|i: int| 0 <= i < CHUNK_VOLUME
                        ==> (#[trigger] final(self).pool().last().cells@[i]).is_default_air()
                    &&& final(self).pool().last().active_cell_count == 0
                    &&& final(self).pool().last().is_dirty
                    &&& final(self).pool().last().min_y == 0
                    &&& final(self).pool().last().max_y == 0
                    &&& final(self).stats_view().pooled_chunks == old(self).stats_view().pooled_chunks + 1
                } else {
                    &&& final(self).pool() == old(self).pool()
                    &&& final(self).stats_view().pooled_chunks == old(self).stats_view().pooled_chunks
                }
            }),
            final(self).stats_view().total_chunks == old(self).stats_view().total_chunks,
            final(self).stats_view().active_chunks == old(self).stats_view().active_chunks,
            final(self).stats_view().cells_accessed == old(self).stats_view().cells_accessed,
    {
        let normalized_pos = self.normalize_chunk_pos(pos);
        let key = normalized_pos.to_key();
        match self.chunks.remove(&key) {
            Some(chunk) => {
                let mut chunk = chunk;
                chunk.clear();
                self.chunk_pool.push(chunk);
                self.stats.pooled_chunks = self.stats.pooled_chunks + 1;
                proof {
                    assert(self.pool().drop_last() =~= old(self).pool());
                    assert forall|i: int| 0 <= i < self.pool().len() implies (#[trigger] self.pool()[i]).wf() by {
                        if i < old(self).pool().len() {
                            assert(self.pool()[i] == old(self).pool()[i]);
                        }
                    }
                }
            },
            None => {},
        }
        proof {
            assert forall|k: u64| #[trigger] self.chunks@.contains_key(k) implies old(self).chunks@.contains_key(k)
                && self.chunks@[k] == old(self).chunks@[k] by {}
        }
    }

    /// Clears every chunk held: each keeps its position and becomes all air,
    /// dirty, with zero statistics. The pool and the counters stay.
    pub fn clear(&mut self)
        requires
            old(self).wf(),
        ensures
            final(self).wf(),
            final(self).chunk_map().dom() == old(self).chunk_map().dom(),
            forall|k: u64| #[trigger] final(self).chunk_map().contains_key(k) ==> {
                let c = final(self).chunk_map()[k];
                &&& c.pos == old(self).chunk_map()[k].pos
                &&& c.is_dirty
                &&& c.active_cell_count == 0
                &&& c.min_y == 0
                &&& c.max_y == 0
                &&& forall|i: int| 0 <= i < CHUNK_VOLUME ==> (#[trigger] c.cells@[i]).is_default_air()
            },
            final(self).pool() == old(self).pool(),
            final(self).stats_view() == old(self).stats_view(),
    {
        let mut keys: Vec<u64> = Vec::new();
        let ghost entries = vstd::std_specs::iter::IteratorSpec::remaining(&vstd::std_specs::hash::spec_hash_map_iter(&self.chunks));
        for entry in it: self.chunks.iter()
            invariant
                it.seq() == entries,
                keys@.len() == it.index(),
                forall|j: int| 0 <= j < keys@.len() ==> keys@[j] == *entries[j].0,
        {
            keys.push(*entry.0);
        }
        let ghost all_keys = keys@;
        proof {
            assert forall|k: u64| old(self).chunks@.contains_key(k) implies all_keys.contains(k) by {
                assert(entries.contains((&k, &self.chunks@[k])));
                let j = choose|j: int| 0 <= j < entries.len() && entries[j] == (&k, &self.chunks@[k]);
                assert(all_keys[j] == k);
            }
        }
        let mut i: usize = 0;
        while i < keys.len()
            invariant
                keys@ == all_keys,
                0 <= i <= keys.len(),
                self.world_size() == 16,
                self.pool() == old(self).pool(),
                self.stats_view() == old(self).stats_view(),
                self.chunks@.dom() == old(self).chunks@.dom(),
                chunk_map_wf(self.chunks@),
                forall|k: u64| #[trigger] self.chunks@.contains_key(k) ==> {
                    let c = self.chunks@[k];
                    &&& c.pos == old(self).chunks@[k].pos
                    &&& (all_keys.take(i as int).contains(k) ==> {
                        &&& c.is_dirty
                        &&& c.active_cell_count == 0
                        &&& c.min_y == 0
                        &&& c.max_y == 0
                        &&& forall|j: int| 0 <= j < CHUNK_VOLUME ==> (#[trigger] c.cells@[j]).is_default_air()
                    })
                },
                forall|k: u64| old(self).chunks@.contains_key(k) ==> all_keys.contains(k),
            decreases keys.len() - i,
        {
            let key = keys[i];
            match self.chunks.remove(&key) {
                Some(chunk) => {
                    let mut chunk = chunk;
                    chunk.clear();
                    self.chunks.insert(key, chunk);
                },
                None => {},
            }
            proof {
                assert(self.chunks@.dom() =~= old(self).chunks@.dom());
                assert(all_keys.take(i + 1) =~= all_keys.take(i as int).push(key));
            }
            i = i + 1;
        }
        proof {
            assert(all_keys.take(keys@.len() as int) =~= all_keys);
        }
    }

    /// Drops every chunk, empties the pool and zeroes the counters.
    pub fn clear_all(&mut self)
        requires
            old(self).wf(),
        ensures
            final(self).wf(),
            final(self).chunk_map() == Map::<u64, Chunk>::empty(),
            final(self).pool() == Seq::<Chunk>::empty(),
            final(self).stats_view() == (ChunkManagerStats {
                total_chunks: 0,
                active_chunks: 0,
                pooled_chunks: 0,
                cells_accessed: 0,
            }),
    {
        self.chunks.clear();
        self.chunk_pool.clear();
        self.stats = ChunkManagerStats {
            total_chunks: 0,
            active_chunks: 0,
            pooled_chunks: 0,
            cells_accessed: 0,
        };
    }

    /// Number of chunks held.
    pub fn active_chunk_count(&self) -> (r: usize)
        ensures
            r == self.chunk_map().len(),
    {
        self.chunks.len()
    }

    /// The counters.
    pub fn stats(&self) -> (r: &ChunkManagerStats)
        ensures
            *r == self.stats_view(),
    {
        &self.stats
    }

    /// The chunks held, each once, in the map's own order.
    pub fn iter_chunks(&self) -> (r: Vec<&Chunk>)
        ensures
            r@.len() == self.chunk_map().len(),
            forall|i: int| 0 <= i < r@.len() ==> self.chunk_map().values().contains(*#[trigger] r@[i]),
            forall|k: u64| #[trigger] self.chunk_map().contains_key(k)
                ==> exists|i: int| 0 <= i < r@.len() && *r@[i] == self.chunk_map()[k],
    {
        let mut out: Vec<&Chunk> = Vec::new();
        let ghost entries = vstd::std_specs::iter::IteratorSpec::remaining(&vstd::std_specs::hash::spec_hash_map_iter(&self.chunks));
        for entry in it: self.chunks.iter()
            invariant
                it.seq() == entries,
                out@.len() == it.index(),
                forall|j: int| 0 <= j < out@.len() ==> out@[j] == entries[j].1,
        {
            out.push(entry.1);
        }
        proof {
            assert forall|i: int| 0 <= i < out@.len() implies self.chunk_map().values().contains(*#[trigger] out@[i]) by {
                assert(self.chunks@.contains_key(*entries[i].0));
            }
            assert forall|k: u64| #[trigger] self.chunk_map().contains_key(k)
                implies exists|i: int| 0 <= i < out@.len() && *out@[i] == self.chunk_map()[k] by {
                assert(entries.contains((&k, &self.chunks@[k])));
                let j = choose|j: int| 0 <= j < entries.len() && entries[j] == (&k, &self.chunks@[k]);
                assert(*out@[j] == self.chunk_map()[k]);
            }
        }
        out
    }
}

impl Default for ChunkManager {
    fn default() -> (r: ChunkManager)
        ensures
            r.wf(),
            r.chunk_map() == Map::<u64, Chunk>::empty(),
            r.pool() == Seq::<Chunk>::empty(),
    {
        ChunkManager::new()
    }
}

/// A fresh chunk at `pos`: the last chunk of the pool, cleared and moved to
/// `pos` (and then dirty), or a new clean one when the pool is empty.
fn fresh_chunk(pool: &mut Vec<Chunk>, pos: ChunkPos) -> (r: Chunk)
    requires
        forall|i: int| 0 <= i < old(pool)@.len() ==> (#[trigger] old(pool)@[i]).wf(),
    ensures
        is_fresh_chunk(r, pos),
        r.is_dirty == (old(pool)@.len() > 0),
        final(pool)@ == if old(pool)@.len() > 0 { old(pool)@.drop_last() } else { old(pool)@ },
{
    proof {
        if pool@.len() > 0 {
            assert(pool@[pool@.len() - 1].wf());
        }
    }
    match pool.pop() {
        Some(pooled) => {
            let mut pooled = pooled;
            pooled.pos = pos;
            pooled.is_dirty = false;
            pooled.active_cell_count = 0;
            pooled.fill(Cell::AIR());
            pooled
        },
        None => Chunk::new(pos),
    }
}

/// The world holds at most 256 chunks, one for each chunk position.
pub proof fn lemma_chunk_count_bound(m: Map<u64, Chunk>)
    requires
        m.dom().finite(),
        chunk_map_wf(m),
    ensures
        m.len() <= 256,
{
    let f = |i: int| key_of((i / 16) as i32, (i % 16) as i32);
    let range = vstd::set_lib::set_int_range(0, 256);
    let all = range.map(f);
    vstd::set_lib::lemma_int_range(0, 256);
    vstd::set_lib::lemma_map_size_bound(range, all, f);
    assert forall|k: u64| m.dom().contains(k) implies all.contains(k) by {
        let p = m[k].pos;
        let i = p.x * 16 + p.z;
        vstd::arithmetic::div_mod::lemma_fundamental_div_mod_converse(i, 16, p.x as int, p.z as int);
        assert(range.contains(i));
        assert(f(i) == k);
    }
    vstd::set_lib::lemma_len_subset(m.dom(), all);
}

/// A world cell's chunk key and index inside the chunk are in range.
proof fn lemma_world_index_bounds(x: int, y: int, z: int)
    ensures
        0 <= world_index(x, y, z) < CHUNK_VOLUME,
        0 <= world_chunk_pos(x, z).x < 16,
        0 <= world_chunk_pos(x, z).z < 16,
{
    vstd::arithmetic::div_mod::lemma_mod_bound(x, 256);
    vstd::arithmetic::div_mod::lemma_mod_bound(z, 256);
    vstd::arithmetic::div_mod::lemma_mod_bound(y, 64);
}

/// `a + 16 c + 256 b` determines `a` and `c` below 16 and `b`.
proof fn lemma_index_unique(a: int, b: int, c: int, a2: int, b2: int, c2: int)
    requires
        0 <= a < 16,
        0 <= c < 16,
        0 <= a2 < 16,
        0 <= c2 < 16,
        cell_index(a, b, c) == cell_index(a2, b2, c2),
    ensures
        a == a2,
        b == b2,
        c == c2,
{
    let i = cell_index(a, b, c);
    vstd::arithmetic::div_mod::lemma_fundamental_div_mod_converse(i, 256, b, a + c * 16);
    vstd::arithmetic::div_mod::lemma_fundamental_div_mod_converse(i, 256, b2, a2 + c2 * 16);
    vstd::arithmetic::div_mod::lemma_fundamental_div_mod_converse(a + c * 16, 16, c, a);
    vstd::arithmetic::div_mod::lemma_fundamental_div_mod_converse(a2 + c2 * 16, 16, c2, a2);
}

/// A coordinate in `[0, 256)` is determined by its quotient and remainder by 16.
proof fn lemma_split_unique(w: int, w2: int)
    requires
        0 <= w < 256,
        0 <= w2 < 256,
        w / 16 == w2 / 16,
        w % 16 == w2 % 16,
    ensures
        w == w2,
{
    vstd::arithmetic::div_mod::lemma_fundamental_div_mod(w, 16);
    vstd::arithmetic::div_mod::lemma_fundamental_div_mod(w2, 16);
}

/// Two coordinate triples with the same chunk key and the same index inside the
/// chunk name the same world cell.
proof fn lemma_world_cell_determined(x: int, y: int, z: int, x2: int, y2: int, z2: int)
    requires
        world_key(x, z) == world_key(x2, z2),
        world_index(x, y, z) == world_index(x2, y2, z2),
    ensures
        same_world_cell(x, y, z, x2, y2, z2),
{
    lemma_world_index_bounds(x, y, z);
    lemma_world_index_bounds(x2, y2, z2);
    let p = world_chunk_pos(x, z);
    let p2 = world_chunk_pos(x2, z2);
    crate::voxel::chunk::lemma_key_roundtrip(p.x, p.z);
    crate::voxel::chunk::lemma_key_roundtrip(p2.x, p2.z);
    assert(p.x == p2.x && p.z == p2.z);
    let wx = wrap_spec(x, 256);
    let wz = wrap_spec(z, 256);
    let wx2 = wrap_spec(x2, 256);
    let wz2 = wrap_spec(z2, 256);
    vstd::arithmetic::div_mod::lemma_mod_bound(x, 256);
    vstd::arithmetic::div_mod::lemma_mod_bound(z, 256);
    vstd::arithmetic::div_mod::lemma_mod_bound(x2, 256);
    vstd::arithmetic::div_mod::lemma_mod_bound(z2, 256);
    vstd::arithmetic::div_mod::lemma_mod_bound(wx, 16);
    vstd::arithmetic::div_mod::lemma_mod_bound(wz, 16);
    vstd::arithmetic::div_mod::lemma_mod_bound(wx2, 16);
    vstd::arithmetic::div_mod::lemma_mod_bound(wz2, 16);
    assert(wx / 16 == wx2 / 16 && wz / 16 == wz2 / 16);
    lemma_index_unique(wx % 16, wrap_spec(y, 64), wz % 16, wx2 % 16, wrap_spec(y2, 64), wz2 % 16);
    lemma_split_unique(wx, wx2);
    lemma_split_unique(wz, wz2);
}

/// The world is a torus on X and Z with period 256 cells, and repeats every 64
/// cells on Y: shifting a coordinate by whole periods reads the same cell.
pub proof fn lemma_cell_at_periodic(m: Map<u64, Chunk>, x: int, y: int, z: int, kx: int, ky: int, kz: int)
    ensures
        cell_at(m, x + 256 * kx, y + 64 * ky, z + 256 * kz) == cell_at(m, x, y, z),
        same_world_cell(x, y, z, x + 256 * kx, y + 64 * ky, z + 256 * kz),
{
    crate::utils::torus_math::lemma_wrap_periodic(x, 256, kx);
    crate::utils::torus_math::lemma_wrap_periodic(y, 64, ky);
    crate::utils::torus_math::lemma_wrap_periodic(z, 256, kz);
    assert(x + kx * 256 == x + 256 * kx) by (nonlinear_arith);
    assert(y + ky * 64 == y + 64 * ky) by (nonlinear_arith);
    assert(z + kz * 256 == z + 256 * kz) by (nonlinear_arith);
}

/// A read after a write: once world cell `(x, y, z)` has been written with `v`,
/// reading it at any coordinates that name it (shifted by whole periods: 256
/// cells on X and Z, 64 on Y) gives `v`, and reading any other cell gives what
/// it held before.
pub proof fn lemma_get_after_set(
    before: Map<u64, Chunk>,
    after: Map<u64, Chunk>,
    x: int,
    y: int,
    z: int,
    v: ((u8, u8, u8, u8, i16, i16, i16, i16, i16, u8, u8, u8), Seq<u8>),
    x2: int,
    y2: int,
    z2: int,
)
    requires
        writes_cell(before, after, x, y, z, v),
    ensures
        same_world_cell(x, y, z, x2, y2, z2) ==> cell_at(after, x2, y2, z2) == v,
        !same_world_cell(x, y, z, x2, y2, z2) ==> cell_at(after, x2, y2, z2) == cell_at(before, x2, y2, z2),
        forall|kx: int, ky: int, kz: int|
            #[trigger] cell_at(after, x + 256 * kx, y + 64 * ky, z + 256 * kz) == v,
{
    assert(cell_at(after, x2, y2, z2) == if same_world_cell(x, y, z, x2, y2, z2) {
        v
    } else {
        cell_at(before, x2, y2, z2)
    });
    assert forall|kx: int, ky: int, kz: int|
        #[trigger] cell_at(after, x + 256 * kx, y + 64 * ky, z + 256 * kz) == v by {
        lemma_cell_at_periodic(after, x, y, z, kx, ky, kz);
        assert(cell_at(after, x + 256 * kx, y + 64 * ky, z + 256 * kz) == if same_world_cell(
            x, y, z, x + 256 * kx, y + 64 * ky, z + 256 * kz) {
            v
        } else {
            cell_at(before, x + 256 * kx, y + 64 * ky, z + 256 * kz)
        });
    }
}

/// What the world holds at a cell depends only on which world cell it is.
pub proof fn lemma_cell_at_same_cell(m: Map<u64, Chunk>, x: int, y: int, z: int, x2: int, y2: int, z2: int)
    requires
        same_world_cell(x, y, z, x2, y2, z2),
    ensures
        cell_at(m, x, y, z) == cell_at(m, x2, y2, z2),
{
}

} // verus!
