//! Face culling for chunk meshes.
//!
//! A face of a cell is drawn only where the neighbouring cell lets it be seen.
//! Empty cells (air and vacuum) are open space: they get no faces and hide
//! none. Every other cell but water is drawn as a solid block; solid cells show
//! a face toward an empty or water cell, water cells a face toward an empty
//! cell only. Neighbours outside the chunk count as open. Bottom faces are
//! never drawn, and cells are visited in storage order (Y, then Z, then X).
use vstd::prelude::*;
use crate::voxel::cell::{Cell, Material};
use crate::voxel::chunk::{Chunk, CHUNK_SIZE_XZ, CHUNK_SIZE_Y, CHUNK_VOLUME, cell_index};

verus! {

/// Neighbour-mask bit: the east (+X) neighbour is open.
pub const NEIGHBOR_EAST: u8 = 1;
/// Neighbour-mask bit: the west (-X) neighbour is open.
pub const NEIGHBOR_WEST: u8 = 2;
/// Neighbour-mask bit: the south (+Z) neighbour is open.
pub const NEIGHBOR_SOUTH: u8 = 4;
/// Neighbour-mask bit: the north (-Z) neighbour is open.
pub const NEIGHBOR_NORTH: u8 = 8;

/// Side of a cell that a face covers.
#[derive(Debug, Clone, Copy, PartialEq, Eq, Structural)]
pub enum FaceDir {
    /// +Y
    Top,
    /// +X (east)
    Right,
    /// -X (west)
    Left,
    /// +Z (south)
    Front,
    /// -Z (north)
    Back,
}

/// One visible face: the cell it belongs to, its side, and the cell's mask of
/// open side neighbours (zero for water faces).
#[derive(Debug, Clone, Copy, PartialEq, Eq, Structural)]
pub struct Face {
    pub x: usize,
    pub y: usize,
    pub z: usize,
    pub dir: FaceDir,
    pub neighbor_mask: u8,
}

/// Empty space: air or vacuum, as the material code reads (unknown codes read
/// as air).
pub open spec fn is_empty_cell(c: Cell) -> bool {
    Material::from_code(c.material) == Material::Air || Material::from_code(c.material) == Material::Vacuum
}

/// Water.
pub open spec fn is_water_cell(c: Cell) -> bool {
    Material::from_code(c.material) == Material::Water
}

/// `(x, y, z)` lies outside the chunk.
pub open spec fn outside(x: int, y: int, z: int) -> bool {
    !(0 <= x < 16 && 0 <= y < 64 && 0 <= z < 16)
}

/// A solid cell's face toward `(x, y, z)` is visible: that place is outside
/// the chunk, or holds an empty cell or water.
pub open spec fn open_for_solid(cells: Seq<Cell>, x: int, y: int, z: int) -> bool {
    outside(x, y, z) || is_empty_cell(cells[cell_index(x, y, z)]) || is_water_cell(
        cells[cell_index(x, y, z)],
    )
}

/// A water cell's face toward `(x, y, z)` is visible: that place is outside
/// the chunk, or holds an empty cell.
pub open spec fn open_for_water(cells: Seq<Cell>, x: int, y: int, z: int) -> bool {
    outside(x, y, z) || is_empty_cell(cells[cell_index(x, y, z)])
}

/// Coordinates of the cell at flat index `i`.
pub open spec fn coords_of(i: int) -> (int, int, int) {
    (i % 16, i / 256, (i / 16) % 16)
}

/// The faces of the cell at `(x, y, z)` in the order top, right, left, front,
/// back, each present when its flag holds, all carrying `mask`.
pub open spec fn faces_where(
    x: int,
    y: int,
    z: int,
    top: bool,
    right: bool,
    left: bool,
    front: bool,
    back: bool,
    mask: u8,
) -> Seq<Face> {
    let f = |d: FaceDir| Face { x: x as usize, y: y as usize, z: z as usize, dir: d, neighbor_mask: mask };
    (if top { seq![f(FaceDir::Top)] } else { Seq::empty() })
        + (if right { seq![f(FaceDir::Right)] } else { Seq::empty() })
        + (if left { seq![f(FaceDir::Left)] } else { Seq::empty() })
        + (if front { seq![f(FaceDir::Front)] } else { Seq::empty() })
        + (if back { seq![f(FaceDir::Back)] } else { Seq::empty() })
}

/// Mask of open side neighbours: east, west, south, north in bits 0 to 3.
pub open spec fn side_mask(right: bool, left: bool, front: bool, back: bool) -> u8 {
    ((if right { 1int } else { 0 }) + (if left { 2int } else { 0 }) + (if front { 4int } else { 0 })
        + (if back { 8int } else { 0 })) as u8
}

/// Visible faces of the solid cell at flat index `i` (none for an empty or a
/// water cell).
pub open spec fn solid_cell_faces(cells: Seq<Cell>, i: int) -> Seq<Face> {
    let (x, y, z) = coords_of(i);
    let c = cells[i];
    if is_empty_cell(c) || is_water_cell(c) {
        Seq::empty()
    } else {
        let right = open_for_solid(cells, x + 1, y, z);
        let left = open_for_solid(cells, x - 1, y, z);
        let front = open_for_solid(cells, x, y, z + 1);
        let back = open_for_solid(cells, x, y, z - 1);
        faces_where(
            x,
            y,
            z,
            open_for_solid(cells, x, y + 1, z),
            right,
            left,
            front,
            back,
            side_mask(right, left, front, back),
        )
    }
}

/// Visible faces of the water cell at flat index `i` (none for other cells).
pub open spec fn water_cell_faces(cells: Seq<Cell>, i: int) -> Seq<Face> {
    let (x, y, z) = coords_of(i);
    if !is_water_cell(cells[i]) {
        Seq::empty()
    } else {
        faces_where(
            x,
            y,
            z,
            open_for_water(cells, x, y + 1, z),
            open_for_water(cells, x + 1, y, z),
            open_for_water(cells, x - 1, y, z),
            open_for_water(cells, x, y, z + 1),
            open_for_water(cells, x, y, z - 1),
            0,
        )
    }
}

/// Solid faces of the first `n` cells, in storage order.
pub open spec fn solid_faces_upto(cells: Seq<Cell>, n: int) -> Seq<Face>
    decreases n,
{
    if n <= 0 {
        Seq::empty()
    } else {
        solid_faces_upto(cells, n - 1) + solid_cell_faces(cells, n - 1)
    }
}

/// Water faces of the first `n` cells, in storage order.
pub open spec fn water_faces_upto(cells: Seq<Cell>, n: int) -> Seq<Face>
    decreases n,
{
    if n <= 0 {
        Seq::empty()
    } else {
        water_faces_upto(cells, n - 1) + water_cell_faces(cells, n - 1)
    }
}

fn is_open_space(c: &Cell) -> (r: bool)
    ensures
        r == is_empty_cell(*c),
{
    match c.get_material() {
        Material::Air | Material::Vacuum => true,
        _ => false,
    }
}

fn is_water(c: &Cell) -> (r: bool)
    ensures
        r == is_water_cell(*c),
{
    match c.get_material() {
        Material::Water => true,
        _ => false,
    }
}

/// Whether a solid cell's face toward `(x, y, z)` is visible: outside the
/// chunk, or an empty cell (air or vacuum) or water there.
pub fn is_air_or_water(chunk: &Chunk, x: usize, y: usize, z: usize) -> (r: bool)
    requires
        chunk.wf(),
    ensures
        r == open_for_solid(chunk.cells@, x as int, y as int, z as int),
{
    if x >= CHUNK_SIZE_XZ || y >= CHUNK_SIZE_Y || z >= CHUNK_SIZE_XZ {
        return true;
    }
    let cell = chunk.get(x, y, z);
    is_open_space(cell) || is_water(cell)
}

/// Whether a water cell's face toward `(x, y, z)` is visible: outside the
/// chunk, or an empty cell (air or vacuum) there.
pub fn is_air_only(chunk: &Chunk, x: usize, y: usize, z: usize) -> (r: bool)
    requires
        chunk.wf(),
    ensures
        r == open_for_water(chunk.cells@, x as int, y as int, z as int),
{
    if x >= CHUNK_SIZE_XZ || y >= CHUNK_SIZE_Y || z >= CHUNK_SIZE_XZ {
        return true;
    }
    is_open_space(chunk.get(x, y, z))
}

fn push_faces(
    out: &mut Vec<Face>,
    x: usize,
    y: usize,
    z: usize,
    top: bool,
    right: bool,
    left: bool,
    front: bool,
    back: bool,
    mask: u8,
)
    ensures
        final(out)@ == old(out)@ + faces_where(
            x as int,
            y as int,
            z as int,
            top,
            right,
            left,
            front,
            back,
            mask,
        ),
{
    let ghost start = out@;
    if top {
        out.push(Face { x, y, z, dir: FaceDir::Top, neighbor_mask: mask });
    }
    if right {
        out.push(Face { x, y, z, dir: FaceDir::Right, neighbor_mask: mask });
    }
    if left {
        out.push(Face { x, y, z, dir: FaceDir::Left, neighbor_mask: mask });
    }
    if front {
        out.push(Face { x, y, z, dir: FaceDir::Front, neighbor_mask: mask });
    }
    if back {
        out.push(Face { x, y, z, dir: FaceDir::Back, neighbor_mask: mask });
    }
    proof {
        assert(out@ =~= start + faces_where(
            x as int,
            y as int,
            z as int,
            top,
            right,
            left,
            front,
            back,
            mask,
        ));
    }
}

proof fn lemma_coords_of(x: int, y: int, z: int)
    requires
        0 <= x < 16,
        0 <= y < 64,
        0 <= z < 16,
    ensures
        coords_of(cell_index(x, y, z)) == (x, y, z),
        0 <= cell_index(x, y, z) < CHUNK_VOLUME,
{
    let i = cell_index(x, y, z);
    vstd::arithmetic::div_mod::lemma_fundamental_div_mod_converse(i, 256, y, x + z * 16);
    vstd::arithmetic::div_mod::lemma_fundamental_div_mod_converse(i, 16, z + y * 16, x);
    vstd::arithmetic::div_mod::lemma_fundamental_div_mod_converse(i / 16, 16, y, z);
}

/// The visible faces of the solid cells of `chunk`, in storage order: for
/// each cell that is neither empty (air, vacuum) nor water, its top, east, west, south and
/// north faces where the neighbour there is open, each with the cell's mask of
/// open side neighbours.
pub fn solid_mesh_faces(chunk: &Chunk) -> (r: Vec<Face>)
    requires
        chunk.wf(),
    ensures
        r@ == solid_faces_upto(chunk.cells@, CHUNK_VOLUME as int),
{
    let mut out: Vec<Face> = Vec::new();
    let mut y: usize = 0;
    while y < CHUNK_SIZE_Y
        invariant
            chunk.wf(),
            y <= CHUNK_SIZE_Y,
            out@ == solid_faces_upto(chunk.cells@, (y * 256) as int),
        decreases CHUNK_SIZE_Y - y,
    {
        let mut z: usize = 0;
        while z < CHUNK_SIZE_XZ
            invariant
                chunk.wf(),
                y < CHUNK_SIZE_Y,
                z <= CHUNK_SIZE_XZ,
                out@ == solid_faces_upto(chunk.cells@, (y * 256 + z * 16) as int),
            decreases CHUNK_SIZE_XZ - z,
        {
            let mut x: usize = 0;
            while x < CHUNK_SIZE_XZ
                invariant
                    chunk.wf(),
                    y < CHUNK_SIZE_Y,
                    z < CHUNK_SIZE_XZ,
                    x <= CHUNK_SIZE_XZ,
                    out@ == solid_faces_upto(chunk.cells@, (y * 256 + z * 16 + x) as int),
                decreases CHUNK_SIZE_XZ - x,
            {
                proof {
                    lemma_coords_of(x as int, y as int, z as int);
                }
                let cell = chunk.get(x, y, z);
                let ghost i = (y * 256 + z * 16 + x) as int;
                if !(is_open_space(cell) || is_water(cell)) {
                    let top = is_air_or_water(chunk, x, y + 1, z);
                    let right = is_air_or_water(chunk, x + 1, y, z);
                    let left = if x == 0 { true } else { is_air_or_water(chunk, x - 1, y, z) };
                    let front = is_air_or_water(chunk, x, y, z + 1);
                    let back = if z == 0 { true } else { is_air_or_water(chunk, x, y, z - 1) };
                    let mask: u8 = (if right { NEIGHBOR_EAST } else { 0 }) + (if left { NEIGHBOR_WEST } else { 0 })
                        + (if front { NEIGHBOR_SOUTH } else { 0 }) + (if back { NEIGHBOR_NORTH } else { 0 });
                    push_faces(&mut out, x, y, z, top, right, left, front, back, mask);
                }
                proof {
                    assert(solid_faces_upto(chunk.cells@, i + 1) == solid_faces_upto(chunk.cells@, i)
                        + solid_cell_faces(chunk.cells@, i));
                }
                x = x + 1;
            }
            z = z + 1;
        }
        y = y + 1;
    }
    out
}

/// The visible faces of the water cells of `chunk`, in storage order: for each
/// water cell, its top, east, west, south and north faces where the neighbour
/// there is empty, each with a zero mask.
pub fn water_mesh_faces(chunk: &Chunk) -> (r: Vec<Face>)
    requires
        chunk.wf(),
    ensures
        r@ == water_faces_upto(chunk.cells@, CHUNK_VOLUME as int),
{
    let mut out: Vec<Face> = Vec::new();
    let mut y: usize = 0;
    while y < CHUNK_SIZE_Y
        invariant
            chunk.wf(),
            y <= CHUNK_SIZE_Y,
            out@ == water_faces_upto(chunk.cells@, (y * 256) as int),
        decreases CHUNK_SIZE_Y - y,
    {
        let mut z: usize = 0;
        while z < CHUNK_SIZE_XZ
            invariant
                chunk.wf(),
                y < CHUNK_SIZE_Y,
                z <= CHUNK_SIZE_XZ,
                out@ == water_faces_upto(chunk.cells@, (y * 256 + z * 16) as int),
            decreases CHUNK_SIZE_XZ - z,
        {
            let mut x: usize = 0;
            while x < CHUNK_SIZE_XZ
                invariant
                    chunk.wf(),
                    y < CHUNK_SIZE_Y,
                    z < CHUNK_SIZE_XZ,
                    x <= CHUNK_SIZE_XZ,
                    out@ == water_faces_upto(chunk.cells@, (y * 256 + z * 16 + x) as int),
                decreases CHUNK_SIZE_XZ - x,
            {
                proof {
                    lemma_coords_of(x as int, y as int, z as int);
                }
                let cell = chunk.get(x, y, z);
                let ghost i = (y * 256 + z * 16 + x) as int;
                if is_water(cell) {
                    let top = is_air_only(chunk, x, y + 1, z);
                    let right = is_air_only(chunk, x + 1, y, z);
                    let left = if x == 0 { true } else { is_air_only(chunk, x - 1, y, z) };
                    let front = is_air_only(chunk, x, y, z + 1);
                    let back = if z == 0 { true } else { is_air_only(chunk, x, y, z - 1) };
                    push_faces(&mut out, x, y, z, top, right, left, front, back, 0);
                }
                proof {
                    assert(water_faces_upto(chunk.cells@, i + 1) == water_faces_upto(chunk.cells@, i)
                        + water_cell_faces(chunk.cells@, i));
                }
                x = x + 1;
            }
            z = z + 1;
        }
        y = y + 1;
    }
    out
}

/// The cell one step from `(x, y, z)` across the face `d`.
pub open spec fn across(x: int, y: int, z: int, d: FaceDir) -> (int, int, int) {
    match d {
        FaceDir::Top => (x, y + 1, z),
        FaceDir::Right => (x + 1, y, z),
        FaceDir::Left => (x - 1, y, z),
        FaceDir::Front => (x, y, z + 1),
        FaceDir::Back => (x, y, z - 1),
    }
}

/// `p` lies inside the chunk.
pub open spec fn in_chunk(p: (int, int, int)) -> bool {
    0 <= p.0 < 16 && 0 <= p.1 < 64 && 0 <= p.2 < 16
}

/// Material code of the cell at `p` (inside the chunk).
pub open spec fn code_at(cells: Seq<Cell>, p: (int, int, int)) -> u8 {
    cells[p.0 + 16 * p.2 + 256 * p.1].material
}

/// Nothing is drawn at `p` and it hides nothing: `p` is outside the chunk, or
/// its code is air (0), vacuum (1) or unknown (above 13, which reads as air).
pub open spec fn clear_at(cells: Seq<Cell>, p: (int, int, int)) -> bool {
    !in_chunk(p) || code_at(cells, p) == 0 || code_at(cells, p) == 1 || code_at(cells, p) > 13
}

/// `p` is inside the chunk and holds water (code 5).
pub open spec fn water_at(cells: Seq<Cell>, p: (int, int, int)) -> bool {
    in_chunk(p) && code_at(cells, p) == 5
}

/// A solid block's face toward `p` can be seen: `p` is clear or holds water.
pub open spec fn seen_by_solid(cells: Seq<Cell>, p: (int, int, int)) -> bool {
    clear_at(cells, p) || water_at(cells, p)
}

proof fn lemma_add_contains<A>(a: Seq<A>, b: Seq<A>, x: A)
    ensures
        (a + b).contains(x) <==> a.contains(x) || b.contains(x),
{
    if (a + b).contains(x) {
        let i = choose|i: int| 0 <= i < (a + b).len() && (a + b)[i] == x;
        if i < a.len() {
            assert(a[i] == x);
        } else {
            assert(b[i - a.len()] == x);
        }
    }
    if a.contains(x) {
        let i = choose|i: int| 0 <= i < a.len() && a[i] == x;
        assert((a + b)[i] == x);
    }
    if b.contains(x) {
        let i = choose|i: int| 0 <= i < b.len() && b[i] == x;
        assert((a + b)[a.len() + i] == x);
    }
}

proof fn lemma_opt_contains(on: bool, a: Face, x: Face)
    ensures
        (if on { seq![a] } else { Seq::<Face>::empty() }).contains(x) <==> on && a == x,
{
    if on {
        assert(seq![a][0] == a);
    }
}

proof fn lemma_faces_where_contains(
    x: int,
    y: int,
    z: int,
    top: bool,
    right: bool,
    left: bool,
    front: bool,
    back: bool,
    mask: u8,
    f: Face,
)
    requires
        0 <= x < 16,
        0 <= y < 64,
        0 <= z < 16,
    ensures
        faces_where(x, y, z, top, right, left, front, back, mask).contains(f) <==> {
            &&& f.x == x
            &&& f.y == y
            &&& f.z == z
            &&& f.neighbor_mask == mask
            &&& match f.dir {
                FaceDir::Top => top,
                FaceDir::Right => right,
                FaceDir::Left => left,
                FaceDir::Front => front,
                FaceDir::Back => back,
            }
        },
{
    let g = |d: FaceDir| Face { x: x as usize, y: y as usize, z: z as usize, dir: d, neighbor_mask: mask };
    let s1 = if top { seq![g(FaceDir::Top)] } else { Seq::<Face>::empty() };
    let s2 = if right { seq![g(FaceDir::Right)] } else { Seq::<Face>::empty() };
    let s3 = if left { seq![g(FaceDir::Left)] } else { Seq::<Face>::empty() };
    let s4 = if front { seq![g(FaceDir::Front)] } else { Seq::<Face>::empty() };
    let s5 = if back { seq![g(FaceDir::Back)] } else { Seq::<Face>::empty() };
    assert(faces_where(x, y, z, top, right, left, front, back, mask) == s1 + s2 + s3 + s4 + s5);
    lemma_add_contains(s1 + s2 + s3 + s4, s5, f);
    lemma_add_contains(s1 + s2 + s3, s4, f);
    lemma_add_contains(s1 + s2, s3, f);
    lemma_add_contains(s1, s2, f);
    lemma_opt_contains(top, g(FaceDir::Top), f);
    lemma_opt_contains(right, g(FaceDir::Right), f);
    lemma_opt_contains(left, g(FaceDir::Left), f);
    lemma_opt_contains(front, g(FaceDir::Front), f);
    lemma_opt_contains(back, g(FaceDir::Back), f);
}

proof fn lemma_water_upto_contains(cells: Seq<Cell>, n: int, f: Face)
    requires
        0 <= n,
    ensures
        water_faces_upto(cells, n).contains(f) <==> exists|i: int|
            0 <= i < n && #[trigger] water_cell_faces(cells, i).contains(f),
    decreases n,
{
    if n > 0 {
        lemma_water_upto_contains(cells, n - 1, f);
        lemma_add_contains(water_faces_upto(cells, n - 1), water_cell_faces(cells, n - 1), f);
        if exists|i: int| 0 <= i < n && #[trigger] water_cell_faces(cells, i).contains(f) {
            let i = choose|i: int| 0 <= i < n && #[trigger] water_cell_faces(cells, i).contains(f);
            if i < n - 1 {
                assert(exists|j: int| 0 <= j < n - 1 && #[trigger] water_cell_faces(cells, j).contains(f));
            }
        }
    } else {
        assert(!Seq::<Face>::empty().contains(f));
    }
}

proof fn lemma_solid_upto_contains(cells: Seq<Cell>, n: int, f: Face)
    requires
        0 <= n,
    ensures
        solid_faces_upto(cells, n).contains(f) <==> exists|i: int|
            0 <= i < n && #[trigger] solid_cell_faces(cells, i).contains(f),
    decreases n,
{
    if n > 0 {
        lemma_solid_upto_contains(cells, n - 1, f);
        lemma_add_contains(solid_faces_upto(cells, n - 1), solid_cell_faces(cells, n - 1), f);
        if exists|i: int| 0 <= i < n && #[trigger] solid_cell_faces(cells, i).contains(f) {
            let i = choose|i: int| 0 <= i < n && #[trigger] solid_cell_faces(cells, i).contains(f);
            if i < n - 1 {
                assert(exists|j: int| 0 <= j < n - 1 && #[trigger] solid_cell_faces(cells, j).contains(f));
            }
        }
    } else {
        assert(!Seq::<Face>::empty().contains(f));
    }
}

/// Flat indices and coordinates correspond one to one inside the chunk.
proof fn lemma_index_coords(i: int)
    requires
        0 <= i < CHUNK_VOLUME,
    ensures
        0 <= coords_of(i).0 < 16,
        0 <= coords_of(i).1 < 64,
        0 <= coords_of(i).2 < 16,
        cell_index(coords_of(i).0, coords_of(i).1, coords_of(i).2) == i,
{
    vstd::arithmetic::div_mod::lemma_fundamental_div_mod(i, 16);
    vstd::arithmetic::div_mod::lemma_fundamental_div_mod(i / 16, 16);
    vstd::arithmetic::div_mod::lemma_div_denominator(i, 16, 16);
    vstd::arithmetic::div_mod::lemma_mod_bound(i, 16);
    vstd::arithmetic::div_mod::lemma_mod_bound(i / 16, 16);
    vstd::arithmetic::div_mod::lemma_div_is_ordered(i, CHUNK_VOLUME as int - 1, 256);
}

proof fn lemma_open_equiv(cells: Seq<Cell>, x: int, y: int, z: int)
    requires
        cells.len() == CHUNK_VOLUME,
    ensures
        open_for_water(cells, x, y, z) == clear_at(cells, (x, y, z)),
        open_for_solid(cells, x, y, z) == seen_by_solid(cells, (x, y, z)),
{
}

proof fn lemma_cell_kind(c: Cell)
    ensures
        is_water_cell(c) <==> c.material == 5,
        is_empty_cell(c) <==> (c.material == 0 || c.material == 1 || c.material > 13),
{
}

/// The water faces of the cell at `(x, y, z)`, face by face.
proof fn lemma_water_cell_contains(cells: Seq<Cell>, x: int, y: int, z: int, f: Face)
    requires
        cells.len() == CHUNK_VOLUME,
        in_chunk((x, y, z)),
    ensures
        water_cell_faces(cells, cell_index(x, y, z)).contains(f) <==> {
            &&& f.x == x
            &&& f.y == y
            &&& f.z == z
            &&& code_at(cells, (x, y, z)) == 5
            &&& f.neighbor_mask == 0
            &&& clear_at(cells, across(x, y, z, f.dir))
        },
{
    let i = cell_index(x, y, z);
    lemma_coords_of(x, y, z);
    lemma_cell_kind(cells[i]);
    assert(code_at(cells, (x, y, z)) == cells[i].material);
    if is_water_cell(cells[i]) {
        lemma_open_equiv(cells, x, y + 1, z);
        lemma_open_equiv(cells, x + 1, y, z);
        lemma_open_equiv(cells, x - 1, y, z);
        lemma_open_equiv(cells, x, y, z + 1);
        lemma_open_equiv(cells, x, y, z - 1);
        lemma_faces_where_contains(x, y, z,
            open_for_water(cells, x, y + 1, z),
            open_for_water(cells, x + 1, y, z),
            open_for_water(cells, x - 1, y, z),
            open_for_water(cells, x, y, z + 1),
            open_for_water(cells, x, y, z - 1),
            0, f);
    } else {
        assert(!Seq::<Face>::empty().contains(f));
    }
}

/// The solid faces of the cell at `(x, y, z)`, face by face.
proof fn lemma_solid_cell_contains(cells: Seq<Cell>, x: int, y: int, z: int, f: Face)
    requires
        cells.len() == CHUNK_VOLUME,
        in_chunk((x, y, z)),
    ensures
        solid_cell_faces(cells, cell_index(x, y, z)).contains(f) <==> {
            &&& f.x == x
            &&& f.y == y
            &&& f.z == z
            &&& !clear_at(cells, (x, y, z))
            &&& code_at(cells, (x, y, z)) != 5
            &&& seen_by_solid(cells, across(x, y, z, f.dir))
            &&& f.neighbor_mask as int == (if seen_by_solid(cells, (x + 1, y, z)) { 1int } else { 0 })
                + (if seen_by_solid(cells, (x - 1, y, z)) { 2int } else { 0 })
                + (if seen_by_solid(cells, (x, y, z + 1)) { 4int } else { 0 })
                + (if seen_by_solid(cells, (x, y, z - 1)) { 8int } else { 0 })
        },
{
    let i = cell_index(x, y, z);
    lemma_coords_of(x, y, z);
    lemma_cell_kind(cells[i]);
    assert(code_at(cells, (x, y, z)) == cells[i].material);
    if is_empty_cell(cells[i]) || is_water_cell(cells[i]) {
        assert(!Seq::<Face>::empty().contains(f));
    } else {
        lemma_open_equiv(cells, x, y + 1, z);
        lemma_open_equiv(cells, x + 1, y, z);
        lemma_open_equiv(cells, x - 1, y, z);
        lemma_open_equiv(cells, x, y, z + 1);
        lemma_open_equiv(cells, x, y, z - 1);
        let right = open_for_solid(cells, x + 1, y, z);
        let left = open_for_solid(cells, x - 1, y, z);
        let front = open_for_solid(cells, x, y, z + 1);
        let back = open_for_solid(cells, x, y, z - 1);
        lemma_faces_where_contains(x, y, z, open_for_solid(cells, x, y + 1, z), right, left, front,
            back, side_mask(right, left, front, back), f);
    }
}

/// The water mesh, face by face: a face belongs to it exactly when its cell is
/// inside the chunk and holds water, the face carries a zero mask, and the
/// cell across the face is clear (outside the chunk, air, vacuum or an
/// unknown code). In particular two neighbouring water cells show no face to
/// each other, and a water cell shows no face toward a solid block.
pub proof fn lemma_water_faces_exact(cells: Seq<Cell>, f: Face)
    requires
        cells.len() == CHUNK_VOLUME,
    ensures
        water_faces_upto(cells, CHUNK_VOLUME as int).contains(f) <==> {
            &&& in_chunk((f.x as int, f.y as int, f.z as int))
            &&& code_at(cells, (f.x as int, f.y as int, f.z as int)) == 5
            &&& f.neighbor_mask == 0
            &&& clear_at(cells, across(f.x as int, f.y as int, f.z as int, f.dir))
        },
{
    let (x, y, z) = (f.x as int, f.y as int, f.z as int);
    lemma_water_upto_contains(cells, CHUNK_VOLUME as int, f);
    if water_faces_upto(cells, CHUNK_VOLUME as int).contains(f) {
        let i = choose|i: int| 0 <= i < CHUNK_VOLUME && #[trigger] water_cell_faces(cells, i).contains(f);
        lemma_index_coords(i);
        let (a, b, c) = coords_of(i);
        lemma_water_cell_contains(cells, a, b, c, f);
    }
    if in_chunk((x, y, z)) {
        lemma_water_cell_contains(cells, x, y, z, f);
        lemma_coords_of(x, y, z);
    }
}

/// The solid mesh, face by face: a face belongs to it exactly when its cell is
/// inside the chunk and holds neither a clear code nor water, the cell across
/// the face is clear or water (so a block always shows its face toward
/// water), and the face's mask has bit 0, 1, 2, 3 set exactly when the east,
/// west, south, north neighbour is clear or water.
pub proof fn lemma_solid_faces_exact(cells: Seq<Cell>, f: Face)
    requires
        cells.len() == CHUNK_VOLUME,
    ensures
        solid_faces_upto(cells, CHUNK_VOLUME as int).contains(f) <==> {
            let (x, y, z) = (f.x as int, f.y as int, f.z as int);
            &&& in_chunk((x, y, z))
            &&& !clear_at(cells, (x, y, z))
            &&& code_at(cells, (x, y, z)) != 5
            &&& seen_by_solid(cells, across(x, y, z, f.dir))
            &&& f.neighbor_mask as int == (if seen_by_solid(cells, (x + 1, y, z)) { 1int } else { 0 })
                + (if seen_by_solid(cells, (x - 1, y, z)) { 2int } else { 0 })
                + (if seen_by_solid(cells, (x, y, z + 1)) { 4int } else { 0 })
                + (if seen_by_solid(cells, (x, y, z - 1)) { 8int } else { 0 })
        },
{
    let (x, y, z) = (f.x as int, f.y as int, f.z as int);
    lemma_solid_upto_contains(cells, CHUNK_VOLUME as int, f);
    if solid_faces_upto(cells, CHUNK_VOLUME as int).contains(f) {
        let i = choose|i: int| 0 <= i < CHUNK_VOLUME && #[trigger] solid_cell_faces(cells, i).contains(f);
        lemma_index_coords(i);
        let (a, b, c) = coords_of(i);
        lemma_solid_cell_contains(cells, a, b, c, f);
    }
    if in_chunk((x, y, z)) {
        lemma_solid_cell_contains(cells, x, y, z, f);
        lemma_coords_of(x, y, z);
    }
}

} // verus!
