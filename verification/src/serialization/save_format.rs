//! The save format.
//!
//! A save file is the encoded header in a length-prefixed frame, the number of
//! chunks, one frame per chunk, and a footer: the CRC-32 of everything before
//! it. Every length, count and checksum is a little-endian `u32`. A chunk's
//! cells travel as 48 bytes each, in field order, multi-byte fields
//! little-endian.
use vstd::prelude::*;
use crate::voxel::cell::Cell;
use crate::serialization::checksum::{crc32, crc32_prefix, crc32_of};
use crate::voxel::chunk::{Chunk, ChunkPos, CHUNK_SIZE_XZ, CHUNK_SIZE_Y, CHUNK_VOLUME, stats_describe};

verus! {

/// Number of bytes one cell takes in a serialized chunk.
pub const CELL_BYTES: usize = 48;

/// Little-endian bytes of an `i16`, as its two's complement bit pattern.
pub open spec fn i16_le(v: i16) -> Seq<u8> {
    seq![(v as u16 % 256) as u8, (v as u16 / 256) as u8]
}

/// The 48 bytes of a cell: the byte fields and the little-endian `i16`
/// fields in declaration order, then the reserved bytes.
pub open spec fn cell_bytes(c: Cell) -> Seq<u8> {
    seq![c.material, c.flags, c.excell_liquid, c.fluid_depth]
        + i16_le(c.temperature)
        + i16_le(c.pressure)
        + i16_le(c.velocity_x)
        + i16_le(c.velocity_y)
        + i16_le(c.velocity_z)
        + seq![c.density, c.heat_capacity, c.phase_state]
        + c.reserved()
}

/// The bytes of a sequence of cells, one after another.
pub open spec fn cells_bytes(cells: Seq<Cell>) -> Seq<u8>
    decreases cells.len(),
{
    if cells.len() == 0 {
        Seq::empty()
    } else {
        cells_bytes(cells.drop_last()) + cell_bytes(cells.last())
    }
}

proof fn lemma_i16_le_roundtrip(lo: u8, hi: u8)
    ensures
        i16_le(((hi as u16) << 8u16 | lo as u16) as i16) == seq![lo, hi],
{
    let v = ((hi as u16) << 8u16 | lo as u16) as i16;
    assert((v as u16 % 256) as u8 == lo && (v as u16 / 256) as u8 == hi) by (bit_vector)
        requires v == ((hi as u16) << 8u16 | lo as u16) as i16;
    assert(i16_le(v) =~= seq![lo, hi]);
}

proof fn lemma_i16_le_injective(a: i16, b: i16)
    requires
        i16_le(a) == i16_le(b),
    ensures
        a == b,
{
    assert(i16_le(a)[0] == i16_le(b)[0] && i16_le(a)[1] == i16_le(b)[1]);
    assert(((a as u16 % 256) as u8 == (b as u16 % 256) as u8 && (a as u16 / 256) as u8 == (b as u16
        / 256) as u8) ==> a == b) by (bit_vector);
}

fn push_i16_le(out: &mut Vec<u8>, v: i16)
    ensures
        final(out)@ == old(out)@ + i16_le(v),
{
    let bits = v as u16;
    out.push((bits % 256) as u8);
    out.push((bits / 256) as u8);
    proof {
        assert(final(out)@ =~= old(out)@ + i16_le(v));
    }
}

/// Appends the 48 bytes of `c` to `out`.
fn push_cell_bytes(out: &mut Vec<u8>, c: &Cell)
    ensures
        final(out)@ == old(out)@ + cell_bytes(*c),
{
    let ghost start = out@;
    out.push(c.material);
    out.push(c.flags);
    out.push(c.excell_liquid);
    out.push(c.fluid_depth);
    push_i16_le(out, c.temperature);
    push_i16_le(out, c.pressure);
    push_i16_le(out, c.velocity_x);
    push_i16_le(out, c.velocity_y);
    push_i16_le(out, c.velocity_z);
    out.push(c.density);
    out.push(c.heat_capacity);
    out.push(c.phase_state);
    let ghost mid = out@;
    let mut i: usize = 0;
    while i < 31
        invariant
            0 <= i <= 31,
            out@ == mid + c.reserved().take(i as int),
        decreases 31 - i,
    {
        out.push(c._padding[i]);
        proof {
            assert(c.reserved().take(i + 1) =~= c.reserved().take(i as int).push(c._padding[i as int]));
        }
        i = i + 1;
    }
    proof {
        assert(c.reserved().take(31) =~= c.reserved());
        assert(out@ =~= start + cell_bytes(*c));
    }
}

fn read_i16_le(bytes: &Vec<u8>, at: usize) -> (r: i16)
    requires
        at + 2 <= bytes.len(),
    ensures
        i16_le(r) == bytes@.subrange(at as int, at + 2),
{
    let lo = bytes[at];
    let hi = bytes[at + 1];
    proof {
        lemma_i16_le_roundtrip(lo, hi);
        assert(bytes@.subrange(at as int, at + 2) =~= seq![lo, hi]);
    }
    ((hi as u16) << 8u16 | lo as u16) as i16
}

/// Decodes the cell whose 48 bytes start at `at`.
fn read_cell(bytes: &Vec<u8>, at: usize) -> (r: Cell)
    requires
        at + 48 <= bytes.len(),
    ensures
        cell_bytes(r) == bytes@.subrange(at as int, at + 48),
{
    let mut padding = [0u8; 31];
    let mut i: usize = 0;
    while i < 31
        invariant
            0 <= i <= 31,
            at + 48 <= bytes.len(),
            forall|j: int| 0 <= j < i ==> padding@[j] == bytes@[at + 17 + j],
        decreases 31 - i,
    {
        padding[i] = bytes[at + 17 + i];
        i = i + 1;
    }
    let r = Cell {
        material: bytes[at],
        flags: bytes[at + 1],
        excell_liquid: bytes[at + 2],
        fluid_depth: bytes[at + 3],
        temperature: read_i16_le(bytes, at + 4),
        pressure: read_i16_le(bytes, at + 6),
        velocity_x: read_i16_le(bytes, at + 8),
        velocity_y: read_i16_le(bytes, at + 10),
        velocity_z: read_i16_le(bytes, at + 12),
        density: bytes[at + 14],
        heat_capacity: bytes[at + 15],
        phase_state: bytes[at + 16],
        _padding: padding,
    };
    proof {
        let s = bytes@.subrange(at as int, at + 48);
        assert(s.subrange(4, 6) =~= bytes@.subrange(at + 4, at + 6));
        assert(s.subrange(6, 8) =~= bytes@.subrange(at + 6, at + 8));
        assert(s.subrange(8, 10) =~= bytes@.subrange(at + 8, at + 10));
        assert(s.subrange(10, 12) =~= bytes@.subrange(at + 10, at + 12));
        assert(s.subrange(12, 14) =~= bytes@.subrange(at + 12, at + 14));
        assert(cell_bytes(r) =~= s);
    }
    r
}

proof fn lemma_cells_bytes_len(cells: Seq<Cell>)
    ensures
        cells_bytes(cells).len() == 48 * cells.len(),
    decreases cells.len(),
{
    if cells.len() > 0 {
        lemma_cells_bytes_len(cells.drop_last());
    }
}

proof fn lemma_cells_bytes_push(cells: Seq<Cell>, c: Cell)
    ensures
        cells_bytes(cells.push(c)) == cells_bytes(cells) + cell_bytes(c),
{
    assert(cells.push(c).drop_last() =~= cells);
}

/// Two cells with the same bytes are the same cell.
pub proof fn lemma_cell_bytes_injective(c: Cell, d: Cell)
    requires
        cell_bytes(c) == cell_bytes(d),
    ensures
        c == d,
{
    let bc = cell_bytes(c);
    let bd = cell_bytes(d);
    assert(bc.len() == 48);
    assert(forall|i: int| 0 <= i < 48 ==> bc[i] == bd[i]);
    assert(bc[0] == c.material && bd[0] == d.material);
    assert(bc[1] == c.flags && bc[2] == c.excell_liquid && bc[3] == c.fluid_depth);
    assert(bd[1] == d.flags && bd[2] == d.excell_liquid && bd[3] == d.fluid_depth);
    assert(bc.subrange(4, 6) =~= i16_le(c.temperature));
    assert(bd.subrange(4, 6) =~= i16_le(d.temperature));
    assert(bc.subrange(6, 8) =~= i16_le(c.pressure));
    assert(bd.subrange(6, 8) =~= i16_le(d.pressure));
    assert(bc.subrange(8, 10) =~= i16_le(c.velocity_x));
    assert(bd.subrange(8, 10) =~= i16_le(d.velocity_x));
    assert(bc.subrange(10, 12) =~= i16_le(c.velocity_y));
    assert(bd.subrange(10, 12) =~= i16_le(d.velocity_y));
    assert(bc.subrange(12, 14) =~= i16_le(c.velocity_z));
    assert(bd.subrange(12, 14) =~= i16_le(d.velocity_z));
    lemma_i16_le_injective(c.temperature, d.temperature);
    lemma_i16_le_injective(c.pressure, d.pressure);
    lemma_i16_le_injective(c.velocity_x, d.velocity_x);
    lemma_i16_le_injective(c.velocity_y, d.velocity_y);
    lemma_i16_le_injective(c.velocity_z, d.velocity_z);
    assert(bc[14] == c.density && bd[14] == d.density);
    assert(bc[15] == c.heat_capacity && bd[15] == d.heat_capacity);
    assert(bc[16] == c.phase_state && bd[16] == d.phase_state);
    assert forall|i: int| 0 <= i < 31 implies c._padding[i] == d._padding[i] by {
        assert(bc[17 + i] == c.reserved()[i]);
        assert(bd[17 + i] == d.reserved()[i]);
    }
    assert(c._padding =~= d._padding);
}

proof fn lemma_i16_le_bytes(v: i16)
    ensures
        i16_le(v)[0] == (v as u16 & 0xff) as u8,
        i16_le(v)[1] == (v as u16 >> 8u16) as u8,
{
    assert(((v as u16) % 256) as u8 == ((v as u16) & 0xff) as u8
        && ((v as u16) / 256) as u8 == ((v as u16) >> 8u16) as u8) by (bit_vector);
}

/// The record of cell `i` is the 48 bytes at `48 * i`.
proof fn lemma_cells_bytes_record(cells: Seq<Cell>, i: int)
    requires
        0 <= i < cells.len(),
    ensures
        cells_bytes(cells).len() == 48 * cells.len(),
        cells_bytes(cells).subrange(48 * i, 48 * i + 48) == cell_bytes(cells[i]),
    decreases cells.len(),
{
    lemma_cells_bytes_len(cells);
    let init = cells.drop_last();
    lemma_cells_bytes_len(init);
    let n: int = 48 * (init.len() as int);
    if i == cells.len() - 1 {
        assert(cells_bytes(cells).subrange(n, n + 48) =~= cell_bytes(cells.last()));
    } else {
        lemma_cells_bytes_record(init, i);
        assert(cells_bytes(cells).subrange(48 * i, 48 * i + 48) =~= cells_bytes(init).subrange(
            48 * i,
            48 * i + 48,
        ));
    }
}

/// The layout of a serialized chunk: cell `i` takes the 48 bytes from
/// `48 * i`, which hold, in the order the fields are declared, the material,
/// flags, liquid amount and depth (one byte each), temperature, pressure and
/// the three velocity components (two bytes each, low byte first, as the
/// two's complement bits), density at offset 14, heat capacity at 15, phase
/// at 16, and the 31 reserved bytes from 17.
pub proof fn lemma_cell_record_layout(cells: Seq<Cell>, i: int)
    requires
        0 <= i < cells.len(),
    ensures
        ({
            let b = cells_bytes(cells);
            let o = 48 * i;
            let c = cells[i];
            &&& b.len() == 48 * cells.len()
            &&& b[o] == c.material
            &&& b[o + 1] == c.flags
            &&& b[o + 2] == c.excell_liquid
            &&& b[o + 3] == c.fluid_depth
            &&& b[o + 4] == (c.temperature as u16 & 0xff) as u8
            &&& b[o + 5] == (c.temperature as u16 >> 8u16) as u8
            &&& b[o + 6] == (c.pressure as u16 & 0xff) as u8
            &&& b[o + 7] == (c.pressure as u16 >> 8u16) as u8
            &&& b[o + 8] == (c.velocity_x as u16 & 0xff) as u8
            &&& b[o + 9] == (c.velocity_x as u16 >> 8u16) as u8
            &&& b[o + 10] == (c.velocity_y as u16 & 0xff) as u8
            &&& b[o + 11] == (c.velocity_y as u16 >> 8u16) as u8
            &&& b[o + 12] == (c.velocity_z as u16 & 0xff) as u8
            &&& b[o + 13] == (c.velocity_z as u16 >> 8u16) as u8
            &&& b[o + 14] == c.density
            &&& b[o + 15] == c.heat_capacity
            &&& b[o + 16] == c.phase_state
            &&& forall|j: int| 0 <= j < 31 ==> b[o + 17 + j] == c._padding[j]
        }),
{
    lemma_cells_bytes_record(cells, i);
    let b = cells_bytes(cells);
    let o = 48 * i;
    let c = cells[i];
    let r = cell_bytes(c);
    assert forall|k: int| 0 <= k < 48 implies b[o + k] == r[k] by {
        assert(b.subrange(o, o + 48)[k] == b[o + k]);
    }
    lemma_i16_le_bytes(c.temperature);
    lemma_i16_le_bytes(c.pressure);
    lemma_i16_le_bytes(c.velocity_x);
    lemma_i16_le_bytes(c.velocity_y);
    lemma_i16_le_bytes(c.velocity_z);
    assert(r.len() == 48);
    assert(r[0] == c.material && r[1] == c.flags && r[2] == c.excell_liquid && r[3] == c.fluid_depth);
    assert(r.subrange(4, 6) =~= i16_le(c.temperature));
    assert(r.subrange(6, 8) =~= i16_le(c.pressure));
    assert(r.subrange(8, 10) =~= i16_le(c.velocity_x));
    assert(r.subrange(10, 12) =~= i16_le(c.velocity_y));
    assert(r.subrange(12, 14) =~= i16_le(c.velocity_z));
    assert(r[4] == r.subrange(4, 6)[0] && r[5] == r.subrange(4, 6)[1]);
    assert(r[6] == r.subrange(6, 8)[0] && r[7] == r.subrange(6, 8)[1]);
    assert(r[8] == r.subrange(8, 10)[0] && r[9] == r.subrange(8, 10)[1]);
    assert(r[10] == r.subrange(10, 12)[0] && r[11] == r.subrange(10, 12)[1]);
    assert(r[12] == r.subrange(12, 14)[0] && r[13] == r.subrange(12, 14)[1]);
    assert(r[14] == c.density && r[15] == c.heat_capacity && r[16] == c.phase_state);
    assert forall|j: int| 0 <= j < 31 implies b[o + 17 + j] == c._padding[j] by {
        assert(b[o + 17 + j] == r[17 + j]);
        assert(r[17 + j] == c.reserved()[j]);
    }
}

/// Two equally long cell sequences with the same bytes are the same sequence.
pub proof fn lemma_cells_bytes_injective(a: Seq<Cell>, b: Seq<Cell>)
    requires
        a.len() == b.len(),
        cells_bytes(a) == cells_bytes(b),
    ensures
        a == b,
    decreases a.len(),
{
    if a.len() > 0 {
        lemma_cells_bytes_len(a.drop_last());
        lemma_cells_bytes_len(b.drop_last());
        let n = 48 * (a.len() - 1);
        assert(cells_bytes(a).subrange(0, n) =~= cells_bytes(a.drop_last()));
        assert(cells_bytes(b).subrange(0, n) =~= cells_bytes(b.drop_last()));
        assert(cells_bytes(a).subrange(n, n + 48) =~= cell_bytes(a.last()));
        assert(cells_bytes(b).subrange(n, n + 48) =~= cell_bytes(b.last()));
        lemma_cells_bytes_injective(a.drop_last(), b.drop_last());
        lemma_cell_bytes_injective(a.last(), b.last());
        assert(a =~= a.drop_last().push(a.last()));
        assert(b =~= b.drop_last().push(b.last()));
    }
}

/// `std::io::Error`, carried opaquely in `SaveError::IoError`.
#[verifier::external_type_specification]
#[verifier::external_body]
pub struct ExIoError(std::io::Error);

/// `bincode::ErrorKind`, carried opaquely in `SaveError::BincodeError`.
#[verifier::external_type_specification]
#[verifier::external_body]
pub struct ExBincodeErrorKind(bincode::ErrorKind);

/// `std::path::PathBuf`, carried opaquely in `SaveError::FileNotFound`.
#[verifier::external_type_specification]
#[verifier::external_body]
pub struct ExPathBuf(std::path::PathBuf);

/// Errors of saving and loading.
#[derive(Debug)]
pub enum SaveError {
    IoError(std::io::Error),
    BincodeError(Box<bincode::ErrorKind>),
    InvalidMagic,
    VersionMismatch(u32),
    InvalidChunkSize(usize),
    ChecksumMismatch,
    FileNotFound(std::path::PathBuf),
}

impl From<std::io::Error> for SaveError {
    fn from(e: std::io::Error) -> (r: Self) {
        SaveError::IoError(e)
    }
}

impl vstd::std_specs::convert::FromSpecImpl<std::io::Error> for SaveError {
    open spec fn obeys_from_spec() -> bool {
        true
    }

    open spec fn from_spec(e: std::io::Error) -> Self {
        SaveError::IoError(e)
    }
}

impl From<Box<bincode::ErrorKind>> for SaveError {
    fn from(e: Box<bincode::ErrorKind>) -> (r: Self) {
        SaveError::BincodeError(e)
    }
}

impl vstd::std_specs::convert::FromSpecImpl<Box<bincode::ErrorKind>> for SaveError {
    open spec fn obeys_from_spec() -> bool {
        true
    }

    open spec fn from_spec(e: Box<bincode::ErrorKind>) -> Self {
        SaveError::BincodeError(e)
    }
}

/// The decimal digit `d`.
pub open spec fn digit_char(d: nat) -> char {
    if d == 0 { '0' } else if d == 1 { '1' } else if d == 2 { '2' } else if d == 3 { '3' }
    else if d == 4 { '4' } else if d == 5 { '5' } else if d == 6 { '6' } else if d == 7 { '7' }
    else if d == 8 { '8' } else { '9' }
}

/// The decimal digits of `n`, most significant first, with no leading zero
/// (`0` for zero).
pub open spec fn decimal(n: nat) -> Seq<char>
    decreases n,
{
    if n < 10 {
        seq![digit_char(n)]
    } else {
        decimal(n / 10).push(digit_char(n % 10))
    }
}

fn digit_str(d: u64) -> (r: &'static str)
    requires
        d < 10,
    ensures
        r@ == seq![digit_char(d as nat)],
{
    proof {
        reveal_strlit("0");
        reveal_strlit("1");
        reveal_strlit("2");
        reveal_strlit("3");
        reveal_strlit("4");
        reveal_strlit("5");
        reveal_strlit("6");
        reveal_strlit("7");
        reveal_strlit("8");
        reveal_strlit("9");
    }
    match d {
        0 => "0",
        1 => "1",
        2 => "2",
        3 => "3",
        4 => "4",
        5 => "5",
        6 => "6",
        7 => "7",
        8 => "8",
        _ => "9",
    }
}

/// Appends the decimal digits of `n` to `out`.
fn push_decimal(out: &mut String, n: u64)
    ensures
        final(out)@ == old(out)@ + decimal(n as nat),
    decreases n,
{
    if n >= 10 {
        push_decimal(out, n / 10);
    }
    out.append(digit_str(n % 10));
    proof {
        if n >= 10 {
            assert(final(out)@ =~= old(out)@ + decimal(n as nat));
        } else {
            assert(final(out)@ =~= old(out)@ + decimal(n as nat));
        }
    }
}

/// `"{:?}"` of a path, made by `format!`. Nothing is claimed of the text,
/// since the path is opaque here.
#[verifier::external_body]
fn path_debug_text(p: &std::path::PathBuf) -> String {
    format!("{:?}", p)
}

impl SaveError {
    /// The error as text for display: a fixed message per kind, followed by
    /// the version or size in decimal, or by the text of the carried I/O error,
    /// bincode error or path.
    pub fn to_string(&self) -> (r: String)
        ensures
            match self {
                SaveError::IoError(_) => exists|t: Seq<char>| r@ == "IO error: "@ + t,
                SaveError::BincodeError(_) => exists|t: Seq<char>| r@ == "Bincode error: "@ + t,
                SaveError::InvalidMagic => r@ == "Invalid save file magic number"@,
                SaveError::VersionMismatch(v) => r@ == "Unsupported save format version: "@ + decimal(*v as nat),
                SaveError::InvalidChunkSize(n) => r@ == "Invalid chunk size: "@ + decimal(*n as nat),
                SaveError::ChecksumMismatch => r@ == "Save file checksum mismatch"@,
                SaveError::FileNotFound(_) => exists|t: Seq<char>| r@ == "Save file not found: "@ + t,
            },
    {
        match self {
            SaveError::IoError(e) => {
                let mut out = String::from_str("IO error: ");
                let text = e.to_string();
                out.append(text.as_str());
                out
            },
            SaveError::BincodeError(e) => {
                let mut out = String::from_str("Bincode error: ");
                let text = e.to_string();
                out.append(text.as_str());
                out
            },
            SaveError::InvalidMagic => String::from_str("Invalid save file magic number"),
            SaveError::VersionMismatch(v) => {
                let mut out = String::from_str("Unsupported save format version: ");
                push_decimal(&mut out, *v as u64);
                out
            },
            SaveError::InvalidChunkSize(n) => {
                let mut out = String::from_str("Invalid chunk size: ");
                push_decimal(&mut out, *n as u64);
                out
            },
            SaveError::ChecksumMismatch => String::from_str("Save file checksum mismatch"),
            SaveError::FileNotFound(p) => {
                let mut out = String::from_str("Save file not found: ");
                let text = path_debug_text(p);
                out.append(text.as_str());
                out
            },
        }
    }
}

/// Byte length of a serialized chunk: 48 bytes for each of its cells.
pub open spec fn serialized_chunk_len() -> int {
    CHUNK_VOLUME * 48
}

/// A chunk in its stored form: its position and the raw bytes of its cells.
pub struct SerializedChunk {
    pub pos_x: i32,
    pub pos_z: i32,
    pub cells: Vec<u8>,
}

impl SerializedChunk {
    /// The stored form of `chunk`: its position and the bytes of its cells.
    pub fn from_chunk(chunk: &Chunk) -> (r: SerializedChunk)
        ensures
            r.pos_x == chunk.pos.x,
            r.pos_z == chunk.pos.z,
            r.cells@ == cells_bytes(chunk.cells@),
            r.cells@.len() == 48 * chunk.cells@.len(),
            chunk.wf() ==> r.cells@.len() == serialized_chunk_len(),
    {
        let cells = chunk.cells();
        let mut out: Vec<u8> = Vec::with_capacity(CHUNK_VOLUME * CELL_BYTES);
        let mut i: usize = 0;
        while i < cells.len()
            invariant
                cells@ == chunk.cells@,
                0 <= i <= cells@.len(),
                out@ == cells_bytes(cells@.take(i as int)),
            decreases cells@.len() - i,
        {
            push_cell_bytes(&mut out, &cells[i]);
            proof {
                assert(cells@.take(i + 1) =~= cells@.take(i as int).push(cells@[i as int]));
                lemma_cells_bytes_push(cells@.take(i as int), cells@[i as int]);
            }
            i = i + 1;
        }
        proof {
            assert(cells@.take(cells@.len() as int) =~= cells@);
            lemma_cells_bytes_len(cells@);
        }
        SerializedChunk { pos_x: chunk.pos.x, pos_z: chunk.pos.z, cells: out }
    }

    /// Rebuilds the chunk: fails with `InvalidChunkSize` unless the bytes
    /// hold exactly one chunk's cells; otherwise the chunk at the stored
    /// position whose cells have exactly these bytes, marked dirty, with its
    /// statistics computed.
    pub fn to_chunk(&self) -> (r: Result<Chunk, SaveError>)
        ensures
            self.cells@.len() != serialized_chunk_len() ==> (r matches Err(SaveError::InvalidChunkSize(n))
                && n == self.cells@.len()),
            self.cells@.len() == serialized_chunk_len() ==> (r matches Ok(c) && {
                &&& c.wf()
                &&& c.pos == (ChunkPos { x: self.pos_x, z: self.pos_z })
                &&& cells_bytes(c.cells@) == self.cells@
                &&& c.is_dirty
                &&& c.stats_exact()
            }),
    {
        if self.cells.len() != CHUNK_SIZE_XZ * CHUNK_SIZE_XZ * CHUNK_SIZE_Y * CELL_BYTES {
            return Err(SaveError::InvalidChunkSize(self.cells.len()));
        }
        let pos = ChunkPos::new(self.pos_x, self.pos_z);
        let mut cells: Vec<Cell> = Vec::with_capacity(CHUNK_VOLUME);
        let mut i: usize = 0;
        while i < CHUNK_VOLUME
            invariant
                self.cells@.len() == serialized_chunk_len(),
                0 <= i <= CHUNK_VOLUME,
                cells@.len() == i,
                cells_bytes(cells@) == self.cells@.subrange(0, 48 * i),
            decreases CHUNK_VOLUME - i,
        {
            let c = read_cell(&self.cells, i * CELL_BYTES);
            proof {
                lemma_cells_bytes_push(cells@, c);
                assert(self.cells@.subrange(0, 48 * (i + 1)) =~= self.cells@.subrange(0, 48 * i)
                    + self.cells@.subrange(48 * i, 48 * i + 48));
            }
            cells.push(c);
            i = i + 1;
        }
        proof {
            assert(self.cells@.subrange(0, 48 * CHUNK_VOLUME) =~= self.cells@);
        }
        Ok(Chunk::from_cells(pos, cells))
    }
}

/// Storing a chunk and rebuilding it gives back its position and its cells.
pub proof fn lemma_chunk_roundtrip(chunk: Chunk, stored: SerializedChunk, rebuilt: Chunk)
    requires
        chunk.wf(),
        stored.pos_x == chunk.pos.x,
        stored.pos_z == chunk.pos.z,
        stored.cells@ == cells_bytes(chunk.cells@),
        rebuilt.wf(),
        rebuilt.pos == (ChunkPos { x: stored.pos_x, z: stored.pos_z }),
        cells_bytes(rebuilt.cells@) == stored.cells@,
    ensures
        rebuilt.pos == chunk.pos,
        rebuilt.cells@ == chunk.cells@,
{
    lemma_cells_bytes_injective(rebuilt.cells@, chunk.cells@);
}

/// Magic number that opens a save header: "TXLS".
pub const SAVE_MAGIC: [u8; 4] = [84u8, 88u8, 76u8, 83u8];

/// Current version of the save format.
pub const SAVE_FORMAT_VERSION: u32 = 1;

/// Header of a save file.
///
/// The camera position is kept as the bit pattern of an IEEE 754 double
/// (`f64::to_bits`), since this library does no floating-point arithmetic.
#[derive(Debug, Clone)]
pub struct SaveHeader {
    /// Magic number, `SAVE_MAGIC` in a valid header.
    pub magic: [u8; 4],
    /// Version of the save format.
    pub version: u32,
    /// Seed of the world.
    pub seed: u64,
    /// World size in blocks along X and Z (a multiple of the chunk size).
    pub world_size_blocks_xz: u32,
    /// Number of chunks saved.
    pub chunk_count: u32,
    /// Creation time, in seconds since the Unix epoch.
    pub created_at: u64,
    /// Time of the last change, in seconds since the Unix epoch.
    pub modified_at: u64,
    /// Name of the world.
    pub name: String,
    /// Camera X position (world offset), as the bits of an `f64`.
    pub camera_position_x_bits: u64,
    /// Camera Z position (world offset), as the bits of an `f64`.
    pub camera_position_z_bits: u64,
    /// Camera zoom, 0 (closest) to 7 (farthest).
    pub camera_zoom: u8,
    /// Camera rotation in quarter turns, 0 to 3.
    pub camera_rotation: u8,
    /// Reserved bytes.
    pub reserved: [u8; 26],
}

/// The header's magic number is `SAVE_MAGIC`.
pub open spec fn magic_ok(magic: [u8; 4]) -> bool {
    magic@ == seq![84u8, 88u8, 76u8, 83u8]
}

/// The header fields of a new save of world `seed` named `name`, made at time
/// `now`: current magic and version, no chunks, camera at the origin with zoom
/// 3 and no rotation, reserved bytes zero.
pub open spec fn is_new_header(h: SaveHeader, seed: u64, name: Seq<char>, world_size: u32, now: u64) -> bool {
    &&& magic_ok(h.magic)
    &&& h.version == 1
    &&& h.seed == seed
    &&& h.world_size_blocks_xz == world_size
    &&& h.chunk_count == 0
    &&& h.created_at == now
    &&& h.modified_at == now
    &&& h.name@ == name
    &&& h.camera_position_x_bits == 0
    &&& h.camera_position_z_bits == 0
    &&& h.camera_zoom == 3
    &&& h.camera_rotation == 0
    &&& h.reserved@ == Seq::new(26, |i: int| 0u8)
}

/// `std::time::SystemTime`, a reading of the system clock, carried opaquely.
#[verifier::external_type_specification]
#[verifier::external_body]
pub struct ExSystemTime(std::time::SystemTime);

/// `std::time::SystemTimeError`, carried opaquely.
#[verifier::external_type_specification]
#[verifier::external_body]
pub struct ExSystemTimeError(std::time::SystemTimeError);

/// Calls `std::time::SystemTime::now`: the current reading of the system
/// clock. Nothing is claimed of it: it depends on the clock.
#[verifier::external_body]
fn system_time_now() -> std::time::SystemTime {
    std::time::SystemTime::now()
}

/// Calls `SystemTime::duration_since` with `UNIX_EPOCH`: the time from the
/// epoch to `t`, or an error when `t` lies before the epoch. Nothing is claimed
/// of the result, which is opaque here.
#[verifier::external_body]
fn since_unix_epoch(t: &std::time::SystemTime) -> Result<core::time::Duration, std::time::SystemTimeError> {
    t.duration_since(std::time::UNIX_EPOCH)
}

/// Calls `Duration::as_secs`: the whole seconds of `d`. Nothing is claimed of
/// the value, since `d` is opaque here.
#[verifier::external_body]
fn duration_secs(d: &core::time::Duration) -> u64 {
    d.as_secs()
}

/// The time stamp of a new save: the whole seconds since the Unix epoch when
/// the clock reads after the epoch (`Some`), zero when it reads before it
/// (`None`).
pub fn secs_or_zero(since_epoch: Option<u64>) -> (r: u64)
    ensures
        r == match since_epoch {
            Some(s) => s,
            None => 0,
        },
{
    match since_epoch {
        Some(s) => s,
        None => 0,
    }
}

impl SaveHeader {
    /// The magic number is `SAVE_MAGIC`.
    pub fn is_valid(&self) -> (r: bool)
        ensures
            r == magic_ok(self.magic),
    {
        let r = self.magic[0] == SAVE_MAGIC[0] && self.magic[1] == SAVE_MAGIC[1]
            && self.magic[2] == SAVE_MAGIC[2] && self.magic[3] == SAVE_MAGIC[3];
        proof {
            if r {
                assert(self.magic@ =~= seq![84u8, 88u8, 76u8, 83u8]);
            }
        }
        r
    }

    /// The version is not newer than `SAVE_FORMAT_VERSION`.
    pub fn is_version_compatible(&self) -> (r: bool)
        ensures
            r == (self.version <= 1),
    {
        self.version <= SAVE_FORMAT_VERSION
    }

    /// A header for a new save, stamped with time `now` (seconds since the
    /// Unix epoch) for both creation and change.
    pub fn new_at(seed: u64, name: String, world_size_blocks_xz: u32, now: u64) -> (r: SaveHeader)
        ensures
            is_new_header(r, seed, name@, world_size_blocks_xz, now),
    {
        let r = SaveHeader {
            magic: SAVE_MAGIC,
            version: SAVE_FORMAT_VERSION,
            seed,
            world_size_blocks_xz,
            chunk_count: 0,
            created_at: now,
            modified_at: now,
            name,
            camera_position_x_bits: 0,
            camera_position_z_bits: 0,
            camera_zoom: 3,
            camera_rotation: 0,
            reserved: [0u8; 26],
        };
        proof {
            assert(r.magic@ =~= seq![84u8, 88u8, 76u8, 83u8]);
            assert(r.reserved@ =~= Seq::new(26, |i: int| 0u8));
        }
        r
    }

    /// A header for a new save, stamped with the current time in whole
    /// seconds since the Unix epoch (zero when the clock reads earlier than
    /// the epoch): the clock's reading, turned into a time stamp by
    /// `secs_or_zero`, goes to `new_at`.
    pub fn new(seed: u64, name: String, world_size_blocks_xz: u32) -> (r: SaveHeader)
        ensures
            exists|now: u64| is_new_header(r, seed, name@, world_size_blocks_xz, now),
    {
        let clock = system_time_now();
        let since_epoch: Option<u64> = match since_unix_epoch(&clock) {
            Ok(elapsed) => Some(duration_secs(&elapsed)),
            Err(_) => None,
        };
        SaveHeader::new_at(seed, name, world_size_blocks_xz, secs_or_zero(since_epoch))
    }

    /// Records that the save holds `n` chunks: `chunk_count` becomes `n`
    /// truncated to 32 bits, as the chunk count of the file is; every other
    /// field stays.
    pub fn set_chunk_count(&mut self, n: usize)
        ensures
            *final(self) == (SaveHeader { chunk_count: n as u32, ..*old(self) }),
    {
        self.chunk_count = n as u32;
    }

    /// Accepts a header with the right magic number and a version this format
    /// can read; otherwise `InvalidMagic`, or `VersionMismatch` with the
    /// header's version.
    pub fn validate(&self) -> (r: Result<(), SaveError>)
        ensures
            !magic_ok(self.magic) ==> r matches Err(SaveError::InvalidMagic),
            magic_ok(self.magic) && self.version > 1 ==> (r matches Err(SaveError::VersionMismatch(v))
                && v == self.version),
            magic_ok(self.magic) && self.version <= 1 ==> r is Ok,
    {
        if !self.is_valid() {
            return Err(SaveError::InvalidMagic);
        }
        if !self.is_version_compatible() {
            return Err(SaveError::VersionMismatch(self.version));
        }
        Ok(())
    }
}

impl Default for SaveHeader {
    fn default() -> (r: SaveHeader)
        ensures
            is_new_header(r, 0, Seq::empty(), 256, 0),
    {
        SaveHeader::new_at(0, String::new(), 256, 0)
    }
}

/// Little-endian bytes of a `u32`.
pub open spec fn u32_le(x: u32) -> Seq<u8> {
    seq![(x & 0xff) as u8, ((x >> 8u32) & 0xff) as u8, ((x >> 16u32) & 0xff) as u8, ((x >> 24u32) & 0xff) as u8]
}

/// The `u32` whose little-endian bytes are `b0 b1 b2 b3`.
pub open spec fn u32_from_le(b0: u8, b1: u8, b2: u8, b3: u8) -> u32 {
    (b0 as u32) | (b1 as u32) << 8u32 | (b2 as u32) << 16u32 | (b3 as u32) << 24u32
}

/// A frame: the payload's length as a little-endian `u32` (truncated to 32
/// bits), then the payload.
pub open spec fn frame(payload: Seq<u8>) -> Seq<u8> {
    u32_le(payload.len() as u32) + payload
}

/// Frames of all payloads, one after another.
pub open spec fn frames(payloads: Seq<Seq<u8>>) -> Seq<u8>
    decreases payloads.len(),
{
    if payloads.len() == 0 {
        Seq::empty()
    } else {
        frames(payloads.drop_last()) + frame(payloads.last())
    }
}

/// The body of a save: the header frame, the chunk count, the chunk frames.
pub open spec fn save_body(header: Seq<u8>, chunks: Seq<Seq<u8>>) -> Seq<u8> {
    frame(header) + u32_le(chunks.len() as u32) + frames(chunks)
}

/// A whole save: the body, then the CRC-32 of the body.
pub open spec fn save_bytes(header: Seq<u8>, chunks: Seq<Seq<u8>>) -> Seq<u8> {
    save_body(header, chunks) + u32_le(crc32_of(save_body(header, chunks)))
}

/// Reads a little-endian `u32` at `pos`: the value and the position after it,
/// when four bytes are there.
pub open spec fn parse_u32(data: Seq<u8>, pos: int) -> Option<(u32, int)> {
    if 0 <= pos && pos + 4 <= data.len() {
        Some((u32_from_le(data[pos], data[pos + 1], data[pos + 2], data[pos + 3]), pos + 4))
    } else {
        None
    }
}

/// Reads a frame at `pos`: the payload and the position after it, when the
/// length and the whole payload are there.
pub open spec fn parse_frame(data: Seq<u8>, pos: int) -> Option<(Seq<u8>, int)> {
    match parse_u32(data, pos) {
        Some((n, p)) => if p + n <= data.len() {
            Some((data.subrange(p, p + n), p + n))
        } else {
            None
        },
        None => None,
    }
}

/// Reads `count` frames one after another from `pos`: the payloads and the
/// position after the last.
pub open spec fn parse_frames(data: Seq<u8>, pos: int, count: nat) -> Option<(Seq<Seq<u8>>, int)>
    decreases count,
{
    if count == 0 {
        Some((Seq::empty(), pos))
    } else {
        match parse_frames(data, pos, (count - 1) as nat) {
            Some((ps, p)) => match parse_frame(data, p) {
                Some((payload, q)) => Some((ps.push(payload), q)),
                None => None,
            },
            None => None,
        }
    }
}

/// Reads the chunk section that starts at `pos`: the chunk count, that many
/// frames, and room for the four-byte footer after them. Gives the payloads
/// and the position of the footer.
pub open spec fn chunk_section(data: Seq<u8>, pos: int) -> Option<(Seq<Seq<u8>>, int)> {
    match parse_u32(data, pos) {
        Some((n, p)) => match parse_frames(data, p, n as nat) {
            Some((cs, q)) => if q + 4 <= data.len() {
                Some((cs, q))
            } else {
                None
            },
            None => None,
        },
        None => None,
    }
}

/// The footer at `q` holds the CRC-32 of the bytes before it.
pub open spec fn footer_ok(data: Seq<u8>, q: int) -> bool {
    parse_u32(data, q) matches Some((sum, _)) && sum == crc32_of(data.subrange(0, q))
}

/// The error a read past the end of the data gives: an `std::io::Error` of
/// kind `UnexpectedEof`, made by `std::io::Error::from` (the error that
/// `Read::read_exact` reports on short input). Nothing is claimed of the value,
/// which is opaque here.
#[verifier::external_body]
fn unexpected_end() -> std::io::Error {
    std::io::Error::from(std::io::ErrorKind::UnexpectedEof)
}

/// Reads the little-endian `u32` at `pos`; past the end of the data, an
/// `IoError`.
pub fn read_u32_le(data: &[u8], pos: usize) -> (r: Result<(u32, usize), SaveError>)
    ensures
        match parse_u32(data@, pos as int) {
            Some((v, p)) => r matches Ok((v2, p2)) && v2 == v && p2 == p,
            None => r matches Err(SaveError::IoError(_)),
        },
{
    if pos > data.len() || data.len() - pos < 4 {
        return Err(SaveError::IoError(unexpected_end()));
    }
    let v = (data[pos] as u32) | (data[pos + 1] as u32) << 8u32 | (data[pos + 2] as u32) << 16u32
        | (data[pos + 3] as u32) << 24u32;
    Ok((v, pos + 4))
}

/// Reads the frame at `pos`: its payload and the position after it; a length
/// or payload running past the end of the data gives an `IoError`.
pub fn read_frame(data: &[u8], pos: usize) -> (r: Result<(Vec<u8>, usize), SaveError>)
    ensures
        match parse_frame(data@, pos as int) {
            Some((payload, p)) => r matches Ok((v, p2)) && v@ == payload && p2 == p,
            None => r matches Err(SaveError::IoError(_)),
        },
{
    let (n, start) = match read_u32_le(data, pos) {
        Ok(x) => x,
        Err(e) => return Err(e),
    };
    let n = n as usize;
    if data.len() - start < n {
        return Err(SaveError::IoError(unexpected_end()));
    }
    let mut out: Vec<u8> = Vec::with_capacity(n);
    let mut i: usize = 0;
    while i < n
        invariant
            start + n <= data.len(),
            0 <= i <= n,
            out@ == data@.subrange(start as int, start + i),
        decreases n - i,
    {
        out.push(data[start + i]);
        proof {
            assert(data@.subrange(start as int, start + i + 1) =~= data@.subrange(start as int, start + i).push(data@[start + i]));
        }
        i = i + 1;
    }
    Ok((out, start + n))
}

/// Reads the chunk section of a save that starts at `pos`: the chunk count,
/// the chunk frames and the footer. The payloads come back when the footer
/// holds the CRC-32 of everything before it; a mismatch gives
/// `ChecksumMismatch`, and data ending too early an `IoError`.
pub fn read_chunk_frames(data: &[u8], pos: usize) -> (r: Result<Vec<Vec<u8>>, SaveError>)
    ensures
        match chunk_section(data@, pos as int) {
            None => r matches Err(SaveError::IoError(_)),
            Some((cs, q)) => if footer_ok(data@, q) {
                r matches Ok(v) && v@.map_values(|c: Vec<u8>| c@) == cs
            } else {
                r matches Err(SaveError::ChecksumMismatch)
            },
        },
{
    let (count, start) = match read_u32_le(data, pos) {
        Ok(x) => x,
        Err(e) => return Err(e),
    };
    let mut out: Vec<Vec<u8>> = Vec::new();
    let mut cur = start;
    let mut i: u32 = 0;
    while i < count
        invariant
            parse_u32(data@, pos as int) == Some((count, start as int)),
            0 <= i <= count,
            parse_frames(data@, start as int, i as nat) == Some((out@.map_values(|c: Vec<u8>| c@), cur as int)),
            cur <= data@.len(),
        decreases count - i,
    {
        let (payload, next) = match read_frame(data, cur) {
            Ok(x) => x,
            Err(e) => {
                proof {
                    lemma_parse_frames_stuck(data@, start as int, i as nat, count as nat);
                }
                return Err(e);
            },
        };
        let ghost before = out@;
        out.push(payload);
        proof {
            assert(out@.map_values(|c: Vec<u8>| c@) =~= before.map_values(|c: Vec<u8>| c@).push(payload@));
        }
        cur = next;
        i = i + 1;
    }
    let (sum, _) = match read_u32_le(data, cur) {
        Ok(x) => x,
        Err(e) => return Err(e),
    };
    if sum != crc32_prefix(data, cur) {
        return Err(SaveError::ChecksumMismatch);
    }
    Ok(out)
}

/// Once the frames at `p` fail to parse after `i` of them, every longer run
/// fails too.
proof fn lemma_parse_frames_stuck(data: Seq<u8>, p: int, i: nat, n: nat)
    requires
        i < n,
        parse_frames(data, p, i) matches Some((_, q)) && parse_frame(data, q) is None,
    ensures
        parse_frames(data, p, n) is None,
    decreases n - i,
{
    if n > i + 1 {
        lemma_parse_frames_stuck(data, p, i, (n - 1) as nat);
    }
}

fn push_u32_le(out: &mut Vec<u8>, x: u32)
    ensures
        final(out)@ == old(out)@ + u32_le(x),
{
    out.push((x & 0xff) as u8);
    out.push(((x >> 8u32) & 0xff) as u8);
    out.push(((x >> 16u32) & 0xff) as u8);
    out.push(((x >> 24u32) & 0xff) as u8);
    proof {
        assert(final(out)@ =~= old(out)@ + u32_le(x));
    }
}

fn push_frame(out: &mut Vec<u8>, payload: &[u8])
    ensures
        final(out)@ == old(out)@ + frame(payload@),
{
    push_u32_le(out, payload.len() as u32);
    let ghost mid = out@;
    let mut i: usize = 0;
    while i < payload.len()
        invariant
            0 <= i <= payload@.len(),
            out@ == mid + payload@.take(i as int),
        decreases payload@.len() - i,
    {
        out.push(payload[i]);
        proof {
            assert(payload@.take(i + 1) =~= payload@.take(i as int).push(payload@[i as int]));
        }
        i = i + 1;
    }
    proof {
        assert(payload@.take(payload@.len() as int) =~= payload@);
        assert(final(out)@ =~= old(out)@ + frame(payload@));
    }
}

/// The bytes of a save: the header frame, the number of chunks as a
/// little-endian `u32`, one frame per chunk, then the CRC-32 of all that as a
/// little-endian `u32`. Lengths and the count are truncated to 32 bits.
pub fn encode_save(header: &[u8], chunks: &Vec<Vec<u8>>) -> (r: Vec<u8>)
    ensures
        r@ == save_bytes(header@, chunks@.map_values(|c: Vec<u8>| c@)),
{
    let mut out: Vec<u8> = Vec::new();
    push_frame(&mut out, header);
    push_u32_le(&mut out, chunks.len() as u32);
    let ghost mid = out@;
    let ghost payloads = chunks@.map_values(|c: Vec<u8>| c@);
    let mut i: usize = 0;
    while i < chunks.len()
        invariant
            payloads == chunks@.map_values(|c: Vec<u8>| c@),
            0 <= i <= chunks@.len(),
            out@ == mid + frames(payloads.take(i as int)),
        decreases chunks@.len() - i,
    {
        push_frame(&mut out, chunks[i].as_slice());
        proof {
            assert(payloads.take(i + 1).drop_last() =~= payloads.take(i as int));
        }
        i = i + 1;
    }
    proof {
        assert(payloads.take(chunks@.len() as int) =~= payloads);
    }
    let sum = crc32(out.as_slice());
    push_u32_le(&mut out, sum);
    out
}

proof fn lemma_u32_le_roundtrip(x: u32)
    ensures
        u32_le(x).len() == 4,
        u32_from_le(u32_le(x)[0], u32_le(x)[1], u32_le(x)[2], u32_le(x)[3]) == x,
{
    assert(u32_from_le((x & 0xff) as u8, ((x >> 8u32) & 0xff) as u8, ((x >> 16u32) & 0xff) as u8,
        ((x >> 24u32) & 0xff) as u8) == x) by (bit_vector);
}

proof fn lemma_parse_u32_at(d: Seq<u8>, p: int, x: u32)
    requires
        0 <= p,
        p + 4 <= d.len(),
        d.subrange(p, p + 4) == u32_le(x),
    ensures
        parse_u32(d, p) == Some((x, p + 4)),
{
    lemma_u32_le_roundtrip(x);
    assert(d[p] == d.subrange(p, p + 4)[0]);
    assert(d[p + 1] == d.subrange(p, p + 4)[1]);
    assert(d[p + 2] == d.subrange(p, p + 4)[2]);
    assert(d[p + 3] == d.subrange(p, p + 4)[3]);
}

proof fn lemma_parse_frame_at(d: Seq<u8>, p: int, payload: Seq<u8>)
    requires
        0 <= p,
        payload.len() <= u32::MAX,
        p + 4 + payload.len() <= d.len(),
        d.subrange(p, p + 4 + payload.len()) == frame(payload),
    ensures
        parse_frame(d, p) == Some((payload, p + 4 + payload.len())),
{
    let f = frame(payload);
    assert(d.subrange(p, p + 4) =~= f.subrange(0, 4));
    assert(f.subrange(0, 4) =~= u32_le(payload.len() as u32));
    lemma_parse_u32_at(d, p, payload.len() as u32);
    assert(d.subrange(p + 4, p + 4 + payload.len()) =~= f.subrange(4, 4 + payload.len() as int));
    assert(f.subrange(4, 4 + payload.len() as int) =~= payload);
}

/// The frames of the first `k` payloads begin the frames of all of them.
proof fn lemma_frames_prefix(cs: Seq<Seq<u8>>, k: int)
    requires
        0 <= k <= cs.len(),
    ensures
        frames(cs.take(k)).len() <= frames(cs).len(),
        frames(cs).subrange(0, frames(cs.take(k)).len() as int) == frames(cs.take(k)),
    decreases cs.len(),
{
    if k == cs.len() {
        assert(cs.take(k) =~= cs);
    } else {
        let init = cs.drop_last();
        assert(cs.take(k) =~= init.take(k));
        lemma_frames_prefix(init, k);
        assert(frames(cs) == frames(init) + frame(cs.last()));
        assert(frames(cs).subrange(0, frames(init.take(k)).len() as int) =~= frames(init).subrange(
            0,
            frames(init.take(k)).len() as int,
        ));
    }
}

/// Reading `k` frames back from the frames of `cs` gives the first `k`
/// payloads.
proof fn lemma_parse_frames_from(d: Seq<u8>, p0: int, cs: Seq<Seq<u8>>, k: nat)
    requires
        0 <= p0,
        k <= cs.len(),
        forall|i: int| 0 <= i < cs.len() ==> (#[trigger] cs[i]).len() <= u32::MAX,
        p0 + frames(cs).len() <= d.len(),
        d.subrange(p0, p0 + frames(cs).len()) == frames(cs),
    ensures
        parse_frames(d, p0, k) == Some((cs.take(k as int), p0 + frames(cs.take(k as int)).len())),
    decreases k,
{
    if k == 0 {
        assert(cs.take(0) =~= Seq::<Seq<u8>>::empty());
    } else {
        let j = (k - 1) as nat;
        lemma_parse_frames_from(d, p0, cs, j);
        let pre = cs.take(j as int);
        let pre1 = cs.take(k as int);
        assert(pre1.drop_last() =~= pre);
        assert(frames(pre1) == frames(pre) + frame(cs[j as int]));
        lemma_frames_prefix(cs, k as int);
        let p = p0 + frames(pre).len();
        let fl: int = frame(cs[j as int]).len() as int;
        let q: int = frames(pre).len() as int;
        assert(d.subrange(p, p + fl) =~= frames(cs).subrange(q, q + fl));
        assert(frames(pre1).len() == q + fl);
        assert(frames(cs).subrange(q, q + fl) =~= frames(cs).subrange(0, q + fl).subrange(q, q + fl));
        assert(frames(cs).subrange(q, q + fl) =~= frames(pre1).subrange(q, q + fl));
        assert(frames(pre1).subrange(q, q + fl) =~= frame(cs[j as int]));
        assert(d.subrange(p, p + 4 + cs[j as int].len()) == frame(cs[j as int]));
        lemma_parse_frame_at(d, p, cs[j as int]);
        assert(pre.push(cs[j as int]) =~= pre1);
    }
}

/// Reading a save back: the header frame gives the header, the count gives
/// the number of chunks, that many frames give the chunks, and the footer that
/// follows them, the last four bytes, holds the CRC-32 of all before it.
pub proof fn lemma_save_roundtrip(header: Seq<u8>, chunks: Seq<Seq<u8>>)
    requires
        header.len() <= u32::MAX,
        chunks.len() <= u32::MAX,
        forall|i: int| 0 <= i < chunks.len() ==> (#[trigger] chunks[i]).len() <= u32::MAX,
    ensures
        ({
            let d = save_bytes(header, chunks);
            let p1: int = 4 + header.len() as int;
            let q: int = d.len() - 4;
            &&& q == save_body(header, chunks).len()
            &&& parse_frame(d, 0) == Some((header, p1))
            &&& parse_u32(d, p1) == Some((chunks.len() as u32, p1 + 4))
            &&& parse_frames(d, p1 + 4, chunks.len()) == Some((chunks, q))
            &&& chunk_section(d, p1) == Some((chunks, q))
            &&& footer_ok(d, q)
        }),
{
    let body = save_body(header, chunks);
    let d = save_bytes(header, chunks);
    let p1: int = 4 + header.len() as int;
    let q: int = body.len() as int;
    assert(d.subrange(0, p1) =~= frame(header));
    lemma_parse_frame_at(d, 0, header);
    assert(d.subrange(p1, p1 + 4) =~= u32_le(chunks.len() as u32));
    lemma_parse_u32_at(d, p1, chunks.len() as u32);
    assert(d.subrange(p1 + 4, p1 + 4 + frames(chunks).len()) =~= frames(chunks));
    lemma_parse_frames_from(d, p1 + 4, chunks, chunks.len());
    assert(chunks.take(chunks.len() as int) =~= chunks);
    assert(d.subrange(q, q + 4) =~= u32_le(crc32_of(body)));
    lemma_parse_u32_at(d, q, crc32_of(body));
    assert(d.subrange(0, q) =~= body);
    assert((chunks.len() as u32) as nat == chunks.len());
}

/// The headers are ordered newest first by change time.
pub open spec fn newest_first(saves: Seq<SaveHeader>) -> bool {
    forall|i: int, j: int| 0 <= i < j < saves.len() ==> saves[i].modified_at >= saves[j].modified_at
}

/// The header was last changed at time `t`.
pub open spec fn changed_at(t: u64) -> spec_fn(SaveHeader) -> bool {
    |h: SaveHeader| h.modified_at == t
}

proof fn lemma_filter_none(s: Seq<SaveHeader>, t: u64)
    requires
        forall|i: int| 0 <= i < s.len() ==> s[i].modified_at != t,
    ensures
        s.filter(changed_at(t)) == Seq::<SaveHeader>::empty(),
    decreases s.len(),
{
    reveal(Seq::filter);
    if s.len() > 0 {
        lemma_filter_none(s.drop_last(), t);
    }
}

proof fn lemma_filter_single(h: SaveHeader, t: u64)
    ensures
        seq![h].filter(changed_at(t)) == if h.modified_at == t { seq![h] } else { Seq::<SaveHeader>::empty() },
{
    reveal(Seq::filter);
    assert(seq![h].drop_last() =~= Seq::<SaveHeader>::empty());
    assert(Seq::<SaveHeader>::empty().filter(changed_at(t)) =~= Seq::<SaveHeader>::empty());
    assert(Seq::<SaveHeader>::empty().push(h) =~= seq![h]);
}

/// Orders save headers newest first by change time, keeping headers with
/// equal change times in their given order.
pub fn sort_newest_first(saves: Vec<SaveHeader>) -> (r: Vec<SaveHeader>)
    ensures
        r@.to_multiset() == saves@.to_multiset(),
        newest_first(r@),
        forall|t: u64| #[trigger] r@.filter(changed_at(t)) == saves@.filter(changed_at(t)),
{
    broadcast use vstd::seq_lib::group_to_multiset_ensures;
    let ghost all = saves@;
    let mut rest = saves;
    let mut out: Vec<SaveHeader> = Vec::new();
    proof {
        assert(all.subrange(all.len() as int, all.len() as int) =~= Seq::<SaveHeader>::empty());
        assert forall|t: u64| #[trigger] out@.filter(changed_at(t)) == all.subrange(
            rest@.len() as int,
            all.len() as int,
        ).filter(changed_at(t)) by {
            reveal(Seq::filter);
        }
        assert(rest@ =~= all.subrange(0, rest@.len() as int));
    }
    while rest.len() > 0
        invariant
            out@.to_multiset().add(rest@.to_multiset()) == all.to_multiset(),
            newest_first(out@),
            rest@.len() <= all.len(),
            rest@ == all.subrange(0, rest@.len() as int),
            forall|t: u64| #[trigger] out@.filter(changed_at(t)) == all.subrange(
                rest@.len() as int,
                all.len() as int,
            ).filter(changed_at(t)),
        decreases rest@.len(),
    {
        let ghost before = rest@;
        let ghost m = rest@.len() as int;
        let h = rest.pop().unwrap();
        proof {
            assert(before =~= rest@.push(h));
            vstd::seq_lib::to_multiset_build(rest@, h);
            assert(rest@ =~= all.subrange(0, m - 1));
        }
        let mut p: usize = 0;
        while p < out.len() && out[p].modified_at > h.modified_at
            invariant
                0 <= p <= out@.len(),
                forall|i: int| 0 <= i < p ==> out@[i].modified_at > h.modified_at,
            decreases out@.len() - p,
        {
            p = p + 1;
        }
        let ghost old_out = out@;
        out.insert(p, h);
        proof {
            vstd::seq_lib::to_multiset_insert(old_out, p as int, h);
            assert forall|i: int, j: int| 0 <= i < j < out@.len()
                implies out@[i].modified_at >= out@[j].modified_at by {
                if p < old_out.len() {
                    assert(old_out[p as int].modified_at <= h.modified_at);
                }
            }
            assert(out@.to_multiset().add(rest@.to_multiset()) =~= all.to_multiset());
            let pre = old_out.take(p as int);
            let post = old_out.skip(p as int);
            assert(old_out =~= pre + post);
            assert(out@ =~= pre + seq![h] + post);
            assert(all.subrange(m - 1, all.len() as int) =~= seq![h] + all.subrange(m, all.len() as int));
            assert forall|t: u64| #[trigger] out@.filter(changed_at(t)) == all.subrange(
                m - 1,
                all.len() as int,
            ).filter(changed_at(t)) by {
                Seq::filter_distributes_over_add(pre + seq![h], post, changed_at(t));
                Seq::filter_distributes_over_add(pre, seq![h], changed_at(t));
                Seq::filter_distributes_over_add(pre, post, changed_at(t));
                Seq::filter_distributes_over_add(seq![h], all.subrange(m, all.len() as int), changed_at(t));
                lemma_filter_single(h, t);
                if h.modified_at == t {
                    lemma_filter_none(pre, t);
                    assert(pre.filter(changed_at(t)) + seq![h] + post.filter(changed_at(t))
                        =~= seq![h] + (pre.filter(changed_at(t)) + post.filter(changed_at(t))));
                } else {
                    assert(pre.filter(changed_at(t)) + Seq::<SaveHeader>::empty() =~= pre.filter(changed_at(t)));
                    assert(Seq::<SaveHeader>::empty() + all.subrange(m, all.len() as int).filter(changed_at(t))
                        =~= all.subrange(m, all.len() as int).filter(changed_at(t)));
                }
            }
        }
    }
    proof {
        assert(all.subrange(0, all.len() as int) =~= all);
    }
    out
}

/// `name` ends in the save extension: a `.vxls` suffix after a nonempty stem
/// (a name such as `.vxls` alone has no extension).
pub open spec fn has_save_extension(name: Seq<char>) -> bool {
    &&& name.len() > 5
    &&& name.subrange(name.len() - 5, name.len() as int) == seq!['.', 'v', 'x', 'l', 's']
}

/// Whether a file named `name` is a save file: its extension is `vxls`.
pub fn is_save_file_name(name: &str) -> (r: bool)
    ensures
        r == has_save_extension(name@),
{
    let n = name.unicode_len();
    if n <= 5 {
        return false;
    }
    let r = name.get_char(n - 5) == '.' && name.get_char(n - 4) == 'v' && name.get_char(n - 3) == 'x'
        && name.get_char(n - 2) == 'l' && name.get_char(n - 1) == 's';
    proof {
        if r {
            assert(name@.subrange(n - 5, n as int) =~= seq!['.', 'v', 'x', 'l', 's']);
        } else {
            if name@.subrange(n - 5, n as int) == seq!['.', 'v', 'x', 'l', 's'] {
                assert(name@.subrange(n - 5, n as int)[0] == name@[n - 5]);
                assert(name@.subrange(n - 5, n as int)[1] == name@[n - 4]);
                assert(name@.subrange(n - 5, n as int)[2] == name@[n - 3]);
                assert(name@.subrange(n - 5, n as int)[3] == name@[n - 2]);
                assert(name@.subrange(n - 5, n as int)[4] == name@[n - 1]);
            }
        }
    }
    r
}

} // verus!
