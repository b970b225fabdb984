//! Toroidal (cyclic) arithmetic for a world that wraps around on X and Z.
//!
//! Every coordinate is reduced modulo the world size, so walking off one edge of
//! the world brings you back in at the opposite edge.
use vstd::prelude::*;
use vstd::arithmetic::div_mod::{
    lemma_fundamental_div_mod, lemma_fundamental_div_mod_converse, lemma_mod_bound,
};
use vstd::bits::{lemma_usize_low_bits_mask_is_mod, lemma_usize_pow2_no_overflow, low_bits_mask};
use vstd::arithmetic::power2::pow2;

verus! {

/// Magnitude of an integer.
pub open spec fn abs_int(a: int) -> int {
    if a < 0 { -a } else { a }
}

/// Remainder of a division that rounds toward zero (the `%` of Rust's signed
/// integers): it carries the sign of `a` and its magnitude is below `|b|`.
pub open spec fn trunc_rem(a: int, b: int) -> int {
    if a >= 0 { a % abs_int(b) } else { -((-a) % abs_int(b)) }
}

/// The representative of `coord` modulo `size`: in `[0, size)` for a positive
/// size, in `(size, 0]` for a negative one.
pub open spec fn wrap_spec(coord: int, size: int) -> int {
    if size > 0 { coord % size } else { -((-coord) % (-size)) }
}

/// The inputs on which `((coord % size) + size) % size` evaluates without a
/// division by zero or an overflow of `i32`.
pub open spec fn wrap_defined(coord: i32, size: i32) -> bool {
    &&& size != 0
    &&& !(coord == i32::MIN && size == -1)
    &&& i32::MIN <= trunc_rem(coord as int, size as int) + size <= i32::MAX
}

/// Shortest distance between two positions on a circle of length `size`,
/// measured through the raw difference `|a - b|`.
pub open spec fn toroidal_distance_spec(a: int, b: int, size: int) -> int {
    let diff = abs_int(a - b);
    if size - diff < diff { size - diff } else { diff }
}

/// The inputs on which `toroidal_distance` evaluates without overflow.
pub open spec fn distance_defined(a: i32, b: i32, size: i32) -> bool {
    &&& i32::MIN < a - b <= i32::MAX
    &&& i32::MIN <= size - abs_int(a - b) <= i32::MAX
}

/// Manhattan distance on the torus, summed over three axes.
pub open spec fn toroidal_distance_3d_spec(
    ax: int, ay: int, az: int, bx: int, by: int, bz: int, size: int,
) -> int {
    toroidal_distance_spec(ax, bx, size) + toroidal_distance_spec(ay, by, size)
        + toroidal_distance_spec(az, bz, size)
}

/// The inputs on which `toroidal_distance_3d` evaluates without overflow.
pub open spec fn distance_3d_defined(
    ax: i32, ay: i32, az: i32, bx: i32, by: i32, bz: i32, size: i32,
) -> bool {
    &&& distance_defined(ax, bx, size)
    &&& distance_defined(ay, by, size)
    &&& distance_defined(az, bz, size)
    &&& i32::MIN <= toroidal_distance_spec(ax as int, bx as int, size as int)
        + toroidal_distance_spec(ay as int, by as int, size as int) <= i32::MAX
    &&& i32::MIN <= toroidal_distance_3d_spec(
        ax as int, ay as int, az as int, bx as int, by as int, bz as int, size as int,
    ) <= i32::MAX
}

/// `n` is a power of two that a `usize` can hold.
pub open spec fn is_pow2(n: int) -> bool {
    exists|k: nat| k < usize::BITS && pow2(k) == n
}

/// With a nonzero divisor, the Euclidean remainder only depends on the
/// divisor's magnitude.
proof fn lemma_rem_abs(x: int, d: int)
    requires
        d != 0,
    ensures
        x % d == x % abs_int(d),
{
    if d < 0 {
        lemma_fundamental_div_mod(x, d);
        assert(0 <= x % d < -d);
        assert(x == (-(x / d)) * (-d) + x % d) by (nonlinear_arith)
            requires x == d * (x / d) + x % d;
        lemma_fundamental_div_mod_converse(x, -d, -(x / d), x % d);
    }
}

proof fn lemma_mod_of_shifted(x: int, n: int)
    requires
        n > 0,
        0 <= x < 2 * n,
    ensures
        x % n == if x < n { x } else { x - n },
{
    if x < n {
        lemma_fundamental_div_mod_converse(x, n, 0, x);
    } else {
        lemma_fundamental_div_mod_converse(x, n, 1, x - n);
    }
}

/// The two-step remainder `((c % n) + n) % n`, taken with remainders that round
/// toward zero, is the canonical representative `wrap_spec(c, n)`.
proof fn lemma_wrap_formula(c: int, n: int)
    requires
        n != 0,
    ensures
        trunc_rem(trunc_rem(c, n) + n, n) == wrap_spec(c, n),
{
    let m = abs_int(n);
    if n > 0 {
        if c >= 0 {
            lemma_mod_bound(c, n);
            let r1 = c % n;
            lemma_mod_of_shifted(r1 + n, n);
        } else {
            lemma_mod_bound(-c, n);
            let s = (-c) % n;
            lemma_fundamental_div_mod(-c, n);
            let q = (-c) / n;
            assert(-c == q * n + s);
            lemma_mod_of_shifted(n - s, n);
            if s == 0 {
                assert(c == (-q) * n + 0) by (nonlinear_arith)
                    requires -c == q * n + s, s == 0;
                lemma_fundamental_div_mod_converse(c, n, -q, 0);
            } else {
                assert(c == (-q - 1) * n + (n - s)) by (nonlinear_arith)
                    requires -c == q * n + s;
                lemma_fundamental_div_mod_converse(c, n, -q - 1, n - s);
            }
        }
    } else {
        // n < 0, m == -n > 0
        if c >= 0 {
            lemma_mod_bound(c, m);
            let r1 = c % m;
            // r1 + n is in [n, 0): its truncated remainder is itself unless it is n
            let t = r1 + n;
            lemma_mod_bound(-c, m);
            lemma_fundamental_div_mod(c, m);
            let q = c / m;
            assert(c == q * m + r1);
            if r1 == 0 {
                lemma_fundamental_div_mod_converse(-t, m, 1, 0);
                assert(-c == (-q) * m + 0) by (nonlinear_arith)
                    requires c == q * m + r1, r1 == 0;
                lemma_fundamental_div_mod_converse(-c, m, -q, 0);
            } else {
                lemma_fundamental_div_mod_converse(-t, m, 0, -t);
                assert(-c == (-q - 1) * m + (m - r1)) by (nonlinear_arith)
                    requires c == q * m + r1;
                lemma_fundamental_div_mod_converse(-c, m, -q - 1, m - r1);
            }
        } else {
            lemma_mod_bound(-c, m);
            let s = (-c) % m;
            let t = -s + n;
            // t is in (2n, n]; -t is in [m, 2m)
            lemma_mod_of_shifted(-t, m);
        }
    }
}

/// Wraps a cell coordinate into the world: the result is `coord` modulo
/// `world_size` (in `[0, world_size)` for a positive size).
pub fn wrap_cell_coord(coord: i32, world_size: i32) -> (r: i32)
    requires
        wrap_defined(coord, world_size),
    ensures
        r as int == wrap_spec(coord as int, world_size as int),
{
    proof {
        lemma_wrap_formula(coord as int, world_size as int);
    }
    let first = coord % world_size;
    proof {
        lemma_rem_abs(coord as int, world_size as int);
        lemma_rem_abs(-coord, world_size as int);
    }
    let shifted = first + world_size;
    proof {
        lemma_rem_abs(shifted as int, world_size as int);
        lemma_rem_abs(-shifted, world_size as int);
    }
    shifted % world_size
}

/// Wraps a chunk coordinate into the world of `world_size` chunks: the result is
/// `coord` modulo `world_size`, computed as for a cell coordinate.
pub fn wrap_chunk_coord(coord: i32, world_size: i32) -> (r: i32)
    requires
        wrap_defined(coord, world_size),
    ensures
        r as int == wrap_spec(coord as int, world_size as int),
{
    wrap_cell_coord(coord, world_size)
}

/// Wraps the horizontal coordinates `x` and `z` of a cell; the height `y` is
/// passed through unchanged.
pub fn wrap_cell_coords(x: i32, y: i32, z: i32, world_size: i32) -> (r: (i32, i32, i32))
    requires
        wrap_defined(x, world_size),
        wrap_defined(z, world_size),
    ensures
        r.0 as int == wrap_spec(x as int, world_size as int),
        r.1 == y,
        r.2 as int == wrap_spec(z as int, world_size as int),
{
    (wrap_cell_coord(x, world_size), y, wrap_cell_coord(z, world_size))
}

/// Wraps both horizontal coordinates of a chunk position.
pub fn wrap_chunk_coords(x: i32, z: i32, world_size: i32) -> (r: (i32, i32))
    requires
        wrap_defined(x, world_size),
        wrap_defined(z, world_size),
    ensures
        r.0 as int == wrap_spec(x as int, world_size as int),
        r.1 as int == wrap_spec(z as int, world_size as int),
{
    (wrap_chunk_coord(x, world_size), wrap_chunk_coord(z, world_size))
}

/// Masking with `2^k - 1` keeps the remainder modulo `2^k`.
proof fn lemma_mask_is_mod(value: usize, mask: usize)
    requires
        is_pow2(mask + 1),
    ensures
        (value & mask) as int == value as int % (mask as int + 1),
{
    let k = choose|k: nat| k < usize::BITS && pow2(k) == mask + 1;
    lemma_usize_low_bits_mask_is_mod(value, k);
    lemma_usize_pow2_no_overflow(k);
    assert(low_bits_mask(k) == pow2(k) - 1) by {
        vstd::bits::lemma_low_bits_mask_values();
        reveal(low_bits_mask);
    }
}

/// Fast remainder through a bit mask: `value & mask`, which is `value` modulo
/// `mask + 1` whenever `mask + 1` is a power of two.
pub fn fast_mod(value: usize, mask: usize) -> (r: usize)
    ensures
        r == value & mask,
        r <= mask,
        is_pow2(mask + 1) ==> r as int == value as int % (mask as int + 1),
{
    let r = value & mask;
    proof {
        assert(value & mask <= mask) by (bit_vector);
        if is_pow2(mask + 1) {
            lemma_mask_is_mod(value, mask);
        }
    }
    r
}

/// Distance between `a` and `b` on a circle of length `world_size`: the smaller
/// of `|a - b|` and `world_size - |a - b|`.
pub fn toroidal_distance(a: i32, b: i32, world_size: i32) -> (r: i32)
    requires
        distance_defined(a, b, world_size),
    ensures
        r as int == toroidal_distance_spec(a as int, b as int, world_size as int),
{
    let d = a - b;
    let diff = if d < 0 { -d } else { d };
    let other = world_size - diff;
    if other < diff { other } else { diff }
}

/// Manhattan distance on the torus: the sum of the per-axis toroidal distances.
pub fn toroidal_distance_3d(
    ax: i32, ay: i32, az: i32, bx: i32, by: i32, bz: i32, world_size: i32,
) -> (r: i32)
    requires
        distance_3d_defined(ax, ay, az, bx, by, bz, world_size),
    ensures
        r as int == toroidal_distance_3d_spec(
            ax as int, ay as int, az as int, bx as int, by as int, bz as int, world_size as int,
        ),
{
    let dx = toroidal_distance(ax, bx, world_size);
    let dy = toroidal_distance(ay, by, world_size);
    let dz = toroidal_distance(az, bz, world_size);
    dx + dy + dz
}

/// Two positions are neighbours on the torus when their toroidal Manhattan
/// distance is at most one.
pub fn are_neighbors_toroidal(
    ax: i32, ay: i32, az: i32, bx: i32, by: i32, bz: i32, world_size: i32,
) -> (r: bool)
    requires
        distance_3d_defined(ax, ay, az, bx, by, bz, world_size),
    ensures
        r == (toroidal_distance_3d_spec(
            ax as int, ay as int, az as int, bx as int, by as int, bz as int, world_size as int,
        ) <= 1),
{
    toroidal_distance_3d(ax, ay, az, bx, by, bz, world_size) <= 1
}

/// For a positive world size up to 2^30 the wrapping formula is defined on
/// every coordinate, and its result lies in `[0, world_size)`.
pub proof fn lemma_wrap_defined(coord: i32, size: i32)
    requires
        0 < size <= 0x4000_0000,
    ensures
        wrap_defined(coord, size),
        0 <= wrap_spec(coord as int, size as int) < size,
{
    lemma_mod_bound(coord as int, size as int);
    lemma_mod_bound(-coord, size as int);
}

/// Wrapping leaves a coordinate that already lies in `[0, size)` unchanged.
pub proof fn lemma_wrap_identity(coord: int, size: int)
    requires
        0 <= coord < size,
    ensures
        wrap_spec(coord, size) == coord,
{
    lemma_fundamental_div_mod_converse(coord, size, 0, coord);
}

/// For a positive world size, a wrapped coordinate lies in `[0, size)`.
pub proof fn lemma_wrap_in_range(coord: int, size: int)
    requires
        size > 0,
    ensures
        0 <= wrap_spec(coord, size) < size,
{
    lemma_mod_bound(coord, size);
}

/// Wrapping is periodic: moving a coordinate by whole world sizes does not
/// change where it wraps to.
pub proof fn lemma_wrap_periodic(coord: int, size: int, k: int)
    requires
        size > 0,
    ensures
        wrap_spec(coord + k * size, size) == wrap_spec(coord, size),
{
    lemma_fundamental_div_mod(coord, size);
    lemma_mod_bound(coord, size);
    let q = coord / size;
    let r = coord % size;
    assert(coord + k * size == (q + k) * size + r) by (nonlinear_arith)
        requires coord == size * q + r;
    lemma_fundamental_div_mod_converse(coord + k * size, size, q + k, r);
}

/// Wrapping a wrapped coordinate changes nothing.
pub proof fn lemma_wrap_idempotent(coord: int, size: int)
    requires
        size != 0,
    ensures
        wrap_spec(wrap_spec(coord, size), size) == wrap_spec(coord, size),
{
    if size > 0 {
        lemma_mod_bound(coord, size);
        lemma_wrap_identity(wrap_spec(coord, size), size);
    } else {
        let m = -size;
        lemma_mod_bound(-coord, m);
        let w = wrap_spec(coord, size);
        // -w is already in [0, m)
        lemma_fundamental_div_mod_converse(-w, m, 0, -w);
    }
}

/// Toroidal distance does not depend on the order of its two positions.
pub proof fn lemma_distance_symmetric(a: int, b: int, size: int)
    ensures
        toroidal_distance_spec(a, b, size) == toroidal_distance_spec(b, a, size),
{
}

/// Every position is at distance zero from itself on a world of
/// nonnegative size.
pub proof fn lemma_distance_to_self(a: int, size: int)
    requires
        size >= 0,
    ensures
        toroidal_distance_spec(a, a, size) == 0,
{
}

/// Between two positions inside a world of size `size`, the toroidal distance
/// is at least zero and at most half the size, and never more than the plain
/// distance.
pub proof fn lemma_distance_bounds(a: int, b: int, size: int)
    requires
        0 <= a < size,
        0 <= b < size,
    ensures
        0 <= toroidal_distance_spec(a, b, size),
        2 * toroidal_distance_spec(a, b, size) <= size,
        toroidal_distance_spec(a, b, size) <= abs_int(a - b),
{
}

/// Being neighbours on the torus is reflexive (on a world of nonnegative
/// size) and symmetric.
pub proof fn lemma_neighbors_reflexive_symmetric(
    ax: int, ay: int, az: int, bx: int, by: int, bz: int, size: int,
)
    requires
        size >= 0,
    ensures
        toroidal_distance_3d_spec(ax, ay, az, ax, ay, az, size) <= 1,
        (toroidal_distance_3d_spec(ax, ay, az, bx, by, bz, size) <= 1)
            == (toroidal_distance_3d_spec(bx, by, bz, ax, ay, az, size) <= 1),
{
}

/// For a world whose size is a power of two, wrapping a nonnegative
/// coordinate is masking it with `size - 1`: the two ways of reducing a
/// coordinate agree.
pub proof fn lemma_wrap_matches_mask(coord: usize, mask: usize)
    requires
        is_pow2(mask + 1),
    ensures
        (coord & mask) as int == wrap_spec(coord as int, mask + 1),
{
    lemma_mask_is_mod(coord, mask);
}

} // verus!
