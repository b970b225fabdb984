//! The cell: the basic unit of the voxel world.
//!
//! A cell stores its material as a byte code, a byte of property flags and a set
//! of quantised physical quantities (temperature in 0.01 K, pressure in 10 Pa,
//! velocity in 0.01 m/s).
use vstd::prelude::*;

verus! {

/// Size of a cell in bytes, in memory and in a save file.
pub const CELL_SIZE: usize = 48;

/// Voxel materials. The byte code of each material is its position in this list.
#[derive(Debug, Clone, Copy, PartialEq, Eq, Hash, Structural)]
pub enum Material {
    Air,
    Vacuum,
    Stone,
    Dirt,
    Sand,
    Water,
    Ice,
    Steam,
    Lava,
    Magma,
    Wood,
    Leaves,
    Metal,
    Plasma,
}

impl Material {
    /// Byte code of the material.
    pub open spec fn code(self) -> u8 {
        match self {
            Material::Air => 0,
            Material::Vacuum => 1,
            Material::Stone => 2,
            Material::Dirt => 3,
            Material::Sand => 4,
            Material::Water => 5,
            Material::Ice => 6,
            Material::Steam => 7,
            Material::Lava => 8,
            Material::Magma => 9,
            Material::Wood => 10,
            Material::Leaves => 11,
            Material::Metal => 12,
            Material::Plasma => 13,
        }
    }

    /// The material with byte code `b`; an unknown code reads as air.
    pub open spec fn from_code(b: u8) -> Material {
        if b == 1 {
            Material::Vacuum
        } else if b == 2 {
            Material::Stone
        } else if b == 3 {
            Material::Dirt
        } else if b == 4 {
            Material::Sand
        } else if b == 5 {
            Material::Water
        } else if b == 6 {
            Material::Ice
        } else if b == 7 {
            Material::Steam
        } else if b == 8 {
            Material::Lava
        } else if b == 9 {
            Material::Magma
        } else if b == 10 {
            Material::Wood
        } else if b == 11 {
            Material::Leaves
        } else if b == 12 {
            Material::Metal
        } else if b == 13 {
            Material::Plasma
        } else {
            Material::Air
        }
    }

    pub open spec fn solid(self) -> bool {
        ||| self is Stone
        ||| self is Dirt
        ||| self is Sand
        ||| self is Ice
        ||| self is Magma
        ||| self is Wood
        ||| self is Metal
    }

    pub open spec fn fluid(self) -> bool {
        self is Water || self is Lava
    }

    pub open spec fn gas(self) -> bool {
        self is Steam || self is Plasma
    }

    pub open spec fn phase_changing(self) -> bool {
        ||| self is Water
        ||| self is Ice
        ||| self is Steam
        ||| self is Lava
        ||| self is Magma
    }

    /// The byte code of the material.
    pub fn to_u8(&self) -> (r: u8)
        ensures
            r == self.code(),
    {
        match self {
            Material::Air => 0,
            Material::Vacuum => 1,
            Material::Stone => 2,
            Material::Dirt => 3,
            Material::Sand => 4,
            Material::Water => 5,
            Material::Ice => 6,
            Material::Steam => 7,
            Material::Lava => 8,
            Material::Magma => 9,
            Material::Wood => 10,
            Material::Leaves => 11,
            Material::Metal => 12,
            Material::Plasma => 13,
        }
    }

    /// Solid materials: stone, dirt, sand, ice, magma, wood and metal.
    pub fn is_solid(&self) -> (r: bool)
        ensures
            r == self.solid(),
    {
        matches!(
            self,
            Material::Stone | Material::Dirt | Material::Sand | Material::Ice | Material::Magma
                | Material::Wood | Material::Metal
        )
    }

    /// Fluid materials: water and lava.
    pub fn is_fluid(&self) -> (r: bool)
        ensures
            r == self.fluid(),
    {
        matches!(self, Material::Water | Material::Lava)
    }

    /// Gaseous materials: steam and plasma.
    pub fn is_gas(&self) -> (r: bool)
        ensures
            r == self.gas(),
    {
        matches!(self, Material::Steam | Material::Plasma)
    }

    /// Materials that take part in phase transitions: water, ice, steam, lava
    /// and magma.
    pub fn can_change_phase(&self) -> (r: bool)
        ensures
            r == self.phase_changing(),
    {
        matches!(
            self,
            Material::Water | Material::Ice | Material::Steam | Material::Lava | Material::Magma
        )
    }
}

impl Default for Material {
    fn default() -> (r: Self)
        ensures
            r == Material::Air,
    {
        Material::Air
    }
}

/// Property flags of a cell, one bit each.
#[derive(Debug, Clone, Copy, PartialEq, Eq, Default, Structural)]
pub struct CellFlags(pub u8);

impl CellFlags {
    /// No flag set.
    #[allow(non_snake_case)]
    pub fn NONE() -> (r: CellFlags)
        ensures
            r.0 == 0,
    {
        CellFlags(0)
    }

    /// Solid material.
    #[allow(non_snake_case)]
    pub fn SOLID() -> (r: CellFlags)
        ensures
            r.0 == 1,
    {
        CellFlags(1)
    }

    /// Fluid material.
    #[allow(non_snake_case)]
    pub fn FLUID() -> (r: CellFlags)
        ensures
            r.0 == 2,
    {
        CellFlags(2)
    }

    /// Gas material.
    #[allow(non_snake_case)]
    pub fn GAS() -> (r: CellFlags)
        ensures
            r.0 == 4,
    {
        CellFlags(4)
    }

    /// Temperature above the hot threshold.
    #[allow(non_snake_case)]
    pub fn HOT() -> (r: CellFlags)
        ensures
            r.0 == 8,
    {
        CellFlags(8)
    }

    /// Temperature below the cold threshold.
    #[allow(non_snake_case)]
    pub fn COLD() -> (r: CellFlags)
        ensures
            r.0 == 16,
    {
        CellFlags(16)
    }

    /// High pressure.
    #[allow(non_snake_case)]
    pub fn PRESSURIZED() -> (r: CellFlags)
        ensures
            r.0 == 32,
    {
        CellFlags(32)
    }

    /// Nonzero velocity.
    #[allow(non_snake_case)]
    pub fn MOVING() -> (r: CellFlags)
        ensures
            r.0 == 64,
    {
        CellFlags(64)
    }

    /// Solid phase (ice, stone).
    #[allow(non_snake_case)]
    pub fn PHASE_SOLID() -> (r: CellFlags)
        ensures
            r.0 == 128,
    {
        CellFlags(128)
    }

    /// Whether any bit of `flag` is set.
    pub fn has(&self, flag: CellFlags) -> (r: bool)
        ensures
            r == (self.0 & flag.0 != 0),
    {
        (self.0 & flag.0) != 0
    }

    /// Sets the bits of `flag` when `value` holds and clears them otherwise;
    /// the other bits stay.
    pub fn set(&mut self, flag: CellFlags, value: bool)
        ensures
            final(self).0 == (if value { old(self).0 | flag.0 } else { old(self).0 & !flag.0 }),
    {
        if value {
            self.0 = self.0 | flag.0;
        } else {
            self.0 = self.0 & !flag.0;
        }
    }
}

/// The value of the default air cell (see `Cell::AIR`).
pub open spec fn air_value() -> ((u8, u8, u8, u8, i16, i16, i16, i16, i16, u8, u8, u8), Seq<u8>) {
    (
        (0u8, 0u8, 0u8, 0u8, 29300i16, 10132i16, 0i16, 0i16, 0i16, 128u8, 128u8, 0u8),
        Seq::new(31, |i: int| 0u8),
    )
}

/// The flag bit `mask` is set in `flags`.
pub open spec fn flag_bit(flags: u8, mask: u8) -> bool {
    flags & mask != 0
}

/// Setting the bits of a flag makes it read back as the value written, and
/// leaves every bit outside the flag as it was.
pub proof fn lemma_set_then_has(flags: u8, flag: u8, value: bool, other: u8)
    requires
        flag != 0,
        other & flag == 0,
    ensures
        ({
            let after = if value { flags | flag } else { flags & !flag };
            &&& flag_bit(after, flag) == value
            &&& after & other == flags & other
        }),
{
    if value {
        assert((flags | flag) & flag != 0) by (bit_vector)
            requires flag != 0u8;
        assert((flags | flag) & other == flags & other) by (bit_vector)
            requires other & flag == 0u8;
    } else {
        assert((flags & !flag) & flag == 0) by (bit_vector);
        assert((flags & !flag) & other == flags & other) by (bit_vector)
            requires other & flag == 0u8;
    }
}

/// The flags a freshly made cell of material `m` starts with.
pub open spec fn initial_flags(m: Material) -> u8 {
    if m.solid() {
        1
    } else if m.fluid() {
        2
    } else if m.gas() {
        4
    } else {
        0
    }
}

/// Density of a freshly made cell of material `m`.
pub open spec fn initial_density(m: Material) -> u8 {
    match m {
        Material::Air => 10,
        Material::Vacuum => 0,
        Material::Water => 255,
        Material::Lava => 250,
        Material::Steam => 5,
        Material::Plasma => 2,
        _ => 128,
    }
}

/// Heat capacity of a freshly made cell of material `m`.
pub open spec fn initial_heat_capacity(m: Material) -> u8 {
    match m {
        Material::Water => 200,
        Material::Ice => 150,
        Material::Steam => 100,
        Material::Lava => 180,
        Material::Metal => 50,
        _ => 128,
    }
}

/// A voxel cell, 48 bytes.
///
/// Quantities are quantised: the real temperature is `temperature * 0.01` K,
/// the real pressure `pressure * 10` Pa and each velocity component
/// `velocity * 0.01` m/s.
#[derive(Debug, Clone, Copy)]
pub struct Cell {
    /// Byte code of the material.
    pub material: u8,
    /// Property flags (see `CellFlags`).
    pub flags: u8,
    /// Amount of compressed liquid held by the cell, 0 to 255.
    pub excell_liquid: u8,
    /// Liquid depth used to compute overflow, 0 to 255.
    pub fluid_depth: u8,
    /// Temperature in units of 0.01 K.
    pub temperature: i16,
    /// Pressure in units of 10 Pa.
    pub pressure: i16,
    /// Velocity components in units of 0.01 m/s.
    pub velocity_x: i16,
    pub velocity_y: i16,
    pub velocity_z: i16,
    /// Density, 128 being that of water.
    pub density: u8,
    /// Heat capacity, 128 being average.
    pub heat_capacity: u8,
    /// Phase index, 0 when undefined.
    pub phase_state: u8,
    /// Reserved bytes, kept zero by every constructor.
    pub _padding: [u8; 31],
}

impl Cell {
    /// The reserved bytes of the cell.
    pub open spec fn reserved(self) -> Seq<u8> {
        self._padding@
    }

    /// All reserved bytes are zero.
    pub open spec fn reserved_clear(self) -> bool {
        self.reserved() == Seq::new(31, |i: int| 0u8)
    }

    /// Everything the cell holds: its fields and its reserved bytes.
    pub open spec fn value(self) -> ((u8, u8, u8, u8, i16, i16, i16, i16, i16, u8, u8, u8), Seq<u8>) {
        (self.fields(), self.reserved())
    }

    /// The value of `Cell::AIR()`: air at 293.0 K and one atmosphere.
    pub open spec fn is_default_air(self) -> bool {
        self.value() == air_value()
    }

    /// The cell's values, listed field by field.
    pub open spec fn fields(self) -> (u8, u8, u8, u8, i16, i16, i16, i16, i16, u8, u8, u8) {
        (
            self.material,
            self.flags,
            self.excell_liquid,
            self.fluid_depth,
            self.temperature,
            self.pressure,
            self.velocity_x,
            self.velocity_y,
            self.velocity_z,
            self.density,
            self.heat_capacity,
            self.phase_state,
        )
    }

    fn with_fields(
        material: u8,
        flags: u8,
        excell_liquid: u8,
        fluid_depth: u8,
        temperature: i16,
        pressure: i16,
        density: u8,
        heat_capacity: u8,
        phase_state: u8,
    ) -> (r: Cell)
        ensures
            r.fields() == (
                material,
                flags,
                excell_liquid,
                fluid_depth,
                temperature,
                pressure,
                0i16,
                0i16,
                0i16,
                density,
                heat_capacity,
                phase_state,
            ),
            r.reserved_clear(),
    {
        let r = Cell {
            material,
            flags,
            excell_liquid,
            fluid_depth,
            temperature,
            pressure,
            velocity_x: 0,
            velocity_y: 0,
            velocity_z: 0,
            density,
            heat_capacity,
            phase_state,
            _padding: [0u8; 31],
        };
        assert(r.reserved() =~= Seq::new(31, |i: int| 0u8));
        r
    }

    /// An empty air cell at 293.0 K and one atmosphere.
    #[allow(non_snake_case)]
    pub fn AIR() -> (r: Cell)
        ensures
            r.is_default_air(),
    {
        Cell::with_fields(0, 0, 0, 0, 29300, 10132, 128, 128, 0)
    }

    /// A vacuum cell: everything zero but the material.
    #[allow(non_snake_case)]
    pub fn VACUUM() -> (r: Cell)
        ensures
            r.fields() == (1u8, 0u8, 0u8, 0u8, 0i16, 0i16, 0i16, 0i16, 0i16, 0u8, 0u8, 0u8),
            r.reserved_clear(),
    {
        Cell::with_fields(1, 0, 0, 0, 0, 0, 0, 0, 0)
    }

    /// A stone cell.
    #[allow(non_snake_case)]
    pub fn STONE() -> (r: Cell)
        ensures
            r.fields() == (2u8, 1u8, 0u8, 0u8, 29300i16, 0i16, 0i16, 0i16, 0i16, 200u8, 200u8, 2u8),
            r.reserved_clear(),
    {
        Cell::with_fields(2, 1, 0, 0, 29300, 0, 200, 200, 2)
    }

    /// A water cell, saturated with liquid.
    #[allow(non_snake_case)]
    pub fn WATER() -> (r: Cell)
        ensures
            r.fields() == (5u8, 2u8, 255u8, 255u8, 29300i16, 10132i16, 0i16, 0i16, 0i16, 255u8, 200u8, 1u8),
            r.reserved_clear(),
    {
        Cell::with_fields(5, 2, 255, 255, 29300, 10132, 255, 200, 1)
    }

    /// A new cell of material `material` at 293.0 K and one atmosphere, with the
    /// flags, liquid amount, density and heat capacity of that material.
    pub fn new(material: Material) -> (r: Cell)
        ensures
            r.fields() == (
                material.code(),
                initial_flags(material),
                if material.fluid() { 255u8 } else { 0u8 },
                if material.fluid() { 255u8 } else { 0u8 },
                29300i16,
                10132i16,
                0i16,
                0i16,
                0i16,
                initial_density(material),
                initial_heat_capacity(material),
                0u8,
            ),
            r.reserved_clear(),
    {
        let mut flags = CellFlags::NONE();
        if material.is_solid() {
            flags = CellFlags::SOLID();
        } else if material.is_fluid() {
            flags = CellFlags::FLUID();
        } else if material.is_gas() {
            flags = CellFlags::GAS();
        }
        let density: u8 = match material {
            Material::Air => 10,
            Material::Vacuum => 0,
            Material::Water => 255,
            Material::Lava => 250,
            Material::Steam => 5,
            Material::Plasma => 2,
            _ => 128,
        };
        let heat_capacity: u8 = match material {
            Material::Water => 200,
            Material::Ice => 150,
            Material::Steam => 100,
            Material::Lava => 180,
            Material::Metal => 50,
            _ => 128,
        };
        let liquid: u8 = if material.is_fluid() { 255 } else { 0 };
        Cell::with_fields(
            material.to_u8(),
            flags.0,
            liquid,
            liquid,
            29300,
            10132,
            density,
            heat_capacity,
            0,
        )
    }

    /// The material named by the cell's byte code; an unknown code reads as air.
    pub fn get_material(&self) -> (r: Material)
        ensures
            r == Material::from_code(self.material),
    {
        match self.material {
            0 => Material::Air,
            1 => Material::Vacuum,
            2 => Material::Stone,
            3 => Material::Dirt,
            4 => Material::Sand,
            5 => Material::Water,
            6 => Material::Ice,
            7 => Material::Steam,
            8 => Material::Lava,
            9 => Material::Magma,
            10 => Material::Wood,
            11 => Material::Leaves,
            12 => Material::Metal,
            13 => Material::Plasma,
            _ => Material::Air,
        }
    }

    /// Sets the material and brings the solid, fluid and gas flags in line with
    /// it; every other flag bit and every other field stays.
    pub fn set_material(&mut self, material: Material)
        ensures
            final(self).material == material.code(),
            flag_bit(final(self).flags, 1) == material.solid(),
            flag_bit(final(self).flags, 2) == material.fluid(),
            flag_bit(final(self).flags, 4) == material.gas(),
            final(self).flags & 0xf8 == old(self).flags & 0xf8,
            ({
                let (_, _, a2, a3, a4, a5, a6, a7, a8, a9, a10, a11) = final(self).fields();
                let (_, _, b2, b3, b4, b5, b6, b7, b8, b9, b10, b11) = old(self).fields();
                (a2, a3, a4, a5, a6, a7, a8, a9, a10, a11) == (b2, b3, b4, b5, b6, b7, b8, b9, b10, b11)
            }),
            final(self).reserved() == old(self).reserved(),
    {
        self.material = material.to_u8();
        let ghost f0 = self.flags;
        let mut flags = CellFlags(self.flags);
        flags.set(CellFlags::SOLID(), material.is_solid());
        let ghost f1 = flags.0;
        flags.set(CellFlags::FLUID(), material.is_fluid());
        let ghost f2 = flags.0;
        flags.set(CellFlags::GAS(), material.is_gas());
        proof {
            assert(0xfeu8 & 1u8 == 0) by (bit_vector);
            lemma_set_then_has(f0, 1, material.solid(), 0xfe);
            assert(0xfdu8 & 2u8 == 0) by (bit_vector);
            lemma_set_then_has(f1, 2, material.fluid(), 0xfd);
            assert(0xfbu8 & 4u8 == 0) by (bit_vector);
            lemma_set_then_has(f2, 4, material.gas(), 0xfb);
            let f3 = flags.0;
            assert(f1 & 0xfe == f0 & 0xfe ==> f1 & 0xf8 == f0 & 0xf8) by (bit_vector);
            assert(f2 & 0xfd == f1 & 0xfd ==> (f2 & 0xf8 == f1 & 0xf8 && f2 & 1 == f1 & 1))
                by (bit_vector);
            assert(f3 & 0xfb == f2 & 0xfb ==> (f3 & 0xf8 == f2 & 0xf8 && f3 & 1 == f2 & 1
                && f3 & 2 == f2 & 2)) by (bit_vector);
        }
        self.flags = flags.0;
    }

    /// Sets the quantised temperature (0.01 K) and the HOT flag (above 373.0 K,
    /// that is above 37300) and COLD flag (below 273.0 K, below 27300); every
    /// other flag bit and field stays.
    ///
    /// The quantised temperature is an `i16`, so it never exceeds 32767
    /// (327.67 K): no value this setter takes sets HOT, and it always clears it.
    pub fn set_temperature_quantized(&mut self, temperature: i16)
        ensures
            final(self).temperature == temperature,
            flag_bit(final(self).flags, 8) == (temperature as int > 37300),
            flag_bit(final(self).flags, 16) == ((temperature as int) < 27300),
            final(self).flags & 0xe7 == old(self).flags & 0xe7,
            ({
                let (a0, _, a2, a3, _, a5, a6, a7, a8, a9, a10, a11) = final(self).fields();
                let (b0, _, b2, b3, _, b5, b6, b7, b8, b9, b10, b11) = old(self).fields();
                (a0, a2, a3, a5, a6, a7, a8, a9, a10, a11) == (b0, b2, b3, b5, b6, b7, b8, b9, b10, b11)
            }),
            final(self).reserved() == old(self).reserved(),
    {
        self.temperature = temperature;
        let ghost f0 = self.flags;
        let mut flags = CellFlags(self.flags);
        let hot = (self.temperature as i32) > 37300;
        flags.set(CellFlags::HOT(), hot);
        let ghost f1 = flags.0;
        flags.set(CellFlags::COLD(), (self.temperature as i32) < 27300);
        proof {
            assert(0xf7u8 & 8u8 == 0) by (bit_vector);
            lemma_set_then_has(f0, 8, hot, 0xf7);
            assert(0xefu8 & 16u8 == 0) by (bit_vector);
            lemma_set_then_has(f1, 16, (temperature as int) < 27300, 0xef);
            let f2 = flags.0;
            assert(f1 & 0xf7 == f0 & 0xf7 ==> f1 & 0xe7 == f0 & 0xe7) by (bit_vector);
            assert(f2 & 0xef == f1 & 0xef ==> (f2 & 0xe7 == f1 & 0xe7 && f2 & 8 == f1 & 8))
                by (bit_vector);
        }
        self.flags = flags.0;
    }

    /// Sets the quantised pressure (10 Pa) and the PRESSURIZED flag (above
    /// 200000 Pa); every other flag bit and field stays.
    pub fn set_pressure_quantized(&mut self, pressure: i16)
        ensures
            final(self).pressure == pressure,
            flag_bit(final(self).flags, 32) == (pressure > 20000),
            final(self).flags & 0xdf == old(self).flags & 0xdf,
            ({
                let (a0, _, a2, a3, a4, _, a6, a7, a8, a9, a10, a11) = final(self).fields();
                let (b0, _, b2, b3, b4, _, b6, b7, b8, b9, b10, b11) = old(self).fields();
                (a0, a2, a3, a4, a6, a7, a8, a9, a10, a11) == (b0, b2, b3, b4, b6, b7, b8, b9, b10, b11)
            }),
            final(self).reserved() == old(self).reserved(),
    {
        self.pressure = pressure;
        let ghost f0 = self.flags;
        let mut flags = CellFlags(self.flags);
        flags.set(CellFlags::PRESSURIZED(), self.pressure > 20000);
        proof {
            assert(0xdfu8 & 32u8 == 0) by (bit_vector);
            lemma_set_then_has(f0, 32, pressure > 20000, 0xdf);
        }
        self.flags = flags.0;
    }

    /// Sets the quantised velocity (0.01 m/s per component) and the MOVING flag
    /// (some component nonzero); every other flag bit and field stays.
    pub fn set_velocity_quantized(&mut self, vx: i16, vy: i16, vz: i16)
        ensures
            final(self).velocity_x == vx,
            final(self).velocity_y == vy,
            final(self).velocity_z == vz,
            flag_bit(final(self).flags, 64) == (vx != 0 || vy != 0 || vz != 0),
            final(self).flags & 0xbf == old(self).flags & 0xbf,
            ({
                let (a0, _, a2, a3, a4, a5, _, _, _, a9, a10, a11) = final(self).fields();
                let (b0, _, b2, b3, b4, b5, _, _, _, b9, b10, b11) = old(self).fields();
                (a0, a2, a3, a4, a5, a9, a10, a11) == (b0, b2, b3, b4, b5, b9, b10, b11)
            }),
            final(self).reserved() == old(self).reserved(),
    {
        self.velocity_x = vx;
        self.velocity_y = vy;
        self.velocity_z = vz;
        let has_velocity = self.velocity_x != 0 || self.velocity_y != 0 || self.velocity_z != 0;
        let ghost f0 = self.flags;
        let mut flags = CellFlags(self.flags);
        flags.set(CellFlags::MOVING(), has_velocity);
        proof {
            assert(0xbfu8 & 64u8 == 0) by (bit_vector);
            lemma_set_then_has(f0, 64, has_velocity, 0xbf);
        }
        self.flags = flags.0;
    }

    /// Air or vacuum.
    pub fn is_empty(&self) -> (r: bool)
        ensures
            r == (self.material <= 1),
    {
        self.material <= Material::Vacuum.to_u8()
    }

    /// The SOLID flag is set.
    pub fn is_solid(&self) -> (r: bool)
        ensures
            r == flag_bit(self.flags, 1),
    {
        CellFlags(self.flags).has(CellFlags::SOLID())
    }

    /// The FLUID flag is set.
    pub fn is_fluid(&self) -> (r: bool)
        ensures
            r == flag_bit(self.flags, 2),
    {
        CellFlags(self.flags).has(CellFlags::FLUID())
    }

    /// The GAS flag is set.
    pub fn is_gas(&self) -> (r: bool)
        ensures
            r == flag_bit(self.flags, 4),
    {
        CellFlags(self.flags).has(CellFlags::GAS())
    }

    /// The MOVING flag is set.
    pub fn is_moving(&self) -> (r: bool)
        ensures
            r == flag_bit(self.flags, 64),
    {
        CellFlags(self.flags).has(CellFlags::MOVING())
    }

    /// The PHASE_SOLID flag is set.
    pub fn is_phase_solid(&self) -> (r: bool)
        ensures
            r == flag_bit(self.flags, 128),
    {
        CellFlags(self.flags).has(CellFlags::PHASE_SOLID())
    }

    /// Squared magnitude of the quantised velocity.
    pub fn velocity_squared(&self) -> (r: i32)
        requires
            self.velocity_x * self.velocity_x + self.velocity_y * self.velocity_y
                + self.velocity_z * self.velocity_z <= i32::MAX,
        ensures
            r == self.velocity_x * self.velocity_x + self.velocity_y * self.velocity_y
                + self.velocity_z * self.velocity_z,
    {
        let x = self.velocity_x as i32;
        let y = self.velocity_y as i32;
        let z = self.velocity_z as i32;
        proof {
            assert(0 <= x * x <= 0x4000_0000) by (nonlinear_arith)
                requires -32768 <= x <= 32767;
            assert(0 <= y * y <= 0x4000_0000) by (nonlinear_arith)
                requires -32768 <= y <= 32767;
            assert(0 <= z * z <= 0x4000_0000) by (nonlinear_arith)
                requires -32768 <= z <= 32767;
        }
        x * x + y * y + z * z
    }
}

impl Default for Cell {
    fn default() -> (r: Self)
        ensures
            r.is_default_air(),
    {
        Cell::AIR()
    }
}

/// A new cell's flags name its material's state: the solid, fluid and gas bits
/// agree with the material, at most one of them is set, and no other bit is.
pub proof fn lemma_initial_flags(m: Material)
    ensures
        flag_bit(initial_flags(m), 1) == m.solid(),
        flag_bit(initial_flags(m), 2) == m.fluid(),
        flag_bit(initial_flags(m), 4) == m.gas(),
        initial_flags(m) & 0xf8 == 0,
{
    assert(1u8 & 1u8 != 0 && 1u8 & 2u8 == 0 && 1u8 & 4u8 == 0 && 1u8 & 0xf8u8 == 0) by (bit_vector);
    assert(2u8 & 1u8 == 0 && 2u8 & 2u8 != 0 && 2u8 & 4u8 == 0 && 2u8 & 0xf8u8 == 0) by (bit_vector);
    assert(4u8 & 1u8 == 0 && 4u8 & 2u8 == 0 && 4u8 & 4u8 != 0 && 4u8 & 0xf8u8 == 0) by (bit_vector);
    assert(0u8 & 1u8 == 0 && 0u8 & 2u8 == 0 && 0u8 & 4u8 == 0 && 0u8 & 0xf8u8 == 0) by (bit_vector);
}

/// Byte codes and materials correspond one to one: decoding a material's code
/// gives the material back.
pub proof fn lemma_material_code_roundtrip(m: Material)
    ensures
        Material::from_code(m.code()) == m,
        m.code() <= 13,
{
}

/// The material table: each material's byte code (its place in the list,
/// air 0 to plasma 13), its state (solid: stone, dirt, sand, ice, magma, wood,
/// metal; fluid: water, lava; gas: steam, plasma; air, vacuum and leaves
/// none), and the density and heat capacity a new cell of it starts with
/// (density 10 for air, 0 vacuum, 255 water, 250 lava, 5 steam, 2 plasma, 128
/// otherwise; heat capacity 200 for water, 150 ice, 100 steam, 180 lava, 50
/// metal, 128 otherwise).
pub proof fn lemma_material_table(m: Material)
    ensures
        m.code() == match m {
            Material::Air => 0u8,
            Material::Vacuum => 1,
            Material::Stone => 2,
            Material::Dirt => 3,
            Material::Sand => 4,
            Material::Water => 5,
            Material::Ice => 6,
            Material::Steam => 7,
            Material::Lava => 8,
            Material::Magma => 9,
            Material::Wood => 10,
            Material::Leaves => 11,
            Material::Metal => 12,
            Material::Plasma => 13,
        },
        m.solid() <==> (m == Material::Stone || m == Material::Dirt || m == Material::Sand
            || m == Material::Ice || m == Material::Magma || m == Material::Wood || m == Material::Metal),
        m.fluid() <==> (m == Material::Water || m == Material::Lava),
        m.gas() <==> (m == Material::Steam || m == Material::Plasma),
        m == Material::Air ==> initial_density(m) == 10,
        m == Material::Vacuum ==> initial_density(m) == 0,
        m == Material::Water ==> initial_density(m) == 255,
        m == Material::Lava ==> initial_density(m) == 250,
        m == Material::Steam ==> initial_density(m) == 5,
        m == Material::Plasma ==> initial_density(m) == 2,
        m != Material::Air && m != Material::Vacuum && m != Material::Water && m != Material::Lava
            && m != Material::Steam && m != Material::Plasma ==> initial_density(m) == 128,
        m == Material::Water ==> initial_heat_capacity(m) == 200,
        m == Material::Ice ==> initial_heat_capacity(m) == 150,
        m == Material::Steam ==> initial_heat_capacity(m) == 100,
        m == Material::Lava ==> initial_heat_capacity(m) == 180,
        m == Material::Metal ==> initial_heat_capacity(m) == 50,
        m != Material::Water && m != Material::Ice && m != Material::Steam && m != Material::Lava
            && m != Material::Metal ==> initial_heat_capacity(m) == 128,
{
}

} // verus!
