use torxel_engine::voxel::cell::{Cell, CellFlags, Material, CELL_SIZE};

#[test]
fn test_cell_size() {
    assert_eq!(std::mem::size_of::<Cell>(), 48);
}

#[test]
fn cell_size_constant_is_the_layout_size() {
    assert_eq!(CELL_SIZE, std::mem::size_of::<Cell>());
}

#[test]
fn test_excell_liquid() {
    let water = Cell::WATER();
    assert_eq!(water.excell_liquid, 255);

    let air = Cell::AIR();
    assert_eq!(air.excell_liquid, 0);
}

#[test]
fn test_cell_default() {
    let cell = Cell::default();
    assert_eq!(cell.get_material(), Material::Air);
    assert!(!cell.is_solid());
}

#[test]
fn test_cell_material() {
    let mut cell = Cell::new(Material::Stone);
    assert!(cell.is_solid());

    cell.set_material(Material::Water);
    assert!(cell.is_fluid());
    assert!(!cell.is_solid());
}

#[test]
fn test_velocity_squared() {
    let mut cell = Cell::default();
    // 1, 2 and 3 m/s in units of 0.01 m/s
    cell.set_velocity_quantized(100, 200, 300);
    assert_eq!(cell.velocity_squared(), 140000);
}

#[test]
fn material_predicates_partition_the_materials() {
    use_all();
}

fn use_all() {
    type M = Material;
    let all = [
        M::Air, M::Vacuum, M::Stone, M::Dirt, M::Sand, M::Water, M::Ice, M::Steam, M::Lava,
        M::Magma, M::Wood, M::Leaves, M::Metal, M::Plasma,
    ];
    let solid = [M::Stone, M::Dirt, M::Sand, M::Ice, M::Magma, M::Wood, M::Metal];
    let fluid = [M::Water, M::Lava];
    let gas = [M::Steam, M::Plasma];
    let phase = [M::Water, M::Ice, M::Steam, M::Lava, M::Magma];
    for (code, m) in all.iter().enumerate() {
        assert_eq!(m.to_u8() as usize, code);
        assert_eq!(m.is_solid(), solid.contains(m));
        assert_eq!(m.is_fluid(), fluid.contains(m));
        assert_eq!(m.is_gas(), gas.contains(m));
        assert_eq!(m.can_change_phase(), phase.contains(m));
        let cell = Cell::new(*m);
        assert_eq!(cell.get_material(), *m);
        assert_eq!(cell.is_solid(), m.is_solid());
        assert_eq!(cell.is_fluid(), m.is_fluid());
        assert_eq!(cell.is_gas(), m.is_gas());
    }
    assert_eq!(Material::default(), M::Air);
}

#[test]
fn unknown_material_code_reads_as_air() {
    let mut cell = Cell::STONE();
    cell.material = 200;
    assert_eq!(cell.get_material(), Material::Air);
    assert!(!cell.is_empty());
}

#[test]
fn new_cell_properties_follow_the_material() {
    let water = Cell::new(Material::Water);
    assert_eq!((water.excell_liquid, water.fluid_depth), (255, 255));
    assert_eq!((water.density, water.heat_capacity), (255, 200));
    assert_eq!(water.flags, 2);
    let lava = Cell::new(Material::Lava);
    assert_eq!((lava.density, lava.heat_capacity), (250, 180));
    let air = Cell::new(Material::Air);
    assert_eq!((air.density, air.flags, air.excell_liquid), (10, 0, 0));
    let metal = Cell::new(Material::Metal);
    assert_eq!((metal.density, metal.heat_capacity, metal.flags), (128, 50, 1));
    let steam = Cell::new(Material::Steam);
    assert_eq!((steam.density, steam.heat_capacity, steam.flags), (5, 100, 4));
    assert_eq!((steam.temperature, steam.pressure), (29300, 10132));
    assert!(steam._padding.iter().all(|b| *b == 0));
}

#[test]
fn empty_cells_are_air_and_vacuum() {
    assert!(Cell::AIR().is_empty());
    assert!(Cell::VACUUM().is_empty());
    assert!(!Cell::STONE().is_empty());
    assert!(!Cell::WATER().is_empty());
    assert_eq!(Cell::VACUUM().density, 0);
    assert_eq!(Cell::STONE().phase_state, 2);
}

#[test]
fn flag_set_then_has() {
    let mut flags = CellFlags(0b1010_0101);
    flags.set(CellFlags::HOT(), true);
    assert!(flags.has(CellFlags::HOT()));
    assert_eq!(flags.0, 0b1010_1101);
    flags.set(CellFlags::SOLID(), false);
    assert!(!flags.has(CellFlags::SOLID()));
    assert_eq!(flags.0, 0b1010_1100);
    assert!(!flags.has(CellFlags::NONE()));
    assert_eq!(CellFlags::PHASE_SOLID().0, 128);
}

#[test]
fn set_material_keeps_other_flags() {
    let mut cell = Cell::STONE();
    cell.flags |= CellFlags::MOVING().0 | CellFlags::HOT().0;
    cell.set_material(Material::Steam);
    assert!(cell.is_gas() && !cell.is_solid() && !cell.is_fluid());
    assert!(cell.is_moving());
    assert_eq!(cell.flags, 4 | 64 | 8);
    assert_eq!(cell.density, 200);
}

#[test]
fn quantized_setters_update_their_flags() {
    let mut cell = Cell::AIR();
    cell.flags |= CellFlags::HOT().0;
    cell.set_temperature_quantized(i16::MAX);
    assert!(!CellFlags(cell.flags).has(CellFlags::HOT()));
    assert!(!CellFlags(cell.flags).has(CellFlags::COLD()));
    cell.set_temperature_quantized(27299);
    assert!(!CellFlags(cell.flags).has(CellFlags::HOT()));
    assert!(CellFlags(cell.flags).has(CellFlags::COLD()));
    cell.set_temperature_quantized(27300);
    assert_eq!(cell.flags & (8 | 16), 0);
    assert_eq!(cell.temperature, 27300);
    // 293.15 K is neither hot nor cold.
    cell.set_temperature_quantized(29315);
    assert_eq!(cell.flags & (8 | 16), 0);
    cell.set_temperature_quantized(-5);
    assert!(CellFlags(cell.flags).has(CellFlags::COLD()));

    cell.set_pressure_quantized(20001);
    assert!(CellFlags(cell.flags).has(CellFlags::PRESSURIZED()));
    cell.set_pressure_quantized(20000);
    assert!(!CellFlags(cell.flags).has(CellFlags::PRESSURIZED()));

    cell.set_velocity_quantized(0, -1, 0);
    assert!(cell.is_moving());
    cell.set_velocity_quantized(0, 0, 0);
    assert!(!cell.is_moving());
    assert!(!cell.is_phase_solid());
}
