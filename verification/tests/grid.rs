use redstone_rust::chunks::block::{Orientation, SignalType};
use redstone_rust::grid::redstone::{
    get_next, get_power_update_value, get_prev_signal, get_signal_type, orient_port,
    place_redstone, redstone_torch_delayed_listener, repeater_listener, set_power, set_power_to_0,
    Redstone, RedstoneKind,
};
use redstone_rust::grid::debug::debug_map;
use redstone_rust::grid::texture::{cell_sprite, get_state};
use redstone_rust::grid::{
    set_cell, Block, BlockKind, EventListener, GridMap, Mechanism, MechanismKind, TextureName,
    WorldMap, MAP_SIZE,
};

fn empty_map() -> GridMap {
    [[None; 16]; 16]
}

fn redstone_cell(signal: u8, kind: RedstoneKind, inputs: [bool; 4], outputs: [bool; 4], t: TextureName) -> Block {
    Block {
        movable: true,
        orientation: Orientation::Up,
        texture_name: t,
        kind: BlockKind::Redstone(Redstone { signal, input_ports: inputs, output_ports: outputs, kind }),
    }
}

fn dust(signal: u8) -> Block {
    redstone_cell(signal, RedstoneKind::Block, [true; 4], [true; 4], TextureName::RedstoneDust(signal > 0))
}

fn torch(signal: u8) -> Block {
    redstone_cell(
        signal,
        RedstoneKind::Torch,
        [false, false, true, false],
        [true, true, false, true],
        TextureName::RedstoneTorch(signal > 0),
    )
}

fn repeater(tick: i16, countdown: i16, signal: u8) -> Block {
    redstone_cell(
        signal,
        RedstoneKind::Repeater { tick, countdown },
        [false, false, true, false],
        [true, false, false, false],
        TextureName::Repeater(signal > 0),
    )
}

fn opaque() -> Block {
    Block {
        movable: true,
        orientation: Orientation::Up,
        texture_name: TextureName::Dirt,
        kind: BlockKind::Opaque { strong_signal: 0, weak_signal: 0 },
    }
}

fn piston() -> Block {
    Block {
        movable: true,
        orientation: Orientation::Up,
        texture_name: TextureName::Piston { extended: false },
        kind: BlockKind::Mechanism(Mechanism {
            kind: MechanismKind::Piston,
            input_ports: [true; 4],
            signal: 0,
        }),
    }
}

fn signal_at(map: &GridMap, x: usize, y: usize) -> u8 {
    match map[x][y].unwrap().kind {
        BlockKind::Redstone(r) => r.signal,
        BlockKind::Mechanism(m) => m.signal,
        BlockKind::Opaque { .. } => panic!("opaque block"),
    }
}

#[test]
fn grid_is_sixteen_square() {
    assert_eq!(MAP_SIZE, (16, 16));
}

#[test]
fn signal_types_of_sources() {
    assert_eq!(get_signal_type(RedstoneKind::Torch), SignalType::Strong(true));
    assert_eq!(
        get_signal_type(RedstoneKind::Repeater { tick: 1, countdown: -1 }),
        SignalType::Strong(true)
    );
    assert_eq!(get_signal_type(RedstoneKind::Block), SignalType::Weak(true));
}

#[test]
fn orient_port_turns_clockwise() {
    let p = [true, false, false, false];
    assert_eq!(orient_port(Orientation::Up, p), [true, false, false, false]);
    assert_eq!(orient_port(Orientation::Right, p), [false, true, false, false]);
    assert_eq!(orient_port(Orientation::Down, p), [false, false, true, false]);
    assert_eq!(orient_port(Orientation::Left, p), [false, false, false, true]);
}

#[test]
fn place_redstone_orients_both_port_sets() {
    let r = place_redstone(7, Orientation::Down, RedstoneKind::Torch, [false, false, true, false], [true, true, false, true]);
    assert_eq!(r.signal, 7);
    assert_eq!(r.kind, RedstoneKind::Torch);
    assert_eq!(r.input_ports, [true, false, false, false]);
    assert_eq!(r.output_ports, [false, true, true, true]);
}

#[test]
fn power_update_values() {
    assert_eq!(get_power_update_value(RedstoneKind::Block, 5, 9), 9);
    assert_eq!(get_power_update_value(RedstoneKind::Block, 9, 5), 9);
    assert_eq!(get_power_update_value(RedstoneKind::Torch, 3, 0), 16);
    assert_eq!(get_power_update_value(RedstoneKind::Torch, 3, 4), 3);
    assert_eq!(get_power_update_value(RedstoneKind::Repeater { tick: 1, countdown: 0 }, 2, 9), 2);
}

#[test]
fn next_cells_need_matching_input_ports() {
    let mut map = empty_map();
    set_cell(&mut map, 1, 1, Some(dust(0)));
    set_cell(&mut map, 0, 1, Some(dust(0)));
    set_cell(&mut map, 1, 2, Some(torch(16)));
    set_cell(&mut map, 2, 1, Some(opaque()));
    set_cell(&mut map, 1, 0, Some(piston()));
    assert_eq!(get_next(&map, 1, 1, [true; 4]), vec![(0, 1), (2, 1), (1, 0)]);
    assert_eq!(get_next(&map, 1, 1, [false, false, true, false]), vec![(2, 1)]);
    assert_eq!(get_next(&map, 0, 1, [true; 4]), vec![(1, 1)]);
    assert_eq!(get_next(&map, 15, 15, [true; 4]), Vec::<(usize, usize)>::new());
}

#[test]
fn previous_signal_is_strongest_input() {
    let mut map = empty_map();
    set_cell(&mut map, 1, 1, Some(dust(0)));
    set_cell(&mut map, 0, 1, Some(dust(9)));
    set_cell(&mut map, 1, 0, Some(torch(16)));
    set_cell(
        &mut map,
        2,
        1,
        Some(Block { kind: BlockKind::Opaque { strong_signal: 0, weak_signal: 12 }, ..opaque() }),
    );
    assert_eq!(get_prev_signal(&map, 1, 1, [true; 4]), (15, Some(SignalType::Strong(true))));
    assert_eq!(get_prev_signal(&map, 1, 1, [true, false, true, false]), (11, Some(SignalType::Weak(false))));
    assert_eq!(get_prev_signal(&map, 1, 1, [true, false, false, false]), (8, Some(SignalType::Weak(true))));
    assert_eq!(get_prev_signal(&map, 5, 5, [true; 4]), (0, None));
}

#[test]
fn power_spreads_along_redstone_blocks() {
    let mut map = empty_map();
    for y in 0..3 {
        set_cell(&mut map, 0, y, Some(dust(0)));
    }
    let mut l = EventListener::new();
    set_power(&mut map, 0, 0, 16, Some(SignalType::Weak(true)), &mut l);
    assert_eq!(signal_at(&map, 0, 0), 16);
    assert_eq!(signal_at(&map, 0, 1), 15);
    assert_eq!(signal_at(&map, 0, 2), 14);
    assert_eq!(map[0][2].unwrap().texture_name, TextureName::RedstoneDust(true));
    assert_eq!(
        l.entity_map_update.to_vec(),
        vec![((0, 0), false), ((0, 1), false), ((0, 2), false)]
    );

    set_power_to_0(&mut map, 0, 0, Some(SignalType::Weak(true)), 17, &mut l);
    for y in 0..3 {
        assert_eq!(signal_at(&map, 0, y), 0);
        assert_eq!(map[0][y].unwrap().texture_name, TextureName::RedstoneDust(false));
    }
    assert_eq!(l.entity_map_update.to_vec().len(), 3);
}

#[test]
fn power_to_zero_keeps_stronger_signal() {
    let mut map = empty_map();
    set_cell(&mut map, 3, 3, Some(dust(10)));
    let mut l = EventListener::new();
    set_power_to_0(&mut map, 3, 3, Some(SignalType::Weak(true)), 5, &mut l);
    assert_eq!(signal_at(&map, 3, 3), 10);
    assert!(l.entity_map_update.to_vec().is_empty());
}

#[test]
fn opaque_block_carries_strong_and_weak_signals() {
    let mut map = empty_map();
    set_cell(&mut map, 1, 1, Some(opaque()));
    set_cell(&mut map, 1, 2, Some(dust(0)));
    let mut l = EventListener::new();
    set_power(&mut map, 1, 1, 10, Some(SignalType::Strong(true)), &mut l);
    assert_eq!(map[1][1].unwrap().kind, BlockKind::Opaque { strong_signal: 10, weak_signal: 8 });
    assert_eq!(signal_at(&map, 1, 2), 9);
}

#[test]
fn mechanism_records_its_power() {
    let mut map = empty_map();
    set_cell(&mut map, 2, 2, Some(piston()));
    let mut l = EventListener::new();
    set_power(&mut map, 2, 2, 5, Some(SignalType::Weak(true)), &mut l);
    assert_eq!(signal_at(&map, 2, 2), 5);
    assert_eq!(l.mechanism_state.get((2, 2)), Some(true));
    set_power_to_0(&mut map, 2, 2, None, 6, &mut l);
    assert_eq!(signal_at(&map, 2, 2), 0);
    assert_eq!(l.mechanism_state.get((2, 2)), Some(false));
}

#[test]
fn powered_torch_turns_off_on_next_tick() {
    let mut world = WorldMap(empty_map());
    set_cell(&mut world.0, 0, 0, Some(torch(16)));
    set_cell(&mut world.0, 0, 1, Some(dust(15)));
    let mut l = EventListener::new();
    set_power(&mut world.0, 0, 0, 5, Some(SignalType::Weak(true)), &mut l);
    assert_eq!(signal_at(&world.0, 0, 0), 16);
    assert_eq!(l.redstone_state.get((0, 0)), Some((false, 20, None)));

    redstone_torch_delayed_listener(&mut l, &mut world);
    assert_eq!(signal_at(&world.0, 0, 0), 0);
    assert_eq!(world.0[0][0].unwrap().texture_name, TextureName::RedstoneTorch(false));
    assert_eq!(signal_at(&world.0, 0, 1), 0);
    assert!(l.redstone_state.to_vec().is_empty());

    set_power(&mut world.0, 0, 0, 0, None, &mut l);
    assert_eq!(signal_at(&world.0, 0, 0), 16);
    assert_eq!(world.0[0][0].unwrap().texture_name, TextureName::RedstoneTorch(true));
    assert_eq!(signal_at(&world.0, 0, 1), 15);
}

#[test]
fn repeater_waits_its_ticks() {
    let mut world = WorldMap(empty_map());
    set_cell(&mut world.0, 1, 0, Some(repeater(2, -1, 0)));
    set_cell(&mut world.0, 0, 0, Some(dust(0)));
    let mut l = EventListener::new();
    l.repeater_state.insert((1, 0), true);

    repeater_listener(&mut l, &mut world);
    assert_eq!(world.0[1][0].unwrap().kind, repeater(2, 1, 0).kind);
    repeater_listener(&mut l, &mut world);
    assert_eq!(world.0[1][0].unwrap().kind, repeater(2, 0, 0).kind);
    assert!(l.redstone_state.to_vec().is_empty());
    repeater_listener(&mut l, &mut world);
    assert_eq!(world.0[1][0].unwrap().kind, repeater(2, -1, 0).kind);
    assert_eq!(l.redstone_state.get((1, 0)), Some((true, 20, None)));

    redstone_torch_delayed_listener(&mut l, &mut world);
    assert_eq!(signal_at(&world.0, 1, 0), 16);
    assert_eq!(world.0[1][0].unwrap().texture_name, TextureName::Repeater(true));
    assert_eq!(signal_at(&world.0, 0, 0), 15);

    repeater_listener(&mut l, &mut world);
    assert_eq!(l.repeater_state.get((1, 0)), None);
    assert_eq!(world.0[1][0].unwrap().kind, repeater(2, -1, 16).kind);
}

#[test]
fn sprite_state_of_blocks() {
    assert_eq!(get_state(torch(16)), 1);
    assert_eq!(get_state(torch(0)), 0);
    assert_eq!(get_state(dust(7)), 7);
    assert_eq!(get_state(repeater(3, -1, 16)), 7);
    assert_eq!(get_state(repeater(3, -1, 0)), 6);
    let extended = Block {
        kind: BlockKind::Mechanism(Mechanism {
            kind: MechanismKind::ExtendedPiston,
            input_ports: [true; 4],
            signal: 0,
        }),
        ..piston()
    };
    assert_eq!(get_state(extended), 1);
    assert_eq!(get_state(piston()), 0);
    assert_eq!(get_state(opaque()), 0);
}

#[test]
fn signals_keep_block_shapes() {
    let mut map = empty_map();
    set_cell(&mut map, 4, 4, Some(torch(0)));
    set_cell(&mut map, 4, 5, Some(dust(0)));
    set_cell(&mut map, 5, 5, Some(opaque()));
    set_cell(&mut map, 3, 5, Some(piston()));
    let before = map;
    let mut l = EventListener::new();
    set_power(&mut map, 4, 4, 0, None, &mut l);
    set_power_to_0(&mut map, 4, 4, None, 20, &mut l);
    for x in 0..16 {
        for y in 0..16 {
            assert_eq!(map[x][y].is_some(), before[x][y].is_some());
            if let (Some(a), Some(b)) = (map[x][y], before[x][y]) {
                assert_eq!(a.orientation, b.orientation);
                assert_eq!(a.movable, b.movable);
            }
        }
    }
    assert_eq!(signal_at(&map, 4, 4), 0);
}

#[test]
fn cell_sprites() {
    assert_eq!(cell_sprite(None), (TextureName::Air, 0, 0));
    let t = Block { orientation: Orientation::Right, ..torch(16) };
    assert_eq!(cell_sprite(Some(t)), (TextureName::RedstoneTorch(true), 1, 3));
    let r = Block { orientation: Orientation::Left, ..repeater(2, -1, 0) };
    assert_eq!(cell_sprite(Some(r)), (TextureName::Repeater(false), 4, 1));
    assert_eq!(cell_sprite(Some(dust(9))), (TextureName::RedstoneDust(true), 9, 0));
}

#[test]
fn debug_map_shows_signals() {
    let mut map = empty_map();
    set_cell(&mut map, 0, 0, Some(dust(7)));
    set_cell(&mut map, 3, 4, Some(Block { kind: BlockKind::Opaque { strong_signal: 5, weak_signal: 2 }, ..opaque() }));
    set_cell(&mut map, 9, 9, Some(piston()));
    let d = debug_map(&map);
    assert_eq!(d[0][0], (7, 0));
    assert_eq!(d[3][4], (5, 2));
    assert_eq!(d[9][9], (0, 0));
    assert_eq!(d[15][15], (0, 0));
}
