use redstone_rust::chunks::block::mechanism::{execute_mechanism, get_power, move_blocks};
use redstone_rust::chunks::block::redstone::{
    get_max_prev, get_redstone_dust, is_redstone, propagate_signal_at, update_dust_ports,
};
use redstone_rust::chunks::block::{Block, MechanismKind, Orientation, Redstone, RedstoneKind, SignalType};
use redstone_rust::chunks::events::{EventListeners, PosSet, PropagationEntry, PropagationQueue};
use redstone_rust::chunks::{alert_neighbours, destroy, place, BlockCatalog, Chunks};
use redstone_rust::texture::TextureName;

fn plain(t: TextureName) -> Block {
    Block {
        movable: true,
        sticky: false,
        orientation: Orientation::Up,
        texture_name: t,
        symmetric: true,
        redstone: None,
        mechanism: None,
    }
}

fn redstone(
    signal: u8,
    signal_type: Option<SignalType>,
    kind: RedstoneKind,
    input_ports: [bool; 4],
    output_ports: [bool; 4],
) -> Option<Redstone> {
    Some(Redstone {
        signal,
        signal_type,
        is_redstone_component: true,
        kind: Some(kind),
        signal_type_port_mapping: [None; 4],
        input_ports,
        output_ports,
    })
}

fn dust() -> Block {
    Block {
        redstone: redstone(0, None, RedstoneKind::Dust, [true; 4], [true; 4]),
        ..plain(TextureName::RedstoneDust)
    }
}

fn redstone_block() -> Block {
    Block {
        redstone: redstone(16, Some(SignalType::Weak(true)), RedstoneKind::Block, [false; 4], [true; 4]),
        ..plain(TextureName::RedstoneBlock)
    }
}

fn torch() -> Block {
    Block {
        symmetric: false,
        redstone: redstone(
            16,
            Some(SignalType::Strong(true)),
            RedstoneKind::Mechanism,
            [false, false, true, false],
            [true, true, false, true],
        ),
        mechanism: Some(MechanismKind::RedstoneTorch),
        ..plain(TextureName::RedstoneTorch)
    }
}

fn piston(sticky: bool) -> Block {
    Block {
        symmetric: false,
        mechanism: Some(MechanismKind::Piston { extended: false, sticky }),
        ..plain(if sticky { TextureName::StickyPiston } else { TextureName::Piston })
    }
}

fn repeater(countdown: i8, tick: i8) -> Block {
    Block {
        symmetric: false,
        redstone: redstone(
            0,
            Some(SignalType::Strong(true)),
            RedstoneKind::Mechanism,
            [false, false, true, false],
            [true, false, false, false],
        ),
        mechanism: Some(MechanismKind::Repeater { countdown, tick }),
        ..plain(TextureName::Repeater)
    }
}

fn observer() -> Block {
    Block {
        symmetric: false,
        redstone: redstone(
            0,
            Some(SignalType::Strong(true)),
            RedstoneKind::Mechanism,
            [false; 4],
            [false, false, true, false],
        ),
        mechanism: Some(MechanismKind::Observer),
        ..plain(TextureName::Observer)
    }
}

fn slime() -> Block {
    Block { sticky: true, ..plain(TextureName::SlimeBlock) }
}

fn glass() -> Block {
    Block { movable: false, ..plain(TextureName::Glass) }
}

fn catalog() -> BlockCatalog {
    let mut cat = BlockCatalog::new();
    for t in TextureName::iter() {
        cat.insert(t, plain(t));
    }
    cat.insert(TextureName::RedstoneDust, dust());
    cat.insert(TextureName::RedstoneBlock, redstone_block());
    cat.insert(TextureName::RedstoneTorch, torch());
    cat.insert(TextureName::Piston, piston(false));
    cat.insert(TextureName::StickyPiston, piston(true));
    cat.insert(TextureName::Repeater, repeater(-1, 2));
    cat.insert(TextureName::Observer, observer());
    cat.insert(TextureName::SlimeBlock, slime());
    cat.insert(TextureName::Glass, glass());
    cat.insert(
        TextureName::PistonHead,
        Block { movable: false, symmetric: false, ..plain(TextureName::PistonHead) },
    );
    cat.insert(
        TextureName::StickyPistonHead,
        Block { movable: false, symmetric: false, ..plain(TextureName::StickyPistonHead) },
    );
    cat
}

struct World {
    chunks: Chunks,
    listeners: EventListeners,
    queue: PropagationQueue,
    calculations: u32,
    catalog: BlockCatalog,
}

impl World {
    fn new() -> World {
        World {
            chunks: Chunks::new(),
            listeners: EventListeners::new(),
            queue: PropagationQueue::new(),
            calculations: 0,
            catalog: catalog(),
        }
    }

    fn place(&mut self, blk: Block, o: Orientation, x: i128, y: i128) -> bool {
        place(
            &mut self.chunks,
            blk,
            o,
            x,
            y,
            &mut self.listeners,
            &mut self.queue,
            &mut self.calculations,
            &self.catalog,
        )
    }

    fn destroy(&mut self, x: i128, y: i128) -> bool {
        destroy(&mut self.chunks, x, y, &mut self.listeners, &mut self.queue, &mut self.calculations)
    }

    fn execute(&mut self, x: i128, y: i128, on: bool) {
        execute_mechanism(
            &mut self.chunks,
            x,
            y,
            on,
            &mut self.listeners,
            &mut self.queue,
            &mut self.calculations,
            &self.catalog,
        )
    }

    fn at(&mut self, x: i128, y: i128) -> Option<Block> {
        self.chunks.get_block(x, y)
    }

    fn rs(&mut self, x: i128, y: i128) -> Redstone {
        self.at(x, y).unwrap().redstone.unwrap()
    }
}

#[test]
fn placing_dust_alone_keeps_it_dark() {
    let mut w = World::new();
    assert!(w.place(dust(), Orientation::Right, 0, 1));
    assert_eq!(w.at(0, 1), Some(dust()));
    assert_eq!(w.calculations, 0);
}

#[test]
fn redstone_block_powers_adjacent_dust() {
    let mut w = World::new();
    assert!(w.place(dust(), Orientation::Up, 0, 1));
    assert!(w.place(redstone_block(), Orientation::Up, 0, 0));
    let rs = w.rs(0, 1);
    assert_eq!(rs.signal, 15);
    assert_eq!(rs.signal_type, Some(SignalType::Weak(false)));
    assert_eq!(rs.output_ports, [false, true, false, true]);
    assert_eq!(w.rs(0, 0).signal, 16);
    assert_eq!(w.calculations, 3);
    assert!(w.listeners.entity_map_update.contains((0, 1)));
    assert!(w.listeners.entity_map_update.contains((0, 0)));
}

#[test]
fn weak_dust_signal_does_not_reach_further_dust() {
    let mut w = World::new();
    assert!(w.place(dust(), Orientation::Up, 0, 1));
    assert!(w.place(dust(), Orientation::Up, 0, 2));
    assert!(w.place(redstone_block(), Orientation::Up, 0, 0));
    assert_eq!(w.rs(0, 1).signal, 15);
    assert_eq!(w.rs(0, 2).signal, 0);
    assert_eq!(w.rs(0, 2).signal_type, None);
    assert_eq!(w.calculations, 3);
}

#[test]
fn place_on_occupied_cell_is_refused() {
    let mut w = World::new();
    assert!(w.place(plain(TextureName::Dirt), Orientation::Up, 3, 3));
    w.calculations = 7;
    assert!(!w.place(redstone_block(), Orientation::Up, 3, 3));
    assert_eq!(w.at(3, 3), Some(plain(TextureName::Dirt)));
    assert_eq!(w.calculations, 7);
}

#[test]
fn placed_block_comes_from_catalog_and_turns() {
    let mut w = World::new();
    let asked = Block { movable: false, ..torch() };
    assert!(w.place(asked, Orientation::Right, 5, 5));
    let b = w.at(5, 5).unwrap();
    assert!(b.movable);
    assert_eq!(b.orientation, Orientation::Right);
    let rs = b.redstone.unwrap();
    assert_eq!(rs.input_ports, [false, false, false, true]);
    assert_eq!(rs.output_ports, [true, true, true, false]);
}

#[test]
fn symmetric_blocks_always_face_up() {
    let mut w = World::new();
    assert!(w.place(plain(TextureName::Dirt), Orientation::Left, 8, 8));
    assert_eq!(w.at(8, 8).unwrap().orientation, Orientation::Up);
}

#[test]
fn destroying_source_unpowers_dust() {
    let mut w = World::new();
    w.place(dust(), Orientation::Up, 0, 1);
    w.place(redstone_block(), Orientation::Up, 0, 0);
    assert!(w.destroy(0, 0));
    assert_eq!(w.at(0, 0), None);
    let rs = w.rs(0, 1);
    assert_eq!(rs.signal, 0);
    assert_eq!(rs.signal_type, None);
    assert_eq!(rs.output_ports, [true; 4]);
    assert_eq!(w.calculations, 1);
    assert!(w.listeners.repropagation.contains((0, 1)));
}

#[test]
fn destroy_on_missing_chunk_still_succeeds() {
    let mut w = World::new();
    w.listeners.turn_mechanism_on(40, 40, true);
    assert!(w.destroy(40, 40));
    assert!(!w.listeners.mechanism_on.contains((40, 40)));
    assert!(w.chunks.get_chunk(40, 40).is_none());
}

#[test]
fn max_prev_finds_strongest_neighbour() {
    let mut w = World::new();
    w.place(dust(), Orientation::Up, 0, 1);
    w.place(redstone_block(), Orientation::Up, 0, 0);
    assert_eq!(
        get_max_prev(&w.chunks, 0, 1),
        (Some(Orientation::Left), 16, Some(SignalType::Weak(true)))
    );
    assert_eq!(get_max_prev(&w.chunks, 0, 0), (None, 17, Some(SignalType::Weak(true))));
    assert_eq!(get_max_prev(&w.chunks, 99, 99), (None, 0, None));
    w.place(plain(TextureName::Dirt), Orientation::Up, 1, 1);
    assert_eq!(get_max_prev(&w.chunks, 1, 1), (None, 0, None));
}

#[test]
fn is_redstone_needs_a_source() {
    let mut w = World::new();
    w.place(dust(), Orientation::Up, 0, 1);
    w.place(redstone_block(), Orientation::Up, 0, 0);
    assert!(is_redstone(&w.chunks, 0, 0, Orientation::Right));
    assert!(!is_redstone(&w.chunks, 0, 1, Orientation::Left));
    assert!(!is_redstone(&w.chunks, 7, 7, Orientation::Up));
}

#[test]
fn redstone_dust_lookup() {
    let mut w = World::new();
    w.place(dust(), Orientation::Up, 0, 1);
    w.place(redstone_block(), Orientation::Up, 0, 0);
    assert_eq!(get_redstone_dust(&mut w.chunks, 0, 1), dust_rs_powered());
    assert_eq!(get_redstone_dust(&mut w.chunks, 0, 0), None);
    assert_eq!(get_redstone_dust(&mut w.chunks, 50, 50), None);
    assert!(w.chunks.get_chunk(50, 50).is_some());
}

fn dust_rs_powered() -> Option<Redstone> {
    Some(Redstone {
        signal: 15,
        signal_type: Some(SignalType::Weak(false)),
        output_ports: [false, true, false, true],
        ..dust().redstone.unwrap()
    })
}

#[test]
fn lone_dust_connects_every_side() {
    let mut w = World::new();
    let mut d = dust();
    if let Some(rs) = d.redstone.as_mut() {
        rs.output_ports = [false, true, false, false];
    }
    w.chunks.set_block(4, 4, Some(d));
    update_dust_ports(&mut w.chunks, 4, 4, &mut w.listeners, &mut w.queue, &mut w.calculations);
    assert_eq!(w.rs(4, 4).output_ports, [true; 4]);
    assert_eq!(w.calculations, 0);
}

#[test]
fn dust_next_to_source_points_at_it() {
    let mut w = World::new();
    w.chunks.set_block(0, 0, Some(redstone_block()));
    w.chunks.set_block(0, 1, Some(dust()));
    update_dust_ports(&mut w.chunks, 0, 1, &mut w.listeners, &mut w.queue, &mut w.calculations);
    let rs = w.rs(0, 1);
    assert_eq!(rs.output_ports, [false, true, false, true]);
    assert_eq!(rs.signal, 15);
    assert_eq!(w.calculations, 1);
}

#[test]
fn propagation_beyond_budget_is_queued() {
    let mut w = World::new();
    w.chunks.set_block(0, 0, Some(redstone_block()));
    w.chunks.set_block(0, 1, Some(dust()));
    w.calculations = 10000;
    propagate_signal_at(
        &mut w.chunks,
        0,
        1,
        Some(Orientation::Left),
        15,
        16,
        Some(SignalType::Weak(true)),
        &mut w.listeners,
        &mut w.queue,
        &mut w.calculations,
    );
    assert_eq!(w.calculations, 10001);
    assert_eq!(w.rs(0, 1).signal, 0);
    assert_eq!(
        w.queue.entries,
        vec![PropagationEntry {
            x: 0,
            y: 1,
            input_signal: 15,
            from_port: Some(Orientation::Left),
            previous_signal: 16,
            prev_signal_type: Some(SignalType::Weak(true)),
        }]
    );
}

#[test]
fn weak_or_unit_signal_does_nothing() {
    let mut w = World::new();
    w.chunks.set_block(0, 1, Some(dust()));
    propagate_signal_at(
        &mut w.chunks, 0, 1, Some(Orientation::Left), 1, 16, Some(SignalType::Weak(true)),
        &mut w.listeners, &mut w.queue, &mut w.calculations,
    );
    propagate_signal_at(
        &mut w.chunks, 0, 1, Some(Orientation::Left), 0, 1, Some(SignalType::Weak(true)),
        &mut w.listeners, &mut w.queue, &mut w.calculations,
    );
    assert_eq!(w.rs(0, 1).signal, 0);
    assert_eq!(w.calculations, 0);
}

#[test]
fn dust_rejects_weak_relay() {
    let mut w = World::new();
    w.chunks.set_block(0, 1, Some(dust()));
    propagate_signal_at(
        &mut w.chunks, 0, 1, Some(Orientation::Left), 14, 0, Some(SignalType::Weak(false)),
        &mut w.listeners, &mut w.queue, &mut w.calculations,
    );
    assert_eq!(w.rs(0, 1).signal, 0);
    assert_eq!(w.calculations, 0);
}

#[test]
fn torch_switches_with_its_input() {
    let mut w = World::new();
    w.place(dust(), Orientation::Up, 0, 1);
    w.place(torch(), Orientation::Up, 0, 0);
    assert_eq!(w.rs(0, 1).signal, 15);
    assert_eq!(w.rs(0, 1).signal_type, Some(SignalType::Strong(false)));
    assert_eq!(w.calculations, 3);

    w.calculations = 0;
    w.execute(0, 0, true);
    assert_eq!(w.rs(0, 0).signal, 0);
    assert_eq!(w.rs(0, 1).signal, 0);
    assert_eq!(w.rs(0, 1).signal_type, None);
    assert_eq!(w.calculations, 2);
    assert!(w.listeners.repropagation.contains((0, 0)));
    assert!(w.listeners.repropagation.contains((0, 1)));

    w.execute(0, 0, true);
    assert_eq!(w.rs(0, 0).signal, 0);
    assert_eq!(w.calculations, 2);

    w.calculations = 0;
    w.execute(0, 0, false);
    assert_eq!(w.rs(0, 0).signal, 16);
    assert_eq!(w.rs(0, 1).signal, 15);
    assert_eq!(w.rs(0, 1).signal_type, Some(SignalType::Strong(false)));
    assert_eq!(w.calculations, 2);
}

#[test]
fn power_set_follows_the_push() {
    let mut w = World::new();
    for x in 3..6 {
        w.chunks.set_block(x, 0, Some(plain(TextureName::Dirt)));
    }
    let set = get_power(&w.chunks, 5, 0, Orientation::Up, 12);
    assert_eq!(set.len(), 3);
    assert!(set.contains((5, 0)) && set.contains((4, 0)) && set.contains((3, 0)));
    let empty_start = get_power(&w.chunks, 20, 20, Orientation::Up, 12);
    assert_eq!(empty_start.to_vec(), vec![(20, 20)]);
}

#[test]
fn power_set_of_more_than_twelve_is_empty() {
    let mut w = World::new();
    for x in -20..0 {
        w.chunks.set_block(x, 0, Some(plain(TextureName::Dirt)));
    }
    assert_eq!(get_power(&w.chunks, -1, 0, Orientation::Up, 12).len(), 0);
    assert_eq!(get_power(&w.chunks, -1, 0, Orientation::Up, 3).len(), 4);
}

#[test]
fn power_set_takes_sticky_neighbours() {
    let mut w = World::new();
    w.chunks.set_block(4, 0, Some(slime()));
    w.chunks.set_block(4, 1, Some(plain(TextureName::Dirt)));
    w.chunks.set_block(4, -1, Some(glass()));
    let set = get_power(&w.chunks, 4, 0, Orientation::Up, 12);
    assert_eq!(set.len(), 3);
    assert!(set.contains((4, 1)) && set.contains((4, -1)));
}

#[test]
fn move_blocks_shifts_a_row() {
    let mut w = World::new();
    w.chunks.set_block(4, 0, Some(plain(TextureName::Dirt)));
    w.chunks.set_block(3, 0, Some(plain(TextureName::BlueWool)));
    let affected = get_power(&w.chunks, 4, 0, Orientation::Up, 12);
    let mut traversed = PosSet::new();
    let moved = move_blocks(
        &mut w.chunks, 4, 0, Orientation::Up, &affected, &mut w.listeners, &mut w.queue,
        &mut w.calculations, &mut traversed, Orientation::Down, &w.catalog,
    );
    assert!(moved);
    assert_eq!(w.at(4, 0), None);
    assert_eq!(w.at(3, 0), Some(plain(TextureName::Dirt)));
    assert_eq!(w.at(2, 0), Some(plain(TextureName::BlueWool)));
    assert_eq!(traversed.len(), 3);
    assert!(traversed.contains((2, 0)) && traversed.contains((3, 0)) && traversed.contains((4, 0)));
}

#[test]
fn move_blocks_stops_at_unmovable_block() {
    let mut w = World::new();
    w.chunks.set_block(4, 0, Some(plain(TextureName::Dirt)));
    w.chunks.set_block(3, 0, Some(glass()));
    let affected = get_power(&w.chunks, 4, 0, Orientation::Up, 12);
    let mut traversed = PosSet::new();
    let moved = move_blocks(
        &mut w.chunks, 4, 0, Orientation::Up, &affected, &mut w.listeners, &mut w.queue,
        &mut w.calculations, &mut traversed, Orientation::Down, &w.catalog,
    );
    assert!(!moved);
    assert_eq!(w.at(4, 0), Some(plain(TextureName::Dirt)));
    assert_eq!(w.at(3, 0), Some(glass()));
    assert_eq!(traversed.len(), 0);
}

#[test]
fn piston_extends_and_retracts() {
    let mut w = World::new();
    w.place(piston(false), Orientation::Up, 5, 0);
    w.place(plain(TextureName::Dirt), Orientation::Up, 4, 0);
    w.execute(5, 0, true);
    assert_eq!(w.at(3, 0), Some(plain(TextureName::Dirt)));
    let head = w.at(4, 0).unwrap();
    assert_eq!(head.texture_name, TextureName::PistonHead);
    assert_eq!(head.orientation, Orientation::Up);
    let p = w.at(5, 0).unwrap();
    assert_eq!(p.mechanism, Some(MechanismKind::Piston { extended: true, sticky: false }));
    assert!(!p.movable);
    assert!(w.listeners.entity_map_update.contains((5, 0)));

    w.execute(5, 0, false);
    assert_eq!(w.at(4, 0), None);
    assert_eq!(w.at(3, 0), Some(plain(TextureName::Dirt)));
    let p = w.at(5, 0).unwrap();
    assert_eq!(p.mechanism, Some(MechanismKind::Piston { extended: false, sticky: false }));
    assert!(p.movable);
}

#[test]
fn sticky_piston_pulls_block_back() {
    let mut w = World::new();
    w.place(piston(true), Orientation::Up, 5, 0);
    w.place(plain(TextureName::Dirt), Orientation::Up, 4, 0);
    w.execute(5, 0, true);
    assert_eq!(w.at(4, 0).unwrap().texture_name, TextureName::StickyPistonHead);
    assert_eq!(w.at(3, 0), Some(plain(TextureName::Dirt)));
    w.execute(5, 0, false);
    assert_eq!(w.at(4, 0), Some(plain(TextureName::Dirt)));
    assert_eq!(w.at(3, 0), None);
    assert_eq!(
        w.at(5, 0).unwrap().mechanism,
        Some(MechanismKind::Piston { extended: false, sticky: true })
    );
}

#[test]
fn blocked_piston_stays_retracted() {
    let mut w = World::new();
    w.place(piston(false), Orientation::Up, 5, 0);
    w.place(glass(), Orientation::Up, 4, 0);
    w.execute(5, 0, true);
    assert_eq!(w.at(4, 0), Some(glass()));
    let p = w.at(5, 0).unwrap();
    assert_eq!(p.mechanism, Some(MechanismKind::Piston { extended: false, sticky: false }));
    assert!(p.movable);
    assert!(w.listeners.mechanism_on.contains((5, 0)));
}

#[test]
fn piston_pushes_slime_with_its_neighbour() {
    let mut w = World::new();
    w.place(piston(false), Orientation::Up, 5, 0);
    w.place(slime(), Orientation::Up, 4, 0);
    w.place(plain(TextureName::Dirt), Orientation::Up, 4, 1);
    w.execute(5, 0, true);
    assert_eq!(w.at(3, 0), Some(slime()));
    assert_eq!(w.at(3, 1), Some(plain(TextureName::Dirt)));
    assert_eq!(w.at(4, 1), None);
    assert_eq!(w.at(4, 0).unwrap().texture_name, TextureName::PistonHead);
}

#[test]
fn repeater_counts_down_then_fires() {
    let mut w = World::new();
    w.chunks.set_block(0, 0, Some(repeater(-1, 2)));
    w.execute(0, 0, true);
    assert_eq!(
        w.at(0, 0).unwrap().mechanism,
        Some(MechanismKind::Repeater { countdown: 1, tick: 2 })
    );
    assert!(w.listeners.mechanism_on.contains((0, 0)));
    assert!(w.listeners.redstone_mechanisms.contains((0, 0)));
    assert_eq!(w.rs(0, 0).signal, 0);
    w.execute(0, 0, true);
    assert_eq!(
        w.at(0, 0).unwrap().mechanism,
        Some(MechanismKind::Repeater { countdown: 0, tick: 2 })
    );
    w.execute(0, 0, true);
    assert_eq!(
        w.at(0, 0).unwrap().mechanism,
        Some(MechanismKind::Repeater { countdown: -1, tick: 2 })
    );
    assert_eq!(w.rs(0, 0).signal, 16);
    w.execute(0, 0, true);
    assert_eq!(
        w.at(0, 0).unwrap().mechanism,
        Some(MechanismKind::Repeater { countdown: -1, tick: 2 })
    );
    assert_eq!(w.rs(0, 0).signal, 16);
}

#[test]
fn observer_pulses_its_output() {
    let mut w = World::new();
    w.chunks.set_block(0, 0, Some(observer()));
    w.chunks.set_block(1, 0, Some(dust()));
    w.execute(0, 0, true);
    assert_eq!(w.rs(0, 0).signal, 16);
    assert_eq!(w.rs(1, 0).signal, 15);
    assert_eq!(w.rs(1, 0).signal_type, Some(SignalType::Strong(false)));
    assert!(w.listeners.mechanism_off.contains((0, 0)));
    assert_eq!(w.calculations, 2);
    w.execute(0, 0, false);
    assert_eq!(w.rs(0, 0).signal, 0);
    assert_eq!(w.rs(1, 0).signal, 0);
    assert_eq!(w.rs(1, 0).signal_type, None);
}

#[test]
fn executing_a_plain_block_changes_nothing() {
    let mut w = World::new();
    w.chunks.set_block(2, 2, Some(plain(TextureName::Dirt)));
    w.execute(2, 2, true);
    w.execute(9, 9, true);
    assert_eq!(w.at(2, 2), Some(plain(TextureName::Dirt)));
    assert_eq!(w.calculations, 0);
    assert_eq!(w.listeners.mechanism_on.len(), 0);
}

#[test]
fn neighbours_alert_observers() {
    let mut w = World::new();
    w.chunks.set_block(0, 1, Some(observer()));
    w.chunks.set_block(1, 0, Some(plain(TextureName::Dirt)));
    alert_neighbours(0, 0, &w.chunks, &mut w.listeners);
    assert!(w.listeners.mechanism_on.contains((0, 1)));
    assert!(!w.listeners.mechanism_on.contains((1, 0)));
    assert_eq!(w.listeners.mechanism_on.len(), 1);
}

fn frame(b: Block) -> Block {
    Block {
        redstone: b.redstone.map(|r| Redstone {
            signal: 0,
            signal_type: None,
            output_ports: [false; 4],
            ..r
        }),
        ..b
    }
}

#[test]
fn signals_change_only_signal_fields() {
    let mut w = World::new();
    w.place(dust(), Orientation::Up, 0, 1);
    w.place(dust(), Orientation::Up, 1, 0);
    w.place(plain(TextureName::Dirt), Orientation::Up, 2, 2);
    let before: Vec<Option<Block>> = (-1..4).flat_map(|x| (-1..4).map(move |y| (x, y))).map(|(x, y)| w.at(x, y)).collect();
    w.place(torch(), Orientation::Up, 0, 0);
    w.execute(0, 0, true);
    w.destroy(0, 0);
    let after: Vec<Option<Block>> = (-1..4).flat_map(|x| (-1..4).map(move |y| (x, y))).map(|(x, y)| w.at(x, y)).collect();
    for (b, a) in before.iter().zip(after.iter()) {
        assert_eq!(b.map(frame), a.map(frame));
    }
}

#[test]
fn signals_stay_in_range() {
    let mut w = World::new();
    w.place(dust(), Orientation::Up, 0, 1);
    w.place(dust(), Orientation::Up, 1, 0);
    w.place(redstone_block(), Orientation::Up, 0, 0);
    w.place(torch(), Orientation::Up, 1, 1);
    w.execute(1, 1, true);
    w.execute(1, 1, false);
    w.destroy(0, 0);
    for x in -2..4 {
        for y in -2..4 {
            if let Some(Block { redstone: Some(r), .. }) = w.at(x, y) {
                assert!(r.signal <= 16);
            }
        }
    }
}

#[test]
fn destroy_undoes_place() {
    let mut w = World::new();
    w.place(dust(), Orientation::Up, 5, 6);
    let before: Vec<Option<Block>> = (3..8).flat_map(|x| (3..8).map(move |y| (x, y))).map(|(x, y)| w.at(x, y)).collect();
    assert!(w.place(plain(TextureName::RedWool), Orientation::Up, 5, 5));
    assert_eq!(w.at(5, 5), Some(plain(TextureName::RedWool)));
    assert!(w.destroy(5, 5));
    let after: Vec<Option<Block>> = (3..8).flat_map(|x| (3..8).map(move |y| (x, y))).map(|(x, y)| w.at(x, y)).collect();
    assert_eq!(before, after);
}

#[test]
fn placing_and_destroying_a_source_reconnects_dust() {
    let mut w = World::new();
    let mut d = dust();
    if let Some(rs) = d.redstone.as_mut() {
        rs.output_ports = [false, true, false, true];
    }
    w.chunks.set_block(0, 1, Some(d));
    assert!(w.place(redstone_block(), Orientation::Up, 0, 0));
    assert!(w.destroy(0, 0));
    assert_eq!(w.rs(0, 1).output_ports, [true; 4]);
    assert_ne!(w.at(0, 1), Some(d));
}

#[test]
fn destroying_twice_equals_once() {
    let mut w = World::new();
    w.place(dust(), Orientation::Up, 0, 1);
    w.place(redstone_block(), Orientation::Up, 0, 0);
    assert!(w.destroy(0, 0));
    let once: Vec<Option<Block>> = (-2..3).flat_map(|x| (-2..3).map(move |y| (x, y))).map(|(x, y)| w.at(x, y)).collect();
    assert!(w.destroy(0, 0));
    let twice: Vec<Option<Block>> = (-2..3).flat_map(|x| (-2..3).map(move |y| (x, y))).map(|(x, y)| w.at(x, y)).collect();
    assert_eq!(once, twice);
}

#[test]
fn far_positions_work() {
    let mut w = World::new();
    let x = i128::MAX - 20_000;
    let y = i128::MIN + 20_000;
    assert!(w.place(dust(), Orientation::Up, x, y + 1));
    assert!(w.place(redstone_block(), Orientation::Up, x, y));
    assert_eq!(w.rs(x, y + 1).signal, 15);
    assert!(w.destroy(x, y));
    assert_eq!(w.rs(x, y + 1).signal, 0);
}
