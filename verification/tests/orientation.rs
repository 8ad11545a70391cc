use redstone_rust::chunks::block::{toggle_port, Orientation, Redstone, RedstoneKind, SignalType};
use redstone_rust::texture::TextureName;

fn dust_redstone() -> Redstone {
    Redstone {
        signal: 0,
        signal_type: None,
        is_redstone_component: true,
        kind: Some(RedstoneKind::Dust),
        signal_type_port_mapping: [None; 4],
        input_ports: [true; 4],
        output_ports: [true; 4],
    }
}

#[test]
fn port_indices_follow_clockwise_order() {
    assert_eq!(Orientation::Up.to_port_idx(), 0);
    assert_eq!(Orientation::Right.to_port_idx(), 1);
    assert_eq!(Orientation::Down.to_port_idx(), 2);
    assert_eq!(Orientation::Left.to_port_idx(), 3);
}

#[test]
fn port_index_round_trip() {
    for idx in 0..4usize {
        assert_eq!(Orientation::port_idx_to_orientation(idx).to_port_idx(), idx);
    }
    for o in Orientation::iter() {
        assert_eq!(Orientation::port_idx_to_orientation(o.to_port_idx()), o);
    }
}

#[test]
fn next_coordinates_step_one_cell() {
    assert_eq!(Orientation::Up.get_next_coord(5, 7), (4, 7));
    assert_eq!(Orientation::Right.get_next_coord(5, 7), (5, 8));
    assert_eq!(Orientation::Down.get_next_coord(5, 7), (6, 7));
    assert_eq!(Orientation::Left.get_next_coord(5, 7), (5, 6));
    assert_eq!(Orientation::Up.get_next_coord(-3, 0), (-4, 0));
}

#[test]
fn opposing_orientation_steps_back() {
    for o in Orientation::iter() {
        let (nx, ny) = o.get_next_coord(10, -10);
        assert_eq!(o.get_opposing().get_next_coord(nx, ny), (10, -10));
        assert_eq!(o.get_opposing().get_opposing(), o);
        assert_ne!(o.get_opposing(), o);
    }
    assert_eq!(Orientation::Up.get_opposing(), Orientation::Down);
    assert_eq!(Orientation::Right.get_opposing(), Orientation::Left);
}

#[test]
fn iter_lists_all_orientations() {
    assert_eq!(
        Orientation::iter(),
        [Orientation::Up, Orientation::Right, Orientation::Down, Orientation::Left]
    );
}

#[test]
fn rotate_ports_rotates_right_by_port_index() {
    let ports = [1u8, 2, 3, 4];
    assert_eq!(Orientation::Up.rotate_ports(ports), [1, 2, 3, 4]);
    assert_eq!(Orientation::Right.rotate_ports(ports), [4, 1, 2, 3]);
    assert_eq!(Orientation::Down.rotate_ports(ports), [3, 4, 1, 2]);
    assert_eq!(Orientation::Left.rotate_ports(ports), [2, 3, 4, 1]);
    let torch_out = [true, false, false, false];
    assert_eq!(Orientation::Right.rotate_ports(torch_out), [false, true, false, false]);
    let mapping = [Some(SignalType::Strong(true)), None, None, None];
    assert_eq!(
        Orientation::Left.rotate_ports(mapping),
        [None, None, None, Some(SignalType::Strong(true))]
    );
}

#[test]
fn rotating_four_times_is_identity() {
    let ports = [true, false, true, true];
    for o in Orientation::iter() {
        let mut p = ports;
        for _ in 0..4 {
            p = o.rotate_ports(p);
        }
        assert_eq!(p, ports);
    }
}

#[test]
fn toggle_port_sets_one_output() {
    let mut rs = dust_redstone();
    toggle_port(&mut rs, Orientation::Down, false);
    assert_eq!(rs.output_ports, [true, true, false, true]);
    toggle_port(&mut rs, Orientation::Left, false);
    assert_eq!(rs.output_ports, [true, true, false, false]);
    toggle_port(&mut rs, Orientation::Down, true);
    assert_eq!(rs.output_ports, [true, true, true, false]);
    assert_eq!(rs.input_ports, [true; 4]);
    assert_eq!(rs.signal, 0);
}

#[test]
fn texture_iter_lists_every_texture_once() {
    let all = TextureName::iter();
    assert_eq!(all.len(), 33);
    assert_eq!(all[0], TextureName::Dirt);
    assert_eq!(all[4], TextureName::RedstoneDust);
    assert_eq!(all[32], TextureName::Glass);
    for i in 0..all.len() {
        for j in 0..all.len() {
            if i != j {
                assert_ne!(all[i], all[j]);
            }
        }
    }
}

#[test]
fn turning_twice_adds_port_indices() {
    let p = ['a', 'b', 'c', 'd'];
    assert_eq!(Orientation::Right.rotate_ports(Orientation::Down.rotate_ports(p)), Orientation::Left.rotate_ports(p));
    assert_eq!(Orientation::Left.rotate_ports(Orientation::Right.rotate_ports(p)), p);
    for o in Orientation::iter() {
        assert_eq!(o.rotate_ports(p)[o.to_port_idx()], 'a');
    }
}
