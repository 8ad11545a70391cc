use redstone_rust::chunks::block::{Orientation, SignalType};
use redstone_rust::chunks::events::{EventListeners, PosSet, PropagationEntry, PropagationQueue};
use redstone_rust::grid::cell_map::CellMap;

#[test]
fn pos_set_insert_contains_remove() {
    let mut s = PosSet::new();
    assert_eq!(s.len(), 0);
    assert!(!s.contains((1, 2)));
    s.insert((1, 2));
    s.insert((-3, 4));
    s.insert((1, 2));
    assert_eq!(s.len(), 2);
    assert!(s.contains((1, 2)));
    assert!(s.contains((-3, 4)));
    assert!(!s.contains((2, 1)));
    s.remove((1, 2));
    assert!(!s.contains((1, 2)));
    assert_eq!(s.len(), 1);
    s.remove((7, 7));
    assert_eq!(s.len(), 1);
    assert_eq!(s.to_vec(), vec![(-3, 4)]);
    s.clear();
    assert_eq!(s.len(), 0);
    assert!(!s.contains((-3, 4)));
}

#[test]
fn pos_set_to_vec_has_each_member_once() {
    let mut s = PosSet::new();
    for i in 0..5i128 {
        s.insert((i, -i));
        s.insert((i, -i));
    }
    let v = s.to_vec();
    assert_eq!(v.len(), 5);
    for i in 0..5i128 {
        assert_eq!(v.iter().filter(|p| **p == (i, -i)).count(), 1);
    }
}

#[test]
fn listeners_switch_mechanisms() {
    let mut l = EventListeners::new();
    l.turn_mechanism_on(3, 4, true);
    assert!(l.mechanism_on.contains((3, 4)));
    assert!(!l.mechanism_off.contains((3, 4)));
    assert!(l.redstone_mechanisms.contains((3, 4)));
    l.turn_mechanism_off(3, 4, false);
    assert!(!l.mechanism_on.contains((3, 4)));
    assert!(l.mechanism_off.contains((3, 4)));
    assert!(!l.redstone_mechanisms.contains((3, 4)));
    l.turn_mechanism_on(3, 4, true);
    l.remove_mechanism(3, 4);
    assert!(!l.mechanism_on.contains((3, 4)));
    assert!(!l.mechanism_off.contains((3, 4)));
    assert!(!l.redstone_mechanisms.contains((3, 4)));
}

#[test]
fn listeners_record_updates() {
    let mut l = EventListeners::new();
    l.update_entity(1, 1);
    l.repropagate(2, 2);
    assert!(l.entity_map_update.contains((1, 1)));
    assert!(!l.entity_map_update.contains((2, 2)));
    assert!(l.repropagation.contains((2, 2)));
    assert_eq!(l.mechanism_on.len(), 0);
}

#[test]
fn propagation_queue_appends_in_order() {
    let mut q = PropagationQueue::new();
    assert!(q.entries.is_empty());
    q.append(1, 2, 15, Some(Orientation::Left), 16, Some(SignalType::Weak(true)));
    q.append(-1, 0, 0, None, 17, None);
    assert_eq!(
        q.entries,
        vec![
            PropagationEntry {
                x: 1,
                y: 2,
                input_signal: 15,
                from_port: Some(Orientation::Left),
                previous_signal: 16,
                prev_signal_type: Some(SignalType::Weak(true)),
            },
            PropagationEntry {
                x: -1,
                y: 0,
                input_signal: 0,
                from_port: None,
                previous_signal: 17,
                prev_signal_type: None,
            },
        ]
    );
}

#[test]
fn cell_map_keeps_insertion_order() {
    let mut m: CellMap<bool> = CellMap::new();
    assert_eq!(m.get((0, 0)), None);
    m.insert((2, 3), true);
    m.insert((0, 1), false);
    m.insert((2, 3), false);
    assert_eq!(m.get((2, 3)), Some(false));
    assert_eq!(m.get((0, 1)), Some(false));
    assert_eq!(m.to_vec(), vec![((2, 3), false), ((0, 1), false)]);
    m.remove((2, 3));
    assert_eq!(m.get((2, 3)), None);
    assert_eq!(m.to_vec(), vec![((0, 1), false)]);
    m.remove((9, 9));
    assert_eq!(m.to_vec().len(), 1);
    m.clear();
    assert!(m.to_vec().is_empty());
}

#[test]
fn cell_map_read_after_write() {
    let mut m: CellMap<u8> = CellMap::new();
    m.insert((1, 1), 5);
    m.insert((1, 2), 6);
    m.insert((1, 1), 7);
    assert_eq!(m.get((1, 1)), Some(7));
    assert_eq!(m.get((1, 2)), Some(6));
    m.remove((1, 2));
    assert_eq!(m.get((1, 2)), None);
    assert_eq!(m.get((1, 1)), Some(7));
}
