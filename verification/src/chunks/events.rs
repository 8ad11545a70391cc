use vstd::prelude::*;
use crate::chunks::block::{Orientation, SignalType};

verus! {

/// A set of world positions, kept as a list without repetitions.
#[derive(Debug)]
pub struct PosSet {
    items: Vec<(i128, i128)>,
}

impl View for PosSet {
    type V = Set<(i128, i128)>;

    closed spec fn view(&self) -> Set<(i128, i128)> {
        self.items@.to_set()
    }
}

impl PosSet {
    #[verifier::type_invariant]
    closed spec fn no_repeats(self) -> bool {
        self.items@.no_duplicates()
    }

    pub fn new() -> (s: PosSet)
        ensures
            s@ == Set::<(i128, i128)>::empty(),
    {
        let s = PosSet { items: Vec::new() };
        assert(s@ =~= Set::<(i128, i128)>::empty());
        s
    }

    pub fn contains(&self, p: (i128, i128)) -> (r: bool)
        ensures
            r == self@.contains(p),
    {
        let mut i: usize = 0;
        while i < self.items.len()
            invariant
                i <= self.items@.len(),
                forall|j: int| 0 <= j < i ==> self.items@[j] != p,
            decreases self.items@.len() - i,
        {
            let q = self.items[i];
            if q.0 == p.0 && q.1 == p.1 {
                assert(self.items@.contains(p));
                return true;
            }
            i = i + 1;
        }
        assert(!self.items@.contains(p));
        false
    }

    pub fn insert(&mut self, p: (i128, i128))
        ensures
            final(self)@ == old(self)@.insert(p),
    {
        proof {
            use_type_invariant(&*self);
        }
        if !self.contains(p) {
            proof {
                assert(!self.items@.contains(p));
                assert(self.items@.push(p).no_duplicates()) by {
                    let s2 = self.items@.push(p);
                    assert forall|i: int, j: int| 0 <= i < s2.len() && 0 <= j < s2.len() && i != j implies s2[i] != s2[j] by {
                        if i < self.items@.len() && j < self.items@.len() {
                        } else if i == self.items@.len() {
                            assert(self.items@[j] == s2[j]);
                        } else {
                            assert(self.items@[i] == s2[i]);
                        }
                    }
                }
            }
            let mut items: Vec<(i128, i128)> = Vec::new();
            std::mem::swap(&mut items, &mut self.items);
            items.push(p);
            self.items = items;
            assert(self.items@.to_set() =~= old(self).items@.to_set().insert(p)) by {
                assert forall|q: (i128, i128)| self.items@.contains(q) implies old(self).items@.contains(q) || q == p by {
                    let j = choose|j: int| 0 <= j < self.items@.len() && self.items@[j] == q;
                    if j < old(self).items@.len() {
                        assert(old(self).items@[j] == q);
                    }
                }
                assert forall|q: (i128, i128)| old(self).items@.contains(q) implies self.items@.contains(q) by {
                    let j = choose|j: int| 0 <= j < old(self).items@.len() && old(self).items@[j] == q;
                    assert(self.items@[j] == q);
                }
                assert(self.items@[self.items@.len() - 1] == p);
            }
        } else {
            assert(old(self)@.insert(p) =~= old(self)@);
        }
    }

    pub fn remove(&mut self, p: (i128, i128))
        ensures
            final(self)@ == old(self)@.remove(p),
    {
        proof {
            use_type_invariant(&*self);
        }
        let mut kept: Vec<(i128, i128)> = Vec::new();
        let mut i: usize = 0;
        while i < self.items.len()
            invariant
                i <= self.items@.len(),
                self.items@.no_duplicates(),
                kept@.no_duplicates(),
                forall|q: (i128, i128)| kept@.contains(q) <==> (q != p && exists|j: int| 0 <= j < i && self.items@[j] == q),
            decreases self.items@.len() - i,
        {
            let q = self.items[i];
            if !(q.0 == p.0 && q.1 == p.1) {
                let ghost old_kept = kept@;
                proof {
                    if old_kept.contains(q) {
                        let j = choose|j: int| 0 <= j < i && self.items@[j] == q;
                        assert(self.items@[i as int] == q);
                    }
                    assert(old_kept.push(q).no_duplicates()) by {
                        let s2 = old_kept.push(q);
                        assert forall|a: int, b: int| 0 <= a < s2.len() && 0 <= b < s2.len() && a != b implies s2[a] != s2[b] by {
                            if a < old_kept.len() && b < old_kept.len() {
                            } else if a == old_kept.len() {
                                assert(old_kept[b] == s2[b]);
                                assert(old_kept.contains(s2[b]));
                            } else {
                                assert(old_kept[a] == s2[a]);
                                assert(old_kept.contains(s2[a]));
                            }
                        }
                    }
                }
                kept.push(q);
                assert forall|r: (i128, i128)| kept@.contains(r) <==> (r != p && exists|j: int| 0 <= j < i + 1 && self.items@[j] == r) by {
                    if kept@.contains(r) {
                        let k = choose|k: int| 0 <= k < kept@.len() && kept@[k] == r;
                        if k < old_kept.len() {
                            assert(old_kept[k] == r);
                            assert(old_kept.contains(r));
                        } else {
                            assert(self.items@[i as int] == r);
                        }
                    }
                    if r != p && exists|j: int| 0 <= j < i + 1 && self.items@[j] == r {
                        let j = choose|j: int| 0 <= j < i + 1 && self.items@[j] == r;
                        if j < i {
                            assert(old_kept.contains(r));
                            let k = choose|k: int| 0 <= k < old_kept.len() && old_kept[k] == r;
                            assert(kept@[k] == r);
                        } else {
                            assert(kept@[kept@.len() - 1] == r);
                        }
                    }
                }
            } else {
                assert forall|r: (i128, i128)| kept@.contains(r) <==> (r != p && exists|j: int| 0 <= j < i + 1 && self.items@[j] == r) by {
                    if r != p && exists|j: int| 0 <= j < i + 1 && self.items@[j] == r {
                        let j = choose|j: int| 0 <= j < i + 1 && self.items@[j] == r;
                        assert(j < i);
                    }
                }
            }
            i = i + 1;
        }
        let ghost before = self.items@;
        self.items = kept;
        assert(self@ =~= old(self)@.remove(p)) by {
            assert forall|q: (i128, i128)| self.items@.contains(q) <==> old(self)@.remove(p).contains(q) by {
                if old(self)@.remove(p).contains(q) {
                    let j = choose|j: int| 0 <= j < before.len() && before[j] == q;
                }
            }
        }
    }

    /// The set of positions is finite.
    pub proof fn lemma_finite(&self)
        ensures
            self@.finite(),
    {
        vstd::seq_lib::seq_to_set_is_finite(self.items@);
    }

    /// The number of positions in the set.
    pub fn len(&self) -> (r: usize)
        ensures
            r == self@.len(),
            self@.finite(),
    {
        proof {
            use_type_invariant(self);
            self.items@.unique_seq_to_set();
        }
        self.items.len()
    }

    /// Each position of the set once.
    pub fn to_vec(&self) -> (r: Vec<(i128, i128)>)
        ensures
            r@.to_set() == self@,
            r@.no_duplicates(),
    {
        proof {
            use_type_invariant(self);
        }
        let mut r: Vec<(i128, i128)> = Vec::new();
        let mut i: usize = 0;
        while i < self.items.len()
            invariant
                i <= self.items@.len(),
                r@ == self.items@.subrange(0, i as int),
            decreases self.items@.len() - i,
        {
            r.push(self.items[i]);
            i = i + 1;
        }
        assert(r@ =~= self.items@);
        r
    }

    pub fn clear(&mut self)
        ensures
            final(self)@ == Set::<(i128, i128)>::empty(),
    {
        proof {
            assert(Seq::<(i128, i128)>::empty().no_duplicates());
        }
        self.items = Vec::new();
        assert(self@ =~= Set::<(i128, i128)>::empty());
    }
}

/// What the event sets of [`EventListeners`] hold.
pub struct EventsModel {
    pub entity_updates: Set<(i128, i128)>,
    pub mechanisms_on: Set<(i128, i128)>,
    pub mechanisms_off: Set<(i128, i128)>,
    pub redstone_mechanisms: Set<(i128, i128)>,
    pub repropagations: Set<(i128, i128)>,
}

/// The events that the world hands to the next tick: blocks to redraw,
/// mechanisms to switch on or off, positions whose signal must be recomputed.
#[derive(Debug)]
pub struct EventListeners {
    pub entity_map_update: PosSet,
    pub mechanism_on: PosSet,
    pub mechanism_off: PosSet,
    pub redstone_mechanisms: PosSet,
    pub repropagation: PosSet,
}

impl View for EventListeners {
    type V = EventsModel;

    open spec fn view(&self) -> EventsModel {
        EventsModel {
            entity_updates: self.entity_map_update@,
            mechanisms_on: self.mechanism_on@,
            mechanisms_off: self.mechanism_off@,
            redstone_mechanisms: self.redstone_mechanisms@,
            repropagations: self.repropagation@,
        }
    }
}

pub open spec fn events_update_entity(e: EventsModel, x: i128, y: i128) -> EventsModel {
    EventsModel { entity_updates: e.entity_updates.insert((x, y)), ..e }
}

pub open spec fn events_repropagate(e: EventsModel, x: i128, y: i128) -> EventsModel {
    EventsModel { repropagations: e.repropagations.insert((x, y)), ..e }
}

pub open spec fn events_mark_redstone(e: EventsModel, x: i128, y: i128, is_redstone: bool) -> Set<(i128, i128)> {
    if is_redstone {
        e.redstone_mechanisms.insert((x, y))
    } else {
        e.redstone_mechanisms.remove((x, y))
    }
}

pub open spec fn events_turn_on(e: EventsModel, x: i128, y: i128, is_redstone: bool) -> EventsModel {
    EventsModel {
        mechanisms_on: e.mechanisms_on.insert((x, y)),
        mechanisms_off: e.mechanisms_off.remove((x, y)),
        redstone_mechanisms: events_mark_redstone(e, x, y, is_redstone),
        ..e
    }
}

pub open spec fn events_turn_off(e: EventsModel, x: i128, y: i128, is_redstone: bool) -> EventsModel {
    EventsModel {
        mechanisms_on: e.mechanisms_on.remove((x, y)),
        mechanisms_off: e.mechanisms_off.insert((x, y)),
        redstone_mechanisms: events_mark_redstone(e, x, y, is_redstone),
        ..e
    }
}

pub open spec fn events_remove_mechanism(e: EventsModel, x: i128, y: i128) -> EventsModel {
    EventsModel {
        mechanisms_on: e.mechanisms_on.remove((x, y)),
        mechanisms_off: e.mechanisms_off.remove((x, y)),
        redstone_mechanisms: e.redstone_mechanisms.remove((x, y)),
        ..e
    }
}

impl EventListeners {
    pub fn new() -> (r: EventListeners)
        ensures
            r@.entity_updates == Set::<(i128, i128)>::empty(),
            r@.mechanisms_on == Set::<(i128, i128)>::empty(),
            r@.mechanisms_off == Set::<(i128, i128)>::empty(),
            r@.redstone_mechanisms == Set::<(i128, i128)>::empty(),
            r@.repropagations == Set::<(i128, i128)>::empty(),
    {
        EventListeners {
            entity_map_update: PosSet::new(),
            mechanism_on: PosSet::new(),
            mechanism_off: PosSet::new(),
            redstone_mechanisms: PosSet::new(),
            repropagation: PosSet::new(),
        }
    }

    /// The block at `(x, y)` must be redrawn.
    pub fn update_entity(&mut self, x: i128, y: i128)
        ensures
            final(self)@ == events_update_entity(old(self)@, x, y),
    {
        self.entity_map_update.insert((x, y));
    }

    /// The signal at `(x, y)` must be recomputed from its neighbours.
    pub fn repropagate(&mut self, x: i128, y: i128)
        ensures
            final(self)@ == events_repropagate(old(self)@, x, y),
    {
        self.repropagation.insert((x, y));
    }

    /// The mechanism at `(x, y)` is powered; `is_redstone` marks torches and repeaters.
    pub fn turn_mechanism_on(&mut self, x: i128, y: i128, is_redstone: bool)
        ensures
            final(self)@ == events_turn_on(old(self)@, x, y, is_redstone),
    {
        self.mechanism_on.insert((x, y));
        self.mechanism_off.remove((x, y));
        if is_redstone {
            self.redstone_mechanisms.insert((x, y));
        } else {
            self.redstone_mechanisms.remove((x, y));
        }
    }

    /// The mechanism at `(x, y)` lost its power.
    pub fn turn_mechanism_off(&mut self, x: i128, y: i128, is_redstone: bool)
        ensures
            final(self)@ == events_turn_off(old(self)@, x, y, is_redstone),
    {
        self.mechanism_on.remove((x, y));
        self.mechanism_off.insert((x, y));
        if is_redstone {
            self.redstone_mechanisms.insert((x, y));
        } else {
            self.redstone_mechanisms.remove((x, y));
        }
    }

    /// Forgets any pending event of the mechanism at `(x, y)`.
    pub fn remove_mechanism(&mut self, x: i128, y: i128)
        ensures
            final(self)@ == events_remove_mechanism(old(self)@, x, y),
    {
        self.mechanism_on.remove((x, y));
        self.mechanism_off.remove((x, y));
        self.redstone_mechanisms.remove((x, y));
    }
}

/// A propagation postponed to the next tick, with the arguments it had.
#[derive(Debug, Clone, Copy, PartialEq, Eq)]
pub struct PropagationEntry {
    pub x: i128,
    pub y: i128,
    pub input_signal: u8,
    pub from_port: Option<Orientation>,
    pub previous_signal: u8,
    pub prev_signal_type: Option<SignalType>,
}

/// Propagations postponed because a tick has done too much work.
#[derive(Debug)]
pub struct PropagationQueue {
    pub entries: Vec<PropagationEntry>,
}

impl View for PropagationQueue {
    type V = Seq<PropagationEntry>;

    open spec fn view(&self) -> Seq<PropagationEntry> {
        self.entries@
    }
}

impl PropagationQueue {
    pub fn new() -> (q: PropagationQueue)
        ensures
            q@ == Seq::<PropagationEntry>::empty(),
    {
        PropagationQueue { entries: Vec::new() }
    }

    pub fn append(
        &mut self,
        x: i128,
        y: i128,
        input_signal: u8,
        from_port: Option<Orientation>,
        previous_signal: u8,
        prev_signal_type: Option<SignalType>,
    )
        ensures
            final(self)@ == old(self)@.push(
                PropagationEntry { x, y, input_signal, from_port, previous_signal, prev_signal_type },
            ),
    {
        self.entries.push(
            PropagationEntry { x, y, input_signal, from_port, previous_signal, prev_signal_type },
        );
    }
}

/// No mechanism is asked to switch both on and off.
pub open spec fn switches_disjoint(e: EventsModel) -> bool {
    e.mechanisms_on.disjoint(e.mechanisms_off)
}

/// The last request for a mechanism wins: switched on, it is among the
/// mechanisms to switch on and not among those to switch off; switched off,
/// the other way round; forgotten, it is in neither and no longer marked as
/// redstone. Other mechanisms keep their requests, and no mechanism is ever
/// asked to switch both ways.
pub proof fn lemma_last_switch_wins(e: EventsModel, x: i128, y: i128, is_redstone: bool, p: (i128, i128))
    requires
        switches_disjoint(e),
    ensures
        events_turn_on(e, x, y, is_redstone).mechanisms_on.contains((x, y)),
        !events_turn_on(e, x, y, is_redstone).mechanisms_off.contains((x, y)),
        events_turn_on(e, x, y, is_redstone).redstone_mechanisms.contains((x, y)) == is_redstone,
        events_turn_off(e, x, y, is_redstone).mechanisms_off.contains((x, y)),
        !events_turn_off(e, x, y, is_redstone).mechanisms_on.contains((x, y)),
        events_turn_off(e, x, y, is_redstone).redstone_mechanisms.contains((x, y)) == is_redstone,
        !events_remove_mechanism(e, x, y).mechanisms_on.contains((x, y)),
        !events_remove_mechanism(e, x, y).mechanisms_off.contains((x, y)),
        !events_remove_mechanism(e, x, y).redstone_mechanisms.contains((x, y)),
        p != (x, y) ==> events_turn_on(e, x, y, is_redstone).mechanisms_off.contains(p) == e.mechanisms_off.contains(p)
            && events_turn_on(e, x, y, is_redstone).mechanisms_on.contains(p) == e.mechanisms_on.contains(p),
        p != (x, y) ==> events_turn_off(e, x, y, is_redstone).mechanisms_off.contains(p) == e.mechanisms_off.contains(p)
            && events_turn_off(e, x, y, is_redstone).mechanisms_on.contains(p) == e.mechanisms_on.contains(p),
        switches_disjoint(events_turn_on(e, x, y, is_redstone)),
        switches_disjoint(events_turn_off(e, x, y, is_redstone)),
        switches_disjoint(events_remove_mechanism(e, x, y)),
{
}

} // verus!
