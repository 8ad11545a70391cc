use vstd::prelude::*;
use crate::chunks::{Chunks, World, block_at, maybe_block_at, with_chunk, set_block_at};
use crate::chunks::block::{Block, Redstone, RedstoneKind, SignalType, Orientation, MechanismKind, orientation_of_idx, toggle_port};
use crate::chunks::events::{EventListeners, EventsModel, PropagationQueue, PropagationEntry, events_update_entity, events_repropagate, events_turn_on, events_turn_off};

verus! {

/// The state that signal propagation reads and changes.
pub struct SimState {
    pub world: World,
    pub events: EventsModel,
    pub queue: Seq<PropagationEntry>,
    pub calculations: int,
}

/// Number of propagation steps after which a tick postpones the rest.
pub const MAX_CALCULATIONS: u32 = 10000;

/// Builds the [`SimState`] of the exec values.
pub open spec fn sim_state(
    chunks: Chunks,
    listeners: EventListeners,
    queue: PropagationQueue,
    calculations: u32,
) -> SimState {
    SimState {
        world: chunks@,
        events: listeners@,
        queue: queue@,
        calculations: calculations as int,
    }
}

/// Remaining recursion budget of a propagation that starts with counter `c`.
pub open spec fn budget(c: int) -> int {
    if c <= 10000 {
        10001 - c
    } else {
        0
    }
}

/// Bound on the step counter after a propagation that started at `c`.
pub open spec fn calc_bound(c: int) -> int {
    if c <= 10000 {
        60001 - 5 * c
    } else {
        c + 1
    }
}

/// The margin that a propagation starting with counter `c` keeps from the
/// ends of `i128`: it never moves further than `budget(c)` steps away.
pub open spec fn coords_ok(x: i128, y: i128, c: int) -> bool {
    let d = budget(c) + 1;
    &&& i128::MIN + d <= x <= i128::MAX - d
    &&& i128::MIN + d <= y <= i128::MAX - d
}

/// All four neighbours of `(x, y)` fit in `i128`.
pub open spec fn interior(x: i128, y: i128) -> bool {
    i128::MIN < x < i128::MAX && i128::MIN < y < i128::MAX
}

/// The redstone block at `(x, y)`, if any, has a signal below 255, so that
/// one above its signal is still a `u8`.
pub open spec fn sig_ok_at(w: World, x: i128, y: i128) -> bool {
    match block_at(w, x, y) {
        Some(b) => match b.redstone {
            Some(r) => r.signal < 255,
            None => true,
        },
        None => true,
    }
}

/// Every position whose signal is below 255 in `w1` still has one in `w2`.
pub open spec fn keeps_ok(w1: World, w2: World) -> bool {
    forall|x: i128, y: i128| sig_ok_at(w1, x, y) ==> #[trigger] sig_ok_at(w2, x, y)
}

/// `a + 1`; only used on signals below 255, where it is exact.
pub open spec fn sat_inc(a: u8) -> u8 {
    if a < 255 {
        (a + 1) as u8
    } else {
        255
    }
}

/// `a - 1`, with 0 for 0.
pub open spec fn dec_signal(a: u8) -> u8 {
    if a > 0 {
        (a - 1) as u8
    } else {
        0
    }
}

/// Precedence of signal types when several neighbours feed a block.
pub open spec fn type_rank(t: Option<SignalType>) -> int {
    match t {
        Some(SignalType::Strong(true)) => 10,
        Some(SignalType::Strong(false)) => 9,
        Some(SignalType::Weak(true)) => 8,
        Some(SignalType::Weak(false)) => 7,
        None => 0,
    }
}

fn signal_type_rank(t: Option<SignalType>) -> (r: u8)
    ensures
        r as int == type_rank(t),
{
    match t {
        Some(SignalType::Strong(true)) => 10,
        Some(SignalType::Strong(false)) => 9,
        Some(SignalType::Weak(true)) => 8,
        Some(SignalType::Weak(false)) => 7,
        None => 0,
    }
}

/// The signal type a port emits: the port's own mapping, else the block's type.
pub open spec fn port_signal_type(r: Redstone, idx: int) -> Option<SignalType> {
    match r.signal_type_port_mapping[idx] {
        Some(t) => Some(t),
        None => r.signal_type,
    }
}

/// One input port of the scan of `get_max_prev`: the neighbour on port `idx`
/// wins when it outputs towards `(x, y)` and its signal is at least the best so
/// far (or it is the first lit one).
pub open spec fn max_prev_port(
    w: World,
    x: i128,
    y: i128,
    ports: [bool; 4],
    idx: int,
    acc: (Option<Orientation>, u8, Option<SignalType>),
) -> (Option<Orientation>, u8, Option<SignalType>) {
    if !ports[idx] {
        acc
    } else {
        let o = orientation_of_idx(idx);
        let (nx, ny) = o.next_coord(x as int, y as int);
        match maybe_block_at(w, nx as i128, ny as i128) {
            Some(Some(nb)) => match nb.redstone {
                Some(r) => {
                    let back = o.opposing().port_idx();
                    if r.output_ports[back] && (r.signal >= acc.1 || (acc.0 is None && r.signal > 0)) {
                        let st = port_signal_type(r, back);
                        (Some(o), r.signal, if type_rank(st) > type_rank(acc.2) { st } else { acc.2 })
                    } else {
                        acc
                    }
                },
                None => acc,
            },
            _ => acc,
        }
    }
}

/// The scan of `get_max_prev` over the ports from `idx` on.
pub open spec fn max_prev_from(
    w: World,
    x: i128,
    y: i128,
    ports: [bool; 4],
    idx: int,
    acc: (Option<Orientation>, u8, Option<SignalType>),
) -> (Option<Orientation>, u8, Option<SignalType>)
    decreases 4 - idx,
{
    if idx >= 4 {
        acc
    } else {
        max_prev_from(w, x, y, ports, idx + 1, max_prev_port(w, x, y, ports, idx, acc))
    }
}

/// The strongest signal that reaches `(x, y)` through its input ports: the
/// port it comes from, its strength and its type. A position without a
/// redstone block gives `(None, 0, None)`.
pub open spec fn max_prev(w: World, x: i128, y: i128) -> (Option<Orientation>, u8, Option<SignalType>) {
    match block_at(w, x, y) {
        Some(b) => match b.redstone {
            Some(r) => max_prev_from(w, x, y, r.input_ports, 0, (None, sat_inc(r.signal), r.signal_type)),
            None => (None, 0, None),
        },
        None => (None, 0, None),
    }
}

/// The strongest signal reaching `(x, y)`; see [`max_prev`]. The block at
/// `(x, y)` starts from one above its own signal, so that signal must be below
/// 255.
pub fn get_max_prev(chunks: &Chunks, x: i128, y: i128) -> (r: (Option<Orientation>, u8, Option<SignalType>))
    requires
        interior(x, y),
        sig_ok_at(chunks@, x, y),
    ensures
        r == max_prev(chunks@, x, y),
{
    let chunk_blk = chunks.get_maybe_block(x, y);
    let curr_blk = if let Some(curr_blk) = chunk_blk {
        curr_blk
    } else {
        return (None, 0, None);
    };
    let rs = match curr_blk {
        Some(Block { redstone: Some(rs), .. }) => rs,
        _ => {
            return (None, 0, None);
        },
    };
    let input_ports = rs.input_ports;
    let mut max_signal: u8 = rs.signal + 1;
    let mut max_signal_loc: Option<Orientation> = None;
    let mut max_signal_type = rs.signal_type;
    let ghost w = chunks@;
    let mut idx: usize = 0;
    while idx < 4
        invariant
            idx <= 4,
            interior(x, y),
            w == chunks@,
            max_prev(w, x, y) == max_prev_from(w, x, y, input_ports, idx as int, (max_signal_loc, max_signal, max_signal_type)),
        decreases 4 - idx,
    {
        let ghost acc = (max_signal_loc, max_signal, max_signal_type);
        if input_ports[idx] {
            let port_orientation = Orientation::port_idx_to_orientation(idx);
            let (next_x, next_y) = port_orientation.get_next_coord(x, y);
            let next_blk = chunks.get_maybe_block(next_x, next_y);
            if let Some(Some(Block { redstone: Some(nr), .. })) = next_blk {
                let back = port_orientation.get_opposing().to_port_idx();
                if nr.output_ports[back] && (nr.signal >= max_signal || (max_signal_loc.is_none()
                    && nr.signal > 0)) {
                    max_signal = nr.signal;
                    max_signal_loc = Some(port_orientation);
                    let st = match nr.signal_type_port_mapping[back] {
                        Some(t) => Some(t),
                        None => nr.signal_type,
                    };
                    if signal_type_rank(st) > signal_type_rank(max_signal_type) {
                        max_signal_type = st;
                    }
                }
            }
        }
        assert((max_signal_loc, max_signal, max_signal_type) == max_prev_port(w, x, y, input_ports, idx as int, acc));
        idx = idx + 1;
    }
    (max_signal_loc, max_signal, max_signal_type)
}

/// A block of redstone at `(x, y)` that connects towards `input_port`: it has
/// an input or an output port on that side, or it is dust, and it is a signal
/// source (strong or weak).
pub open spec fn redstone_connects(w: World, x: i128, y: i128, input_port: Orientation) -> bool {
    match block_at(w, x, y) {
        Some(b) => match b.redstone {
            Some(r) => (r.input_ports[input_port.port_idx()] || r.kind == Some(RedstoneKind::Dust)
                || r.output_ports[input_port.port_idx()]) && (r.signal_type == Some(SignalType::Strong(true))
                || r.signal_type == Some(SignalType::Weak(true))),
            None => false,
        },
        None => false,
    }
}

pub fn is_redstone(chunks: &Chunks, x: i128, y: i128, input_port: Orientation) -> (r: bool)
    ensures
        r == redstone_connects(chunks@, x, y, input_port),
{
    let maybe_blk = chunks.get_block_ref(x, y);
    let blk = if let Some(blk) = maybe_blk {
        blk
    } else {
        return false;
    };
    let redstone = if let Block { redstone: Some(redstone), .. } = blk {
        redstone
    } else {
        return false;
    };
    let idx = input_port.to_port_idx();
    let is_dust = match redstone.kind {
        Some(RedstoneKind::Dust) => true,
        _ => false,
    };
    let is_source = match redstone.signal_type {
        Some(SignalType::Strong(true)) | Some(SignalType::Weak(true)) => true,
        _ => false,
    };
    (redstone.input_ports[idx] || is_dust || redstone.output_ports[idx]) && is_source
}

/// The dust at `(x, y)`, if the block there is redstone dust.
pub open spec fn dust_at(w: World, x: i128, y: i128) -> Option<Redstone> {
    match block_at(w, x, y) {
        Some(b) => match b.redstone {
            Some(r) => if r.kind == Some(RedstoneKind::Dust) {
                Some(r)
            } else {
                None
            },
            None => None,
        },
        None => None,
    }
}

/// The redstone dust at `(x, y)`, if any; the chunk is created when missing.
pub fn get_redstone_dust(chunks: &mut Chunks, x: i128, y: i128) -> (r: Option<Redstone>)
    ensures
        final(chunks)@ == with_chunk(old(chunks)@, x, y),
        r == dust_at(old(chunks)@, x, y),
{
    let maybe_blk = chunks.get_block(x, y);
    let blk = if let Some(blk) = maybe_blk {
        blk
    } else {
        return None;
    };
    let redstone = if let Block { redstone: Some(redstone), .. } = blk {
        redstone
    } else {
        return None;
    };
    match redstone.kind {
        Some(RedstoneKind::Dust) => Some(redstone),
        _ => None,
    }
}


/// Whether the mechanism is a torch or a repeater.
pub open spec fn is_redstone_mechanism(m: Option<MechanismKind>) -> bool {
    match m {
        Some(MechanismKind::RedstoneTorch) => true,
        Some(MechanismKind::Repeater { .. }) => true,
        _ => false,
    }
}

/// How a signal that enters `blk` at `(x, y)` through `from_port` is let in:
/// `None` when it stops there, else the events after it entered. A signal that
/// enters a mechanism switches the mechanism on (or off, for a 0 signal).
pub open spec fn gate(
    ev: EventsModel,
    x: i128,
    y: i128,
    from_port: Option<Orientation>,
    input: u8,
    prev_type: Option<SignalType>,
    blk: Block,
    r: Redstone,
) -> Option<EventsModel> {
    match from_port {
        None => Some(ev),
        Some(fp) => if !r.input_ports[fp.port_idx()] {
            None
        } else {
            match r.kind {
                Some(RedstoneKind::Dust) => match prev_type {
                    Some(SignalType::Weak(false)) => None,
                    None => None,
                    _ => Some(ev),
                },
                Some(RedstoneKind::Mechanism) => {
                    let is_rs = is_redstone_mechanism(blk.mechanism);
                    Some(
                        if input > 0 {
                            events_turn_on(ev, x, y, is_rs)
                        } else {
                            events_turn_off(ev, x, y, is_rs)
                        },
                    )
                },
                None => match prev_type {
                    Some(SignalType::Weak(false)) => None,
                    Some(SignalType::Strong(false)) => None,
                    _ => Some(ev),
                },
                Some(RedstoneKind::Block) => None,
            }
        },
    }
}

/// The signal type a block sends on, with the value its `signal_type` field
/// takes: `None` when the propagation stops there. A block that is its own
/// strong source ignores what comes in through a port; a carried type is
/// dropped when its source goes off; a block without a type takes the carried
/// version of the type that arrives.
pub open spec fn output_type(
    r: Redstone,
    from_port: Option<Orientation>,
    input: u8,
    prev_type: Option<SignalType>,
) -> Option<(Option<SignalType>, SignalType)> {
    match r.signal_type {
        Some(cst) => if cst == SignalType::Strong(true) && from_port is Some {
            None
        } else {
            let clear = input == 0 && ((cst == SignalType::Weak(false) && prev_type == Some(
                SignalType::Weak(true),
            )) || (cst == SignalType::Strong(false) && prev_type == Some(SignalType::Strong(true))));
            Some((if clear { None } else { r.signal_type }, cst))
        },
        None => match prev_type {
            Some(SignalType::Strong(true)) => Some(
                (if input > 0 { Some(SignalType::Strong(false)) } else { None }, SignalType::Strong(false)),
            ),
            Some(SignalType::Weak(true)) => Some(
                (if input > 0 { Some(SignalType::Weak(false)) } else { None }, SignalType::Weak(false)),
            ),
            _ => None,
        },
    }
}

/// The block takes the incoming signal: it rises to (or above) its signal, or
/// it is the fall of the signal just above it.
pub open spec fn takes_signal(input: u8, prev: u8, signal: u8) -> bool {
    input >= signal || (prev as int == signal as int + 1 && signal > 0 && input == 0)
}

/// After a propagation at `(x, y)`: a 0 signal asks for the position to be
/// recomputed from its neighbours.
pub open spec fn finish(s: SimState, x: i128, y: i128, input: u8) -> SimState {
    if input == 0 {
        SimState { events: events_repropagate(s.events, x, y), ..s }
    } else {
        s
    }
}

/// The propagation of a signal arriving at `(x, y)`.
///
/// Nothing happens for a signal of 1, or a 0 signal whose previous value was
/// at most 1. Otherwise the chunk of `(x, y)` is created when missing; a block
/// without redstone stops the signal. The signal must pass [`gate`]; then the
/// step counter grows by one and, past `MAX_CALCULATIONS`, the propagation is
/// queued for the next tick. If the block [`takes_signal`] and [`output_type`]
/// lets it on, the block's signal becomes `input`, the block is marked for
/// redrawing and the signal, one lower, goes out of each output port (see
/// [`propagate_ports`]). A 0 signal finally asks for the position to be
/// recomputed.
pub open spec fn propagate(
    s: SimState,
    x: i128,
    y: i128,
    from_port: Option<Orientation>,
    input: u8,
    prev: u8,
    prev_type: Option<SignalType>,
) -> SimState
    decreases budget(s.calculations), 0int,
{
    if (input == 0 && prev <= 1) || input == 1 {
        s
    } else {
        let s1 = SimState { world: with_chunk(s.world, x, y), ..s };
        match block_at(s.world, x, y) {
            None => s1,
            Some(blk) => match blk.redstone {
                None => s1,
                Some(r) => match gate(s.events, x, y, from_port, input, prev_type, blk, r) {
                    None => s1,
                    Some(ev) => {
                        let c1 = s.calculations + 1;
                        let s2 = SimState { events: ev, calculations: c1, ..s1 };
                        if c1 > 10000 {
                            SimState {
                                queue: s2.queue.push(
                                    PropagationEntry {
                                        x,
                                        y,
                                        input_signal: input,
                                        from_port,
                                        previous_signal: prev,
                                        prev_signal_type: prev_type,
                                    },
                                ),
                                ..s2
                            }
                        } else if takes_signal(input, prev, r.signal) {
                            if from_port is Some && input == r.signal && input > 0 {
                                s2
                            } else {
                                match output_type(r, from_port, input, prev_type) {
                                    None => s2,
                                    Some(ot) => {
                                        let r2 = Redstone { signal: input, signal_type: ot.0, ..r };
                                        let s3 = SimState {
                                            world: set_block_at(
                                                s2.world,
                                                x,
                                                y,
                                                Some(Block { redstone: Some(r2), ..blk }),
                                            ),
                                            events: events_update_entity(s2.events, x, y),
                                            ..s2
                                        };
                                        let s4 = propagate_ports(
                                            s3,
                                            x,
                                            y,
                                            0,
                                            r.output_ports,
                                            r.signal_type_port_mapping,
                                            dec_signal(input),
                                            r.signal,
                                            ot.1,
                                        );
                                        finish(s4, x, y, input)
                                    },
                                }
                            }
                        } else {
                            finish(s2, x, y, input)
                        }
                    },
                },
            },
        }
    }
}

/// The signal leaving `(x, y)` through the output ports from `idx` on: each
/// open port propagates `transmitted` to its neighbour, which it enters
/// through the opposing port, with the port's mapped type (else `out_type`).
pub open spec fn propagate_ports(
    s: SimState,
    x: i128,
    y: i128,
    idx: int,
    output_ports: [bool; 4],
    mapping: [Option<SignalType>; 4],
    transmitted: u8,
    current: u8,
    out_type: SignalType,
) -> SimState
    decreases budget(s.calculations), 5 - idx,
{
    if idx < 0 || idx >= 4 {
        s
    } else if !output_ports[idx] {
        propagate_ports(s, x, y, idx + 1, output_ports, mapping, transmitted, current, out_type)
    } else {
        let o = orientation_of_idx(idx);
        let (nx, ny) = o.next_coord(x as int, y as int);
        let t = match mapping[idx] {
            Some(t) => t,
            None => out_type,
        };
        let s2 = propagate(s, nx as i128, ny as i128, Some(o.opposing()), transmitted, current, Some(t));
        let s3 = if s2.calculations >= s.calculations {
            s2
        } else {
            s
        };
        propagate_ports(s3, x, y, idx + 1, output_ports, mapping, transmitted, current, out_type)
    }
}

fn gate_exec(
    listeners: &mut EventListeners,
    x: i128,
    y: i128,
    from_port: Option<Orientation>,
    input: u8,
    prev_type: Option<SignalType>,
    blk: Block,
    r: Redstone,
) -> (cont: bool)
    ensures
        cont == gate(old(listeners)@, x, y, from_port, input, prev_type, blk, r) is Some,
        cont ==> final(listeners)@ == gate(old(listeners)@, x, y, from_port, input, prev_type, blk, r)->0,
        !cont ==> final(listeners)@ == old(listeners)@,
{
    match from_port {
        None => true,
        Some(fp) => {
            if !r.input_ports[fp.to_port_idx()] {
                return false;
            }
            match r.kind {
                Some(RedstoneKind::Dust) => match prev_type {
                    Some(SignalType::Weak(false)) => false,
                    None => false,
                    _ => true,
                },
                Some(RedstoneKind::Mechanism) => {
                    let is_redstone = match blk.mechanism {
                        Some(MechanismKind::RedstoneTorch) => true,
                        Some(MechanismKind::Repeater { .. }) => true,
                        _ => false,
                    };
                    if input > 0 {
                        listeners.turn_mechanism_on(x, y, is_redstone);
                    } else {
                        listeners.turn_mechanism_off(x, y, is_redstone);
                    }
                    true
                },
                None => match prev_type {
                    Some(SignalType::Weak(false)) => false,
                    Some(SignalType::Strong(false)) => false,
                    _ => true,
                },
                Some(RedstoneKind::Block) => false,
            }
        },
    }
}

fn output_type_exec(
    r: Redstone,
    from_port: Option<Orientation>,
    input: u8,
    prev_type: Option<SignalType>,
) -> (res: Option<(Option<SignalType>, SignalType)>)
    ensures
        res == output_type(r, from_port, input, prev_type),
{
    match r.signal_type {
        Some(cst) => {
            let strong_source = match cst {
                SignalType::Strong(true) => true,
                _ => false,
            };
            if strong_source && from_port.is_some() {
                return None;
            }
            let weak_off = match (cst, prev_type) {
                (SignalType::Weak(false), Some(SignalType::Weak(true))) => true,
                _ => false,
            };
            let strong_off = match (cst, prev_type) {
                (SignalType::Strong(false), Some(SignalType::Strong(true))) => true,
                _ => false,
            };
            if input == 0 && (weak_off || strong_off) {
                Some((None, cst))
            } else {
                Some((r.signal_type, cst))
            }
        },
        None => match prev_type {
            Some(SignalType::Strong(true)) => Some(
                (if input > 0 { Some(SignalType::Strong(false)) } else { None }, SignalType::Strong(false)),
            ),
            Some(SignalType::Weak(true)) => Some(
                (if input > 0 { Some(SignalType::Weak(false)) } else { None }, SignalType::Weak(false)),
            ),
            _ => None,
        },
    }
}

/// Propagates a signal of strength `input_signal` arriving at `(x, y)` through
/// `from_port` (or lit by the block itself for `None`), where the signal was
/// `previous_signal` of type `prev_signal_type`. The result is [`propagate`].
pub fn propagate_signal_at(
    chunks: &mut Chunks,
    x: i128,
    y: i128,
    from_port: Option<Orientation>,
    input_signal: u8,
    previous_signal: u8,
    prev_signal_type: Option<SignalType>,
    listeners: &mut EventListeners,
    propagation_queue: &mut PropagationQueue,
    calculations: &mut u32,
)
    requires
        *old(calculations) < u32::MAX,
        coords_ok(x, y, *old(calculations) as int),
    ensures
        sim_state(*final(chunks), *final(listeners), *final(propagation_queue), *final(calculations))
            == propagate(
            sim_state(*old(chunks), *old(listeners), *old(propagation_queue), *old(calculations)),
            x,
            y,
            from_port,
            input_signal,
            previous_signal,
            prev_signal_type,
        ),
        *old(calculations) <= *final(calculations) <= calc_bound(*old(calculations) as int),
        input_signal < 255 ==> keeps_ok(old(chunks)@, final(chunks)@),
    decreases budget(*old(calculations) as int),
{
    let ghost s0 = sim_state(*chunks, *listeners, *propagation_queue, *calculations);
    proof {
        if input_signal < 255 {
            crate::chunks::bounds::lemma_propagate_keeps_ok(
                s0,
                x,
                y,
                from_port,
                input_signal,
                previous_signal,
                prev_signal_type,
            );
        }
    }
    if (input_signal == 0 && previous_signal <= 1) || input_signal == 1 {
        return;
    }
    let curr_blk = chunks.get_block(x, y);
    let blk = match curr_blk {
        Some(blk) => blk,
        None => {
            return;
        },
    };
    let r = match blk.redstone {
        Some(r) => r,
        None => {
            return;
        },
    };
    if !gate_exec(listeners, x, y, from_port, input_signal, prev_signal_type, blk, r) {
        return;
    }
    *calculations = *calculations + 1;
    if *calculations > MAX_CALCULATIONS {
        propagation_queue.append(x, y, input_signal, from_port, previous_signal, prev_signal_type);
        return;
    }
    let lit = input_signal >= r.signal || ((previous_signal as u16) == (r.signal as u16) + 1 && r.signal
        > 0 && input_signal == 0);
    if lit {
        if from_port.is_some() && input_signal == r.signal && input_signal > 0 {
            return;
        }
        let ot = match output_type_exec(r, from_port, input_signal, prev_signal_type) {
            Some(ot) => ot,
            None => {
                return;
            },
        };
        let (new_signal_type, output_signal_type) = ot;
        let current_signal = r.signal;
        let r2 = Redstone { signal: input_signal, signal_type: new_signal_type, ..r };
        chunks.set_block(x, y, Some(Block { redstone: Some(r2), ..blk }));
        let transmitted_signal = if input_signal > 0 {
            input_signal - 1
        } else {
            0
        };
        listeners.update_entity(x, y);
        let output_ports = r.output_ports;
        let mapping = r.signal_type_port_mapping;
        let ghost c1 = *calculations as int;
        let ghost s3 = sim_state(*chunks, *listeners, *propagation_queue, *calculations);
        let ghost target = propagate_ports(
            s3,
            x,
            y,
            0,
            output_ports,
            mapping,
            transmitted_signal,
            current_signal,
            output_signal_type,
        );
        let mut idx: usize = 0;
        while idx < 4
            invariant
                idx <= 4,
                c1 == s0.calculations + 1,
                s0.calculations == *old(calculations) as int,
                c1 <= 10000,
                coords_ok(x, y, s0.calculations),
                c1 <= *calculations <= calc_bound(c1) + idx,
                input_signal < 255 ==> keeps_ok(
                    s0.world,
                    propagate(s0, x, y, from_port, input_signal, previous_signal, prev_signal_type).world,
                ),
                propagate_ports(
                    sim_state(*chunks, *listeners, *propagation_queue, *calculations),
                    x,
                    y,
                    idx as int,
                    output_ports,
                    mapping,
                    transmitted_signal,
                    current_signal,
                    output_signal_type,
                ) == target,
            decreases 4 - idx,
        {
            if output_ports[idx] {
                let port_orientation = Orientation::port_idx_to_orientation(idx);
                let input_port_orientation = port_orientation.get_opposing();
                let (next_x, next_y) = port_orientation.get_next_coord(x, y);
                let port_output_signal_type = match mapping[idx] {
                    Some(t) => t,
                    None => output_signal_type,
                };
                propagate_signal_at(
                    chunks,
                    next_x,
                    next_y,
                    Some(input_port_orientation),
                    transmitted_signal,
                    current_signal,
                    Some(port_output_signal_type),
                    listeners,
                    propagation_queue,
                    calculations,
                );
            }
            idx = idx + 1;
        }
    }
    if input_signal == 0 {
        listeners.repropagate(x, y);
    }
}


/// Both coordinates lie at least `d` away from the ends of `i128`, so that
/// `d` steps in any direction stay in `i128`.
pub open spec fn margin_ok(x: i128, y: i128, d: int) -> bool {
    &&& i128::MIN + d <= x <= i128::MAX - d
    &&& i128::MIN + d <= y <= i128::MAX - d
}

/// The margin that any propagation started next to a position needs: one
/// propagation reaches at most [`budget`] steps, and it may start at a
/// neighbour.
pub open spec fn reach() -> int {
    10003
}

/// One step from a position with margin `d` keeps margin `d - 1`.
pub proof fn lemma_within_step(x: i128, y: i128, o: Orientation, d: int)
    requires
        margin_ok(x, y, d),
        d >= 1,
    ensures
        o.can_step(x, y),
        margin_ok(o.next_coord(x as int, y as int).0 as i128, o.next_coord(x as int, y as int).1 as i128, d - 1),
{
}

/// A position with the margin of [`reach`], and each of its neighbours, can
/// start a propagation with any counter.
pub proof fn lemma_in_play_coords(x: i128, y: i128, o: Orientation, c: int)
    requires
        margin_ok(x, y, reach()),
        c >= 0,
    ensures
        interior(x, y),
        coords_ok(x, y, c),
        o.can_step(x, y),
        coords_ok(o.next_coord(x as int, y as int).0 as i128, o.next_coord(x as int, y as int).1 as i128, c),
        interior(o.next_coord(x as int, y as int).0 as i128, o.next_coord(x as int, y as int).1 as i128),
{
}

/// `calc_bound` composes: a propagation never takes the counter above
/// `max(c, 60000) + 1`.
pub proof fn lemma_calc_bound(c: int)
    requires
        c >= 0,
    ensures
        calc_bound(c) <= (if c > 60000 { c } else { 60000 }) + 1,
{
}

/// The redstone of `(x, y)` replaced by `r` (the block must exist).
pub open spec fn with_redstone(w: World, x: i128, y: i128, r: Redstone) -> World {
    set_block_at(w, x, y, Some(Block { redstone: Some(r), ..block_at(w, x, y)->0 }))
}

/// The output port of `r` facing `o` opened or closed.
pub open spec fn port_set(r: Redstone, o: Orientation, on: bool) -> Redstone {
    Redstone { output_ports: vstd::array::spec_array_update(r.output_ports, o.port_idx(), on), ..r }
}

/// Summary of the scan of `update_dust_ports` over the four sides.
pub struct DustScan {
    pub state: SimState,
    pub stopped: bool,
    pub last: Orientation,
    pub count: int,
    pub changed: bool,
}

/// The scan of `update_dust_ports` from side `idx` on: the dust at `(x, y)`
/// opens its output port towards each neighbour that [`redstone_connects`]
/// back to it and closes the others, and after each side propagates its
/// current signal to that neighbour. It stops when there is no dust at `(x, y)`.
pub open spec fn dust_scan(s: SimState, x: i128, y: i128, idx: int, last: Orientation, count: int, changed: bool) -> DustScan
    decreases 4 - idx,
{
    if idx < 0 || idx >= 4 {
        DustScan { state: s, stopped: false, last, count, changed }
    } else {
        let o = orientation_of_idx(idx);
        let (nx, ny) = o.next_coord(x as int, y as int);
        let open = redstone_connects(s.world, nx as i128, ny as i128, o.opposing());
        match dust_at(s.world, x, y) {
            None => DustScan { state: SimState { world: with_chunk(s.world, x, y), ..s }, stopped: true, last, count, changed },
            Some(rd) => {
                let initial = rd.output_ports[o.port_idx()];
                let rd2 = port_set(rd, o, open);
                let s1 = SimState { world: with_redstone(with_chunk(s.world, x, y), x, y, rd2), ..s };
                let s2 = propagate(s1, nx as i128, ny as i128, Some(o.opposing()), 0, rd2.signal, rd2.signal_type);
                dust_scan(
                    s2,
                    x,
                    y,
                    idx + 1,
                    if open { o } else { last },
                    if open { count + 1 } else { count },
                    changed || open != initial,
                )
            },
        }
    }
}

/// The ports of a dust with `count` connections: a dust connected on one side
/// also points the opposite way; a dust with no connection points everywhere.
pub open spec fn dust_shape(rd: Redstone, last: Orientation, count: int) -> Redstone {
    if count == 1 {
        port_set(rd, last.opposing(), true)
    } else if count == 0 {
        Redstone { output_ports: [true, true, true, true], ..rd }
    } else {
        rd
    }
}

/// What `update_dust_ports` does to the dust at `(x, y)`: the scan
/// ([`dust_scan`]), then the shape of the dust ([`dust_shape`]); when a port
/// changed, the old signal is taken away (propagated as a fall from one above
/// it) and the strongest signal around is propagated again ([`max_prev`]).
pub open spec fn update_dust(s: SimState, x: i128, y: i128) -> SimState {
    let scan = dust_scan(s, x, y, 0, Orientation::Up, 0, false);
    let s1 = scan.state;
    if scan.stopped {
        s1
    } else {
        let w1 = with_chunk(s1.world, x, y);
        match dust_at(s1.world, x, y) {
            None => SimState { world: w1, ..s1 },
            Some(rd) => {
                let s2 = if scan.count == 1 || scan.count == 0 {
                    SimState { world: with_redstone(w1, x, y, dust_shape(rd, scan.last, scan.count)), ..s1 }
                } else {
                    SimState { world: w1, ..s1 }
                };
                if !scan.changed {
                    s2
                } else {
                    match dust_at(s2.world, x, y) {
                        None => s2,
                        Some(rd3) => {
                            let s3 = propagate(s2, x, y, None, 0, sat_inc(rd3.signal), None);
                            let mp = max_prev(s3.world, x, y);
                            propagate(s3, x, y, mp.0, dec_signal(mp.1), mp.1, mp.2)
                        },
                    }
                }
            },
        }
    }
}

fn set_dust(chunks: &mut Chunks, x: i128, y: i128, rd: Redstone)
    requires
        block_at(old(chunks)@, x, y) is Some,
    ensures
        final(chunks)@ == with_redstone(old(chunks)@, x, y, rd),
{
    let blk = chunks.get_block(x, y);
    match blk {
        Some(b) => {
            chunks.set_block(x, y, Some(Block { redstone: Some(rd), ..b }));
        },
        None => {},
    }
}

/// Reconnects the redstone dust at `(x, y)` to its neighbours and updates the
/// signals that this changes; see [`update_dust`]. When the scan changes a
/// port, the dust's signal must be below 255: one above it is propagated.
pub fn update_dust_ports(
    chunks: &mut Chunks,
    x: i128,
    y: i128,
    listeners: &mut EventListeners,
    propagation_queue: &mut PropagationQueue,
    calculations: &mut u32,
)
    requires
        *old(calculations) <= 4_000_000_000,
        margin_ok(x, y, reach()),
        dust_scan(sim_state(*old(chunks), *old(listeners), *old(propagation_queue), *old(calculations)), x, y, 0, Orientation::Up, 0, false).changed ==> dust_at(old(chunks)@, x, y) is Some ==> dust_at(
            old(chunks)@,
            x,
            y,
        )->0.signal < 255,
    ensures
        sim_state(*final(chunks), *final(listeners), *final(propagation_queue), *final(calculations))
            == update_dust(sim_state(*old(chunks), *old(listeners), *old(propagation_queue), *old(calculations)), x, y),
        *old(calculations) <= *final(calculations) <= (if *old(calculations) > 60000 { *old(calculations) as int } else { 60000 }) + 6,
        keeps_ok(old(chunks)@, final(chunks)@),
{
    let ghost s0 = sim_state(*chunks, *listeners, *propagation_queue, *calculations);
    proof {
        crate::chunks::bounds::lemma_update_dust_keeps_ok(s0, x, y);
    }
    let ghost c0 = *calculations as int;
    let ghost top = if c0 > 60000 { c0 } else { 60000 };
    let mut last_orientation = Orientation::Up;
    let mut count: u8 = 0;
    let mut changed: bool = false;
    let mut idx: usize = 0;
    while idx < 4
        invariant
            idx <= 4,
            count <= idx,
            margin_ok(x, y, reach()),
            c0 <= *calculations <= top + idx,
            c0 == *old(calculations) as int,
            c0 <= 4_000_000_000,
            top == (if c0 > 60000 { c0 } else { 60000 }),
            s0 == sim_state(*old(chunks), *old(listeners), *old(propagation_queue), *old(calculations)),
            keeps_ok(s0.world, update_dust(s0, x, y).world),
            idx == 0 ==> sim_state(*chunks, *listeners, *propagation_queue, *calculations) == s0,
            idx > 0 && dust_scan(s0, x, y, 0, Orientation::Up, 0, false).changed ==> sig_ok_at(s0.world, x, y),
            dust_scan(s0, x, y, 0, Orientation::Up, 0, false).changed ==> dust_at(s0.world, x, y) is Some ==> dust_at(
                s0.world,
                x,
                y,
            )->0.signal < 255,
            dust_scan(s0, x, y, 0, Orientation::Up, 0, false) == dust_scan(
                sim_state(*chunks, *listeners, *propagation_queue, *calculations),
                x,
                y,
                idx as int,
                last_orientation,
                count as int,
                changed,
            ),
        decreases 4 - idx,
    {
        let orientation = Orientation::port_idx_to_orientation(idx);
        proof {
            lemma_in_play_coords(x, y, orientation, *calculations as int);
        }
        let (next_x, next_y) = orientation.get_next_coord(x, y);
        let is_dust_and_open = is_redstone(chunks, next_x, next_y, orientation.get_opposing());
        let redstone = get_redstone_dust(chunks, x, y);
        let rd = match redstone {
            Some(rd) => rd,
            None => {
                return;
            },
        };
        proof {
            if idx == 0 && dust_scan(s0, x, y, 0, Orientation::Up, 0, false).changed {
                assert(sig_ok_at(s0.world, x, y));
            }
        }
        let port = orientation.to_port_idx();
        let initial = rd.output_ports[port];
        let mut rd2 = rd;
        toggle_port(&mut rd2, orientation, false);
        let mut current = false;
        if is_dust_and_open {
            current = true;
            toggle_port(&mut rd2, orientation, true);
            last_orientation = orientation;
            count = count + 1;
        }
        if current != initial {
            changed = true;
        }
        proof {
            assert(rd2.output_ports =~= port_set(rd, orientation, is_dust_and_open).output_ports);
        }
        set_dust(chunks, x, y, rd2);
        let signal = rd2.signal;
        let signal_type = rd2.signal_type;
        proof {
            lemma_calc_bound(*calculations as int);
        }
        propagate_signal_at(
            chunks,
            next_x,
            next_y,
            Some(orientation.get_opposing()),
            0,
            signal,
            signal_type,
            listeners,
            propagation_queue,
            calculations,
        );
        idx = idx + 1;
    }
    let ghost s1 = sim_state(*chunks, *listeners, *propagation_queue, *calculations);
    proof {
        crate::chunks::bounds::lemma_dust_scan_keeps_ok(s0, x, y, 0, Orientation::Up, 0, false);
        assert(changed ==> sig_ok_at(s1.world, x, y));
    }
    let redstone = get_redstone_dust(chunks, x, y);
    let rd = match redstone {
        Some(rd) => rd,
        None => {
            return;
        },
    };
    proof {
        crate::chunks::laws::lemma_with_chunk_keeps_blocks(s1.world, x, y, x, y);
        assert(changed ==> rd.signal < 255);
    }
    let ghost w2 = chunks@;
    if count == 1 {
        let mut rd2 = rd;
        toggle_port(&mut rd2, last_orientation.get_opposing(), true);
        set_dust(chunks, x, y, rd2);
    } else if count == 0 {
        let mut rd2 = rd;
        toggle_port(&mut rd2, Orientation::Up, true);
        toggle_port(&mut rd2, Orientation::Right, true);
        toggle_port(&mut rd2, Orientation::Down, true);
        toggle_port(&mut rd2, Orientation::Left, true);
        assert(rd2 == dust_shape(rd, last_orientation, 0)) by {
            assert(rd2.output_ports =~= [true, true, true, true]);
        }
        set_dust(chunks, x, y, rd2);
    }
    proof {
        if count == 1 || count == 0 {
            crate::chunks::laws::lemma_read_after_write(w2, x, y, Some(Block { redstone: Some(dust_shape(rd, last_orientation, count as int)), ..block_at(w2, x, y)->0 }), x, y);
        }
        assert(changed ==> sig_ok_at(chunks@, x, y));
    }
    if changed {
        let redstone = get_redstone_dust(chunks, x, y);
        let dust = match redstone {
            Some(rs) => rs,
            None => {
                return;
            },
        };
        let prev_signal = dust.signal + 1;
        proof {
            lemma_in_play_coords(x, y, Orientation::Up, *calculations as int);
            lemma_calc_bound(*calculations as int);
        }
        propagate_signal_at(
            chunks,
            x,
            y,
            None,
            0,
            prev_signal,
            None,
            listeners,
            propagation_queue,
            calculations,
        );
        let prev_redstone = get_max_prev(chunks, x, y);
        let (from_port, previous_signal, prev_signal_type) = prev_redstone;
        let transmitted_signal = if previous_signal > 0 {
            previous_signal - 1
        } else {
            0
        };
        proof {
            lemma_in_play_coords(x, y, Orientation::Up, *calculations as int);
            lemma_calc_bound(*calculations as int);
        }
        propagate_signal_at(
            chunks,
            x,
            y,
            from_port,
            transmitted_signal,
            previous_signal,
            prev_signal_type,
            listeners,
            propagation_queue,
            calculations,
        );
    }
}

} // verus!
