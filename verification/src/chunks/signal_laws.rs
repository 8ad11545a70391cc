use vstd::prelude::*;
use crate::chunks::{World, block_at, with_chunk, set_block_at, alert_from, is_observer_at, place_spec, destroy_spec};
use crate::chunks::block::redstone::{interior, max_prev, max_prev_from, max_prev_port, sat_inc};
use crate::chunks::events::EventsModel;
use crate::chunks::block::{Block, Redstone, Orientation, SignalType, orientation_of_idx};
use crate::chunks::block::redstone::{
    SimState, propagate, propagate_ports, budget, output_type, gate, dec_signal,
};
use crate::chunks::block::MechanismKind;
use crate::chunks::block::mechanism::{execute_spec, repeater_spec};
use crate::chunks::laws::{lemma_read_after_write, lemma_with_chunk_keeps_blocks, lemma_propagate_frames, frame_at};
use crate::texture::TextureName;

verus! {

/// A block that is its own strong source ignores a signal that enters it
/// through a port: whatever arrives, the propagation changes no block at all
/// (only the events of a mechanism that was reached may change).
pub proof fn lemma_strong_source_ignores_ports(
    s: SimState,
    x: i128,
    y: i128,
    from_port: Option<Orientation>,
    input: u8,
    prev: u8,
    prev_type: Option<SignalType>,
    b: Block,
    r: Redstone,
    x2: i128,
    y2: i128,
)
    requires
        from_port is Some,
        block_at(s.world, x, y) == Some(b),
        b.redstone == Some(r),
        r.signal_type == Some(SignalType::Strong(true)),
    ensures
        block_at(propagate(s, x, y, from_port, input, prev, prev_type).world, x2, y2) == block_at(s.world, x2, y2),
{
    lemma_with_chunk_keeps_blocks(s.world, x, y, x2, y2);
    assert(output_type(r, from_port, input, prev_type) is None);
    let p = propagate(s, x, y, from_port, input, prev, prev_type);
    if !((input == 0 && prev <= 1) || input == 1) {
        match gate(s.events, x, y, from_port, input, prev_type, b, r) {
            None => {},
            Some(ev) => {
                assert(p.world == with_chunk(s.world, x, y));
            },
        }
    }
}

/// The signal of the redstone block at `(x, y)`, if there is one.
pub open spec fn signal_at(w: World, x: i128, y: i128) -> Option<u8> {
    match block_at(w, x, y) {
        Some(b) => match b.redstone {
            Some(r) => Some(r.signal),
            None => None,
        },
        None => None,
    }
}

/// Every signal of `w2` is the one of `w1` at the same position, or 0.
pub open spec fn only_darkens(w1: World, w2: World) -> bool {
    forall|x: i128, y: i128| #[trigger] signal_at(w2, x, y) == signal_at(w1, x, y) || signal_at(w2, x, y) == Some(0u8)
}

proof fn lemma_darkens_trans(w1: World, w2: World, w3: World)
    requires
        only_darkens(w1, w2),
        only_darkens(w2, w3),
    ensures
        only_darkens(w1, w3),
{
    assert forall|x: i128, y: i128| #[trigger] signal_at(w3, x, y) == signal_at(w1, x, y) || signal_at(w3, x, y) == Some(0u8) by {
        assert(signal_at(w2, x, y) == signal_at(w1, x, y) || signal_at(w2, x, y) == Some(0u8));
        assert(signal_at(w3, x, y) == signal_at(w2, x, y) || signal_at(w3, x, y) == Some(0u8));
    }
}

proof fn lemma_darkens_with_chunk(w: World, x: i128, y: i128)
    ensures
        only_darkens(w, with_chunk(w, x, y)),
{
    assert forall|x2: i128, y2: i128| #[trigger] signal_at(with_chunk(w, x, y), x2, y2) == signal_at(w, x2, y2) by {
        lemma_with_chunk_keeps_blocks(w, x, y, x2, y2);
    }
}

proof fn lemma_darkens_set(w: World, x: i128, y: i128, b: Block)
    requires
        b.redstone matches Some(r) && r.signal == 0,
    ensures
        only_darkens(w, set_block_at(w, x, y, Some(b))),
{
    assert forall|x2: i128, y2: i128| #[trigger] signal_at(set_block_at(w, x, y, Some(b)), x2, y2) == signal_at(w, x2, y2)
        || signal_at(set_block_at(w, x, y, Some(b)), x2, y2) == Some(0u8) by {
        lemma_read_after_write(w, x, y, Some(b), x2, y2);
    }
}

/// A fall (a 0 signal) only puts blocks out: each signal stays as it was or
/// drops to 0.
pub proof fn lemma_fall_only_darkens(
    s: SimState,
    x: i128,
    y: i128,
    from_port: Option<Orientation>,
    prev: u8,
    prev_type: Option<SignalType>,
)
    ensures
        only_darkens(s.world, propagate(s, x, y, from_port, 0, prev, prev_type).world),
    decreases budget(s.calculations), 0int,
{
    lemma_darkens_with_chunk(s.world, x, y);
    let input: u8 = 0;
    if prev <= 1 {
    } else {
        match block_at(s.world, x, y) {
            None => {},
            Some(blk) => match blk.redstone {
                None => {},
                Some(r) => match gate(s.events, x, y, from_port, input, prev_type, blk, r) {
                    None => {},
                    Some(ev) => {
                        let c1 = s.calculations + 1;
                        let s1 = SimState { world: with_chunk(s.world, x, y), ..s };
                        let s2 = SimState { events: ev, calculations: c1, ..s1 };
                        if c1 <= 10000 {
                            match output_type(r, from_port, input, prev_type) {
                                None => {},
                                Some(ot) => {
                                    let r2 = Redstone { signal: input, signal_type: ot.0, ..r };
                                    let b2 = Block { redstone: Some(r2), ..blk };
                                    lemma_darkens_set(s2.world, x, y, b2);
                                    let s3 = SimState {
                                        world: set_block_at(s2.world, x, y, Some(b2)),
                                        events: crate::chunks::events::events_update_entity(s2.events, x, y),
                                        ..s2
                                    };
                                    lemma_ports_fall_only_darkens(
                                        s3,
                                        x,
                                        y,
                                        0,
                                        r.output_ports,
                                        r.signal_type_port_mapping,
                                        r.signal,
                                        ot.1,
                                    );
                                    lemma_darkens_trans(s.world, s2.world, s3.world);
                                    let s4 = propagate_ports(
                                        s3,
                                        x,
                                        y,
                                        0,
                                        r.output_ports,
                                        r.signal_type_port_mapping,
                                        dec_signal(input),
                                        r.signal,
                                        ot.1,
                                    );
                                    lemma_darkens_trans(s.world, s3.world, s4.world);
                                },
                            }
                        }
                    },
                },
            },
        }
    }
}

/// A fall leaving through output ports only puts blocks out too.
pub proof fn lemma_ports_fall_only_darkens(
    s: SimState,
    x: i128,
    y: i128,
    idx: int,
    output_ports: [bool; 4],
    mapping: [Option<SignalType>; 4],
    current: u8,
    out_type: SignalType,
)
    ensures
        only_darkens(s.world, propagate_ports(s, x, y, idx, output_ports, mapping, 0, current, out_type).world),
    decreases budget(s.calculations), 5 - idx,
{
    if idx < 0 || idx >= 4 {
        assert(only_darkens(s.world, s.world));
    } else if !output_ports[idx] {
        lemma_ports_fall_only_darkens(s, x, y, idx + 1, output_ports, mapping, current, out_type);
    } else {
        let o = crate::chunks::block::orientation_of_idx(idx);
        let (nx, ny) = o.next_coord(x as int, y as int);
        let t = match mapping[idx] {
            Some(t) => t,
            None => out_type,
        };
        let s2 = propagate(s, nx as i128, ny as i128, Some(o.opposing()), 0, current, Some(t));
        lemma_fall_only_darkens(s, nx as i128, ny as i128, Some(o.opposing()), current, Some(t));
        let s3 = if s2.calculations >= s.calculations {
            s2
        } else {
            s
        };
        assert(only_darkens(s.world, s3.world));
        lemma_ports_fall_only_darkens(s3, x, y, idx + 1, output_ports, mapping, current, out_type);
        lemma_darkens_trans(
            s.world,
            s3.world,
            propagate_ports(s3, x, y, idx + 1, output_ports, mapping, 0, current, out_type).world,
        );
    }
}

/// A block at 16 that puts itself out (a fall from 17 that it starts) holds
/// 0 afterwards, whatever the fall does downstream, and keeps its mechanism.
/// The fall is only postponed when the tick's step budget is spent.
pub proof fn lemma_put_out_by_itself(s: SimState, x: i128, y: i128, b: Block, r: Redstone)
    requires
        block_at(s.world, x, y) == Some(b),
        b.redstone == Some(r),
        r.signal == 16,
        r.signal_type is Some,
        s.calculations < 10000,
    ensures
        signal_at(propagate(s, x, y, None, 0, 17, None).world, x, y) == Some(0u8),
        block_at(propagate(s, x, y, None, 0, 17, None).world, x, y) matches Some(b2) && b2.mechanism == b.mechanism,
{
    let p = propagate(s, x, y, None, 0, 17, None);
    lemma_propagate_frames(s, x, y, None, 0, 17, None);
    assert(frame_at(p.world, x, y) == frame_at(s.world, x, y));
    let ot = output_type(r, None, 0, None)->0;
    let r2 = Redstone { signal: 0, signal_type: ot.0, ..r };
    let b2 = Block { redstone: Some(r2), ..b };
    lemma_with_chunk_keeps_blocks(s.world, x, y, x, y);
    lemma_read_after_write(with_chunk(s.world, x, y), x, y, Some(b2), x, y);
    let s3 = SimState {
        world: set_block_at(with_chunk(s.world, x, y), x, y, Some(b2)),
        events: crate::chunks::events::events_update_entity(s.events, x, y),
        calculations: s.calculations + 1,
        ..s
    };
    lemma_ports_fall_only_darkens(s3, x, y, 0, r.output_ports, r.signal_type_port_mapping, r.signal, ot.1);
    assert(p.world == propagate_ports(s3, x, y, 0, r.output_ports, r.signal_type_port_mapping, 0, r.signal, ot.1).world);
    assert(signal_at(s3.world, x, y) == Some(0u8));
}

/// A signal arriving through a port, and all that it sets off downstream,
/// leaves every block that is its own strong source as it was.
pub proof fn lemma_port_signal_keeps_sources(
    s: SimState,
    x: i128,
    y: i128,
    from_port: Orientation,
    input: u8,
    prev: u8,
    prev_type: Option<SignalType>,
    tx: i128,
    ty: i128,
    tb: Block,
    tr: Redstone,
)
    requires
        block_at(s.world, tx, ty) == Some(tb),
        tb.redstone == Some(tr),
        tr.signal_type == Some(SignalType::Strong(true)),
    ensures
        block_at(propagate(s, x, y, Some(from_port), input, prev, prev_type).world, tx, ty) == Some(tb),
    decreases budget(s.calculations), 0int,
{
    let fp = Some(from_port);
    lemma_with_chunk_keeps_blocks(s.world, x, y, tx, ty);
    if x == tx && y == ty {
        lemma_strong_source_ignores_ports(s, x, y, fp, input, prev, prev_type, tb, tr, tx, ty);
    } else if !((input == 0 && prev <= 1) || input == 1) {
        match block_at(s.world, x, y) {
            None => {},
            Some(blk) => match blk.redstone {
                None => {},
                Some(r) => match gate(s.events, x, y, fp, input, prev_type, blk, r) {
                    None => {},
                    Some(ev) => {
                        let c1 = s.calculations + 1;
                        let s1 = SimState { world: with_chunk(s.world, x, y), ..s };
                        let s2 = SimState { events: ev, calculations: c1, ..s1 };
                        if c1 <= 10000 {
                            match output_type(r, fp, input, prev_type) {
                                None => {},
                                Some(ot) => {
                                    let r2 = Redstone { signal: input, signal_type: ot.0, ..r };
                                    let b2 = Block { redstone: Some(r2), ..blk };
                                    lemma_read_after_write(s2.world, x, y, Some(b2), tx, ty);
                                    let s3 = SimState {
                                        world: set_block_at(s2.world, x, y, Some(b2)),
                                        events: crate::chunks::events::events_update_entity(s2.events, x, y),
                                        ..s2
                                    };
                                    lemma_ports_keep_sources(
                                        s3,
                                        x,
                                        y,
                                        0,
                                        r.output_ports,
                                        r.signal_type_port_mapping,
                                        dec_signal(input),
                                        r.signal,
                                        ot.1,
                                        tx,
                                        ty,
                                        tb,
                                        tr,
                                    );
                                },
                            }
                        }
                    },
                },
            },
        }
    }
}

/// The signal leaving through output ports leaves every block that is its
/// own strong source as it was too.
pub proof fn lemma_ports_keep_sources(
    s: SimState,
    x: i128,
    y: i128,
    idx: int,
    output_ports: [bool; 4],
    mapping: [Option<SignalType>; 4],
    transmitted: u8,
    current: u8,
    out_type: SignalType,
    tx: i128,
    ty: i128,
    tb: Block,
    tr: Redstone,
)
    requires
        block_at(s.world, tx, ty) == Some(tb),
        tb.redstone == Some(tr),
        tr.signal_type == Some(SignalType::Strong(true)),
    ensures
        block_at(propagate_ports(s, x, y, idx, output_ports, mapping, transmitted, current, out_type).world, tx, ty)
            == Some(tb),
    decreases budget(s.calculations), 5 - idx,
{
    if idx < 0 || idx >= 4 {
    } else if !output_ports[idx] {
        lemma_ports_keep_sources(s, x, y, idx + 1, output_ports, mapping, transmitted, current, out_type, tx, ty, tb, tr);
    } else {
        let o = orientation_of_idx(idx);
        let (nx, ny) = o.next_coord(x as int, y as int);
        let t = match mapping[idx] {
            Some(t) => t,
            None => out_type,
        };
        let s2 = propagate(s, nx as i128, ny as i128, Some(o.opposing()), transmitted, current, Some(t));
        lemma_port_signal_keeps_sources(s, nx as i128, ny as i128, o.opposing(), transmitted, current, Some(t), tx, ty, tb, tr);
        let s3 = if s2.calculations >= s.calculations {
            s2
        } else {
            s
        };
        lemma_ports_keep_sources(s3, x, y, idx + 1, output_ports, mapping, transmitted, current, out_type, tx, ty, tb, tr);
    }
}

/// A block that is its own strong source and lights itself (16, from a
/// signal of at most 16) holds 16 afterwards, whatever the signal does
/// downstream, and keeps its mechanism. The signal is only postponed when the
/// tick's step budget is spent.
pub proof fn lemma_lit_by_itself(s: SimState, x: i128, y: i128, b: Block, r: Redstone)
    requires
        block_at(s.world, x, y) == Some(b),
        b.redstone == Some(r),
        r.signal <= 16,
        r.signal_type == Some(SignalType::Strong(true)),
        s.calculations < 10000,
    ensures
        signal_at(propagate(s, x, y, None, 16, 16, None).world, x, y) == Some(16u8),
        block_at(propagate(s, x, y, None, 16, 16, None).world, x, y) matches Some(b2) && b2.mechanism == b.mechanism,
{
    let p = propagate(s, x, y, None, 16, 16, None);
    let r2 = Redstone { signal: 16, ..r };
    let b2 = Block { redstone: Some(r2), ..b };
    lemma_with_chunk_keeps_blocks(s.world, x, y, x, y);
    lemma_read_after_write(with_chunk(s.world, x, y), x, y, Some(b2), x, y);
    let s3 = SimState {
        world: set_block_at(with_chunk(s.world, x, y), x, y, Some(b2)),
        events: crate::chunks::events::events_update_entity(s.events, x, y),
        calculations: s.calculations + 1,
        ..s
    };
    lemma_ports_keep_sources(s3, x, y, 0, r.output_ports, r.signal_type_port_mapping, 15, r.signal, SignalType::Strong(true), x, y, b2, r2);
    assert(p.world == propagate_ports(s3, x, y, 0, r.output_ports, r.signal_type_port_mapping, 15, r.signal, SignalType::Strong(true)).world);
}

/// A repeater whose countdown has reached 0 (or that rests with no delay)
/// fires when it is switched: switched on while dark it lights (16),
/// switched off while lit it goes dark (0); either way it rests again
/// (countdown -1). The signal is only postponed when the tick's step budget
/// is spent.
pub proof fn lemma_repeater_fires(
    s: SimState,
    x: i128,
    y: i128,
    cat: Map<TextureName, Block>,
    on: bool,
    b: Block,
    r: Redstone,
    countdown: i8,
    tick: i8,
)
    requires
        block_at(s.world, x, y) == Some(b),
        b.mechanism == Some(MechanismKind::Repeater { countdown, tick }),
        countdown == 0 || (countdown < 0 && tick == 0),
        b.redstone == Some(r),
        r.signal == (if on {
            0u8
        } else {
            16u8
        }),
        r.signal_type is Some,
        on ==> r.signal_type == Some(SignalType::Strong(true)),
        s.calculations < 10000,
    ensures
        signal_at(execute_spec(s, x, y, on, cat).world, x, y) == Some(
            if on {
                16u8
            } else {
                0u8
            },
        ),
        block_at(execute_spec(s, x, y, on, cat).world, x, y) matches Some(b2) && b2.mechanism == Some(
            MechanismKind::Repeater { countdown: -1i8, tick },
        ),
{
    let s1 = SimState { world: with_chunk(s.world, x, y), ..s };
    lemma_with_chunk_keeps_blocks(s.world, x, y, x, y);
    let nb = Block { mechanism: Some(MechanismKind::Repeater { countdown: -1i8, tick }), ..b };
    let s2 = SimState { world: set_block_at(s1.world, x, y, Some(nb)), ..s1 };
    lemma_read_after_write(s1.world, x, y, Some(nb), x, y);
    assert(execute_spec(s, x, y, on, cat) == repeater_spec(s1, b, x, y, on, countdown, tick, r));
    if on {
        assert(repeater_spec(s1, b, x, y, on, countdown, tick, r) == propagate(s2, x, y, None, 16, 16, None));
        lemma_lit_by_itself(s2, x, y, nb, r);
    } else {
        assert(repeater_spec(s1, b, x, y, on, countdown, tick, r) == propagate(s2, x, y, None, 0, 17, None));
        lemma_put_out_by_itself(s2, x, y, nb, r);
    }
}

/// A repeater whose output disagrees with its input counts one step down
/// when it is switched (from `tick` when it was at rest) and changes nothing
/// else: its signal, its other fields and the step counter stay. So does one
/// that is already counting.
pub proof fn lemma_repeater_counts_down(
    s: SimState,
    x: i128,
    y: i128,
    cat: Map<TextureName, Block>,
    on: bool,
    b: Block,
    r: Redstone,
    countdown: i8,
    tick: i8,
)
    requires
        block_at(s.world, x, y) == Some(b),
        b.mechanism == Some(MechanismKind::Repeater { countdown, tick }),
        b.redstone == Some(r),
        countdown > 0 || (countdown < 0 && tick > 0 && (if on {
            r.signal == 0
        } else {
            r.signal > 0
        })),
    ensures
        block_at(execute_spec(s, x, y, on, cat).world, x, y) == Some(
            Block {
                mechanism: Some(
                    MechanismKind::Repeater {
                        countdown: if countdown > 0 {
                            (countdown - 1) as i8
                        } else {
                            (tick - 1) as i8
                        },
                        tick,
                    },
                ),
                ..b
            },
        ),
        execute_spec(s, x, y, on, cat).calculations == s.calculations,
{
    lemma_with_chunk_keeps_blocks(s.world, x, y, x, y);
    let nb = Block {
        mechanism: Some(
            MechanismKind::Repeater {
                countdown: if countdown > 0 {
                    (countdown - 1) as i8
                } else {
                    (tick - 1) as i8
                },
                tick,
            },
        ),
        ..b
    };
    lemma_read_after_write(with_chunk(s.world, x, y), x, y, Some(nb), x, y);
}

/// Switching the mechanism at `(x, y)` on (or off) `n` times in a row.
pub open spec fn switched(s: SimState, x: i128, y: i128, on: bool, cat: Map<TextureName, Block>, n: nat) -> SimState
    decreases n,
{
    if n == 0 {
        s
    } else {
        switched(execute_spec(s, x, y, on, cat), x, y, on, cat, (n - 1) as nat)
    }
}

proof fn lemma_repeater_fires_after(
    s: SimState,
    x: i128,
    y: i128,
    cat: Map<TextureName, Block>,
    on: bool,
    b: Block,
    r: Redstone,
    countdown: i8,
    tick: i8,
)
    requires
        block_at(s.world, x, y) == Some(b),
        b.mechanism == Some(MechanismKind::Repeater { countdown, tick }),
        b.redstone == Some(r),
        r.signal == (if on {
            0u8
        } else {
            16u8
        }),
        r.signal_type is Some,
        on ==> r.signal_type == Some(SignalType::Strong(true)),
        s.calculations < 10000,
        countdown >= 0,
    ensures
        signal_at(switched(s, x, y, on, cat, (countdown + 1) as nat).world, x, y) == Some(
            if on {
                16u8
            } else {
                0u8
            },
        ),
        block_at(switched(s, x, y, on, cat, (countdown + 1) as nat).world, x, y) matches Some(b2) && b2.mechanism
            == Some(MechanismKind::Repeater { countdown: -1i8, tick }),
    decreases countdown,
{
    let s1 = execute_spec(s, x, y, on, cat);
    assert(switched(s, x, y, on, cat, (countdown + 1) as nat) == switched(s1, x, y, on, cat, countdown as nat));
    if countdown == 0 {
        lemma_repeater_fires(s, x, y, cat, on, b, r, countdown, tick);
        assert(switched(s1, x, y, on, cat, 0) == s1);
    } else {
        lemma_repeater_counts_down(s, x, y, cat, on, b, r, countdown, tick);
        let nb = Block { mechanism: Some(MechanismKind::Repeater { countdown: (countdown - 1) as i8, tick }), ..b };
        lemma_repeater_fires_after(s1, x, y, cat, on, nb, r, (countdown - 1) as i8, tick);
    }
}

/// A repeater at rest (countdown -1, delay `tick` of 0 or more) whose input
/// has changed follows it after exactly `tick + 1` switches: a dark one
/// switched on lights (16), a lit one switched off goes dark (0), and it
/// rests again.
pub proof fn lemma_repeater_follows_after_delay(
    s: SimState,
    x: i128,
    y: i128,
    cat: Map<TextureName, Block>,
    on: bool,
    b: Block,
    r: Redstone,
    tick: i8,
)
    requires
        block_at(s.world, x, y) == Some(b),
        b.mechanism == Some(MechanismKind::Repeater { countdown: -1i8, tick }),
        b.redstone == Some(r),
        r.signal == (if on {
            0u8
        } else {
            16u8
        }),
        r.signal_type is Some,
        on ==> r.signal_type == Some(SignalType::Strong(true)),
        s.calculations < 10000,
        tick >= 0,
    ensures
        signal_at(switched(s, x, y, on, cat, (tick + 1) as nat).world, x, y) == Some(
            if on {
                16u8
            } else {
                0u8
            },
        ),
        block_at(switched(s, x, y, on, cat, (tick + 1) as nat).world, x, y) matches Some(b2) && b2.mechanism
            == Some(MechanismKind::Repeater { countdown: -1i8, tick }),
{
    let s1 = execute_spec(s, x, y, on, cat);
    assert(switched(s, x, y, on, cat, (tick + 1) as nat) == switched(s1, x, y, on, cat, tick as nat));
    if tick == 0 {
        lemma_repeater_fires(s, x, y, cat, on, b, r, -1i8, tick);
        assert(switched(s1, x, y, on, cat, 0) == s1);
    } else {
        lemma_repeater_counts_down(s, x, y, cat, on, b, r, -1i8, tick);
        let nb = Block { mechanism: Some(MechanismKind::Repeater { countdown: (tick - 1) as i8, tick }), ..b };
        lemma_repeater_fires_after(s1, x, y, cat, on, nb, r, (tick - 1) as i8, tick);
    }
}

/// A torch (its own strong source, dark or lit at 16) shows the opposite of
/// its input once switched: 0 when switched on, 16 when switched off. The
/// signal is only postponed when the tick's step budget is spent.
pub proof fn lemma_torch_inverts(
    s: SimState,
    x: i128,
    y: i128,
    cat: Map<TextureName, Block>,
    on: bool,
    b: Block,
    r: Redstone,
)
    requires
        block_at(s.world, x, y) == Some(b),
        b.mechanism == Some(MechanismKind::RedstoneTorch),
        b.redstone == Some(r),
        r.signal == 0 || r.signal == 16,
        r.signal_type == Some(SignalType::Strong(true)),
        s.calculations < 10000,
    ensures
        signal_at(execute_spec(s, x, y, on, cat).world, x, y) == Some(
            if on {
                0u8
            } else {
                16u8
            },
        ),
{
    let s1 = SimState { world: with_chunk(s.world, x, y), ..s };
    lemma_with_chunk_keeps_blocks(s.world, x, y, x, y);
    assert(execute_spec(s, x, y, on, cat) == crate::chunks::block::mechanism::torch_spec(s1, x, y, on, r));
    if on && r.signal > 0 {
        lemma_put_out_by_itself(s1, x, y, b, r);
    } else if !on && r.signal == 0 {
        lemma_lit_by_itself(s1, x, y, b, r);
    }
}

/// An observer switched on emits a pulse: it holds 16 and asks to be switched
/// off again; switched off it goes dark. (Its own strong source, dark or lit
/// at 16; the signal is only postponed when the tick's step budget is spent.)
pub proof fn lemma_observer_pulse(
    s: SimState,
    x: i128,
    y: i128,
    cat: Map<TextureName, Block>,
    on: bool,
    b: Block,
    r: Redstone,
)
    requires
        block_at(s.world, x, y) == Some(b),
        b.mechanism == Some(MechanismKind::Observer),
        b.redstone == Some(r),
        r.signal == 0 || r.signal == 16,
        r.signal_type == Some(SignalType::Strong(true)),
        s.calculations < 10000,
        !on ==> r.signal == 16,
    ensures
        signal_at(execute_spec(s, x, y, on, cat).world, x, y) == Some(
            if on {
                16u8
            } else {
                0u8
            },
        ),
        on ==> execute_spec(s, x, y, on, cat).events.mechanisms_off.contains((x, y)),
{
    let s1 = SimState { world: with_chunk(s.world, x, y), ..s };
    lemma_with_chunk_keeps_blocks(s.world, x, y, x, y);
    if on {
        lemma_lit_by_itself(s1, x, y, b, r);
    } else {
        lemma_put_out_by_itself(s1, x, y, b, r);
    }
}

/// Alerting the neighbours from side `idx` on switches on every observer on
/// those sides and keeps every mechanism that was already switched on.
proof fn lemma_alert_marks(ev: EventsModel, w: World, x: i128, y: i128, idx: int)
    requires
        0 <= idx <= 4,
    ensures
        ev.mechanisms_on.subset_of(alert_from(ev, w, x, y, idx).mechanisms_on),
        forall|i: int|
            #![trigger orientation_of_idx(i)]
            idx <= i < 4 && is_observer_at(
                w,
                orientation_of_idx(i).next_coord(x as int, y as int).0 as i128,
                orientation_of_idx(i).next_coord(x as int, y as int).1 as i128,
            ) ==> alert_from(ev, w, x, y, idx).mechanisms_on.contains(
                (
                    orientation_of_idx(i).next_coord(x as int, y as int).0 as i128,
                    orientation_of_idx(i).next_coord(x as int, y as int).1 as i128,
                ),
            ),
    decreases 4 - idx,
{
    if idx < 4 {
        let (nx, ny) = orientation_of_idx(idx).next_coord(x as int, y as int);
        let ev2 = if is_observer_at(w, nx as i128, ny as i128) {
            crate::chunks::events::events_turn_on(ev, nx as i128, ny as i128, false)
        } else {
            ev
        };
        lemma_alert_marks(ev2, w, x, y, idx + 1);
    }
}

/// After a successful place at `(x, y)`, every neighbour of `(x, y)` that
/// holds an observer is among the mechanisms to switch on.
pub proof fn lemma_place_alerts_observers(
    s: SimState,
    blk: Block,
    orientation: Orientation,
    x: i128,
    y: i128,
    cat: Map<TextureName, Block>,
    side: Orientation,
)
    requires
        place_spec(s, blk, orientation, x, y, cat).1,
    ensures
        is_observer_at(
            place_spec(s, blk, orientation, x, y, cat).0.world,
            side.next_coord(x as int, y as int).0 as i128,
            side.next_coord(x as int, y as int).1 as i128,
        ) ==> place_spec(s, blk, orientation, x, y, cat).0.events.mechanisms_on.contains(
            (side.next_coord(x as int, y as int).0 as i128, side.next_coord(x as int, y as int).1 as i128),
        ),
{
    let p = place_spec(s, blk, orientation, x, y, cat).0;
    assert(orientation_of_idx(side.port_idx()) == side);
    assert(exists|ev0: EventsModel| p.events == alert_from(ev0, p.world, x, y, 0)) by {
        let w0 = with_chunk(s.world, x, y);
        let nb = crate::chunks::placed_block(blk, orientation, cat);
        let s1 = SimState { world: set_block_at(w0, x, y, Some(nb)), calculations: 0, ..s };
        let s2 = match nb.redstone {
            None => s1,
            Some(rs) => {
                let sa = if crate::chunks::is_source(rs.signal_type) {
                    crate::chunks::neighbours_update(crate::chunks::block::redstone::update_dust(s1, x, y), x, y, 0)
                } else {
                    s1
                };
                let mp = crate::chunks::block::redstone::max_prev(sa.world, x, y);
                propagate(sa, x, y, mp.0, dec_signal(mp.1), mp.1, mp.2)
            },
        };
        let ev0 = crate::chunks::events::events_update_entity(s2.events, x, y);
        assert(p.events == alert_from(ev0, p.world, x, y, 0));
    }
    let ev0 = choose|ev0: EventsModel| p.events == alert_from(ev0, p.world, x, y, 0);
    lemma_alert_marks(ev0, p.world, x, y, 0);
    assert(0 <= side.port_idx() < 4);
}

/// Destroying a block without redstone at `(x, y)` switches on every
/// neighbour of `(x, y)` that holds an observer.
pub proof fn lemma_destroy_alerts_observers(s: SimState, x: i128, y: i128, b: Block, side: Orientation)
    requires
        interior(x, y),
        block_at(s.world, x, y) == Some(b),
        b.redstone is None,
    ensures
        is_observer_at(
            destroy_spec(s, x, y).world,
            side.next_coord(x as int, y as int).0 as i128,
            side.next_coord(x as int, y as int).1 as i128,
        ) ==> destroy_spec(s, x, y).events.mechanisms_on.contains(
            (side.next_coord(x as int, y as int).0 as i128, side.next_coord(x as int, y as int).1 as i128),
        ),
{
    let w1 = set_block_at(s.world, x, y, None);
    let ev0 = crate::chunks::events::events_update_entity(s.events, x, y);
    lemma_alert_marks(ev0, w1, x, y, 0);
    assert(orientation_of_idx(side.port_idx()) == side);
    assert(0 <= side.port_idx() < 4);
    assert(destroy_spec(s, x, y).world == w1);
    assert(destroy_spec(s, x, y).events.mechanisms_on == alert_from(ev0, w1, x, y, 0).mechanisms_on.remove((x, y)));
}

/// Every signal of `w2` is the one of `w1` at the same position, or one at
/// least as strong and at most `k`.
pub open spec fn rises_to(w1: World, w2: World, k: int) -> bool {
    forall|x: i128, y: i128|
        #[trigger] signal_at(w2, x, y) == signal_at(w1, x, y) || (signal_at(w1, x, y) matches Some(a)
            && signal_at(w2, x, y) matches Some(c) && a <= c <= k)
}

proof fn lemma_rises_trans(w1: World, w2: World, w3: World, k1: int, k2: int)
    requires
        rises_to(w1, w2, k1),
        rises_to(w2, w3, k2),
    ensures
        rises_to(w1, w3, if k1 >= k2 {
            k1
        } else {
            k2
        }),
{
    let k = if k1 >= k2 {
        k1
    } else {
        k2
    };
    assert forall|x: i128, y: i128|
        #[trigger] signal_at(w3, x, y) == signal_at(w1, x, y) || (signal_at(w1, x, y) matches Some(a)
            && signal_at(w3, x, y) matches Some(c) && a <= c <= k) by {
        assert(signal_at(w2, x, y) == signal_at(w1, x, y) || (signal_at(w1, x, y) matches Some(a)
            && signal_at(w2, x, y) matches Some(c) && a <= c <= k1));
        assert(signal_at(w3, x, y) == signal_at(w2, x, y) || (signal_at(w2, x, y) matches Some(a)
            && signal_at(w3, x, y) matches Some(c) && a <= c <= k2));
    }
}

proof fn lemma_rises_with_chunk(w: World, x: i128, y: i128, k: int)
    ensures
        rises_to(w, with_chunk(w, x, y), k),
{
    assert forall|x2: i128, y2: i128| #[trigger] signal_at(with_chunk(w, x, y), x2, y2) == signal_at(w, x2, y2) by {
        lemma_with_chunk_keeps_blocks(w, x, y, x2, y2);
    }
}

/// A signal of 1 or more that arrives at `(x, y)` only raises signals, never
/// above itself; beyond `(x, y)` it raises none above one less than itself.
pub proof fn lemma_rise_only_raises(
    s: SimState,
    x: i128,
    y: i128,
    from_port: Option<Orientation>,
    input: u8,
    prev: u8,
    prev_type: Option<SignalType>,
)
    requires
        input >= 1,
    ensures
        rises_to(s.world, propagate(s, x, y, from_port, input, prev, prev_type).world, input as int),
        forall|x2: i128, y2: i128|
            (x2, y2) != (x, y) ==> #[trigger] signal_at(propagate(s, x, y, from_port, input, prev, prev_type).world, x2, y2)
                == signal_at(s.world, x2, y2) || (signal_at(s.world, x2, y2) matches Some(a) && signal_at(
                propagate(s, x, y, from_port, input, prev, prev_type).world,
                x2,
                y2,
            ) matches Some(c) && a <= c <= input - 1),
    decreases budget(s.calculations), 0int,
{
    let p = propagate(s, x, y, from_port, input, prev, prev_type);
    lemma_rises_with_chunk(s.world, x, y, input as int);
    lemma_rises_with_chunk(s.world, x, y, input - 1);
    if input == 1 {
    } else {
        match block_at(s.world, x, y) {
            None => {},
            Some(blk) => match blk.redstone {
                None => {},
                Some(r) => match gate(s.events, x, y, from_port, input, prev_type, blk, r) {
                    None => {},
                    Some(ev) => {
                        let c1 = s.calculations + 1;
                        let s1 = SimState { world: with_chunk(s.world, x, y), ..s };
                        let s2 = SimState { events: ev, calculations: c1, ..s1 };
                        if c1 <= 10000 && input >= r.signal && !(from_port is Some && input == r.signal) {
                            match output_type(r, from_port, input, prev_type) {
                                None => {},
                                Some(ot) => {
                                    let r2 = Redstone { signal: input, signal_type: ot.0, ..r };
                                    let b2 = Block { redstone: Some(r2), ..blk };
                                    lemma_with_chunk_keeps_blocks(s.world, x, y, x, y);
                                    let s3 = SimState {
                                        world: set_block_at(s2.world, x, y, Some(b2)),
                                        events: crate::chunks::events::events_update_entity(s2.events, x, y),
                                        ..s2
                                    };
                                    assert forall|x2: i128, y2: i128|
                                        #[trigger] signal_at(s3.world, x2, y2) == signal_at(s.world, x2, y2) || (signal_at(
                                            s.world,
                                            x2,
                                            y2,
                                        ) matches Some(a) && signal_at(s3.world, x2, y2) matches Some(c) && a <= c
                                            <= input) by {
                                        lemma_read_after_write(s2.world, x, y, Some(b2), x2, y2);
                                        lemma_with_chunk_keeps_blocks(s.world, x, y, x2, y2);
                                    }
                                    lemma_ports_rise_only_raises(
                                        s3,
                                        x,
                                        y,
                                        0,
                                        r.output_ports,
                                        r.signal_type_port_mapping,
                                        dec_signal(input),
                                        r.signal,
                                        ot.1,
                                    );
                                    let s4 = propagate_ports(
                                        s3,
                                        x,
                                        y,
                                        0,
                                        r.output_ports,
                                        r.signal_type_port_mapping,
                                        dec_signal(input),
                                        r.signal,
                                        ot.1,
                                    );
                                    assert(p.world == s4.world);
                                    lemma_rises_trans(s.world, s3.world, s4.world, input as int, input - 1);
                                    assert forall|x2: i128, y2: i128|
                                        (x2, y2) != (x, y) implies #[trigger] signal_at(s4.world, x2, y2) == signal_at(
                                            s.world,
                                            x2,
                                            y2,
                                        ) || (signal_at(s.world, x2, y2) matches Some(a) && signal_at(s4.world, x2, y2) matches Some(
                                            c,
                                        ) && a <= c <= input - 1) by {
                                        lemma_read_after_write(s2.world, x, y, Some(b2), x2, y2);
                                        lemma_with_chunk_keeps_blocks(s.world, x, y, x2, y2);
                                        assert(signal_at(s3.world, x2, y2) == signal_at(s.world, x2, y2));
                                        assert(signal_at(s4.world, x2, y2) == signal_at(s3.world, x2, y2) || (signal_at(
                                            s3.world,
                                            x2,
                                            y2,
                                        ) matches Some(a) && signal_at(s4.world, x2, y2) matches Some(c) && a <= c
                                            <= input - 1));
                                    }
                                },
                            }
                        }
                    },
                },
            },
        }
    }
}

/// A signal of 1 or more leaving through output ports only raises signals,
/// never above what it carries.
pub proof fn lemma_ports_rise_only_raises(
    s: SimState,
    x: i128,
    y: i128,
    idx: int,
    output_ports: [bool; 4],
    mapping: [Option<SignalType>; 4],
    transmitted: u8,
    current: u8,
    out_type: SignalType,
)
    requires
        transmitted >= 1,
    ensures
        rises_to(
            s.world,
            propagate_ports(s, x, y, idx, output_ports, mapping, transmitted, current, out_type).world,
            transmitted as int,
        ),
    decreases budget(s.calculations), 5 - idx,
{
    if idx < 0 || idx >= 4 {
        assert(rises_to(s.world, s.world, transmitted as int));
    } else if !output_ports[idx] {
        lemma_ports_rise_only_raises(s, x, y, idx + 1, output_ports, mapping, transmitted, current, out_type);
    } else {
        let o = orientation_of_idx(idx);
        let (nx, ny) = o.next_coord(x as int, y as int);
        let t = match mapping[idx] {
            Some(t) => t,
            None => out_type,
        };
        let s2 = propagate(s, nx as i128, ny as i128, Some(o.opposing()), transmitted, current, Some(t));
        lemma_rise_only_raises(s, nx as i128, ny as i128, Some(o.opposing()), transmitted, current, Some(t));
        let s3 = if s2.calculations >= s.calculations {
            s2
        } else {
            s
        };
        assert(rises_to(s.world, s3.world, transmitted as int));
        lemma_ports_rise_only_raises(s3, x, y, idx + 1, output_ports, mapping, transmitted, current, out_type);
        lemma_rises_trans(
            s.world,
            s3.world,
            propagate_ports(s3, x, y, idx + 1, output_ports, mapping, transmitted, current, out_type).world,
            transmitted as int,
            transmitted as int,
        );
    }
}

/// The strength with which the neighbour on side `idx` of `(x, y)` feeds it
/// through `ports`: `None` when that input port is closed, or the neighbour
/// has no redstone or no output port facing `(x, y)`.
pub open spec fn feed_at(w: World, x: i128, y: i128, ports: [bool; 4], idx: int) -> Option<u8> {
    let o = orientation_of_idx(idx);
    let (nx, ny) = o.next_coord(x as int, y as int);
    if !ports[idx] {
        None
    } else {
        match block_at(w, nx as i128, ny as i128) {
            Some(nb) => match nb.redstone {
                Some(r) => if r.output_ports[o.opposing().port_idx()] {
                    Some(r.signal)
                } else {
                    None
                },
                None => None,
            },
            None => None,
        }
    }
}

/// What the scan of the input ports knows after the sides before `idx`: with
/// no side chosen, every side so far feeds 0 (if at all) and the strength is
/// still `base`; with a side chosen, that side feeds exactly the strength and
/// no side so far feeds more.
pub open spec fn scan_inv(
    w: World,
    x: i128,
    y: i128,
    ports: [bool; 4],
    idx: int,
    acc: (Option<Orientation>, u8, Option<SignalType>),
    base: u8,
) -> bool {
    &&& acc.0 is None ==> acc.1 == base && forall|i: int|
        0 <= i < idx ==> (#[trigger] feed_at(w, x, y, ports, i) matches Some(v) ==> v == 0)
    &&& acc.0 matches Some(o) ==> o.port_idx() < idx && feed_at(w, x, y, ports, o.port_idx()) == Some(acc.1) && forall|
        i: int,
    | 0 <= i < idx ==> (#[trigger] feed_at(w, x, y, ports, i) matches Some(v) ==> v <= acc.1)
}

proof fn lemma_scan_keeps_inv(
    w: World,
    x: i128,
    y: i128,
    ports: [bool; 4],
    idx: int,
    acc: (Option<Orientation>, u8, Option<SignalType>),
    base: u8,
)
    requires
        0 <= idx <= 4,
        base >= 1,
        scan_inv(w, x, y, ports, idx, acc, base),
    ensures
        scan_inv(w, x, y, ports, 4, max_prev_from(w, x, y, ports, idx, acc), base),
    decreases 4 - idx,
{
    if idx < 4 {
        let acc2 = max_prev_port(w, x, y, ports, idx, acc);
        let o = orientation_of_idx(idx);
        assert(o.port_idx() == idx);
        assert forall|i: int| 0 <= i < idx + 1 implies (#[trigger] feed_at(w, x, y, ports, i) matches Some(v) ==> (
        if acc2.0 is None {
            v == 0
        } else {
            v <= acc2.1
        })) by {
            if i < idx {
                assert(feed_at(w, x, y, ports, i) matches Some(v) ==> (if acc.0 is None {
                    v == 0
                } else {
                    v <= acc.1
                }));
            }
        }
        assert(scan_inv(w, x, y, ports, idx + 1, acc2, base));
        lemma_scan_keeps_inv(w, x, y, ports, idx + 1, acc2, base);
    }
}

/// The strongest signal reaching a redstone block ([`max_prev`]): when it
/// names a side, the neighbour on that side feeds the block (an open input
/// port facing an open output port) with exactly the reported strength and no
/// neighbour feeds it more; when it names none, no neighbour feeds it
/// anything above 0 and the strength is one above the block's own.
pub proof fn lemma_max_prev_is_strongest(w: World, x: i128, y: i128, b: Block, r: Redstone)
    requires
        block_at(w, x, y) == Some(b),
        b.redstone == Some(r),
    ensures
        max_prev(w, x, y).0 matches Some(o) ==> feed_at(w, x, y, r.input_ports, o.port_idx()) == Some(
            max_prev(w, x, y).1,
        ),
        forall|i: int|
            0 <= i < 4 ==> (#[trigger] feed_at(w, x, y, r.input_ports, i) matches Some(v) ==> v <= max_prev(
                w,
                x,
                y,
            ).1),
        max_prev(w, x, y).0 is None ==> max_prev(w, x, y).1 == sat_inc(r.signal) && forall|i: int|
            0 <= i < 4 ==> (#[trigger] feed_at(w, x, y, r.input_ports, i) matches Some(v) ==> v == 0),
{
    let acc = (None::<Orientation>, sat_inc(r.signal), r.signal_type);
    assert(scan_inv(w, x, y, r.input_ports, 0, acc, sat_inc(r.signal)));
    lemma_scan_keeps_inv(w, x, y, r.input_ports, 0, acc, sat_inc(r.signal));
}

/// The mechanisms to switch on (`on`), or to switch off, in `e`.
pub open spec fn switched_set(e: EventsModel, on: bool) -> Set<(i128, i128)> {
    if on {
        e.mechanisms_on
    } else {
        e.mechanisms_off
    }
}

/// A signal above 0 only ever adds mechanisms to switch on, and a fall only
/// adds mechanisms to switch off: neither takes one back.
pub proof fn lemma_signal_keeps_switches(
    s: SimState,
    x: i128,
    y: i128,
    from_port: Option<Orientation>,
    input: u8,
    prev: u8,
    prev_type: Option<SignalType>,
)
    ensures
        switched_set(s.events, input > 0).subset_of(
            switched_set(propagate(s, x, y, from_port, input, prev, prev_type).events, input > 0),
        ),
    decreases budget(s.calculations), 0int,
{
    let on = input > 0;
    if !((input == 0 && prev <= 1) || input == 1) {
        match block_at(s.world, x, y) {
            None => {},
            Some(blk) => match blk.redstone {
                None => {},
                Some(r) => match gate(s.events, x, y, from_port, input, prev_type, blk, r) {
                    None => {},
                    Some(ev) => {
                        assert(switched_set(s.events, on).subset_of(switched_set(ev, on)));
                        let c1 = s.calculations + 1;
                        let s1 = SimState { world: with_chunk(s.world, x, y), ..s };
                        let s2 = SimState { events: ev, calculations: c1, ..s1 };
                        if c1 <= 10000 && crate::chunks::block::redstone::takes_signal(input, prev, r.signal) && !(
                        from_port is Some && input == r.signal && input > 0) {
                            match output_type(r, from_port, input, prev_type) {
                                None => {},
                                Some(ot) => {
                                    let r2 = Redstone { signal: input, signal_type: ot.0, ..r };
                                    let b2 = Block { redstone: Some(r2), ..blk };
                                    let s3 = SimState {
                                        world: set_block_at(s2.world, x, y, Some(b2)),
                                        events: crate::chunks::events::events_update_entity(s2.events, x, y),
                                        ..s2
                                    };
                                    lemma_ports_keep_switches(
                                        s3,
                                        x,
                                        y,
                                        0,
                                        r.output_ports,
                                        r.signal_type_port_mapping,
                                        dec_signal(input),
                                        r.signal,
                                        ot.1,
                                    );
                                },
                            }
                        }
                    },
                },
            },
        }
    }
}

/// The signal leaving through output ports keeps the mechanisms to switch
/// on (for a signal above 0), or off (for a fall).
pub proof fn lemma_ports_keep_switches(
    s: SimState,
    x: i128,
    y: i128,
    idx: int,
    output_ports: [bool; 4],
    mapping: [Option<SignalType>; 4],
    transmitted: u8,
    current: u8,
    out_type: SignalType,
)
    ensures
        switched_set(s.events, transmitted > 0).subset_of(
            switched_set(
                propagate_ports(s, x, y, idx, output_ports, mapping, transmitted, current, out_type).events,
                transmitted > 0,
            ),
        ),
    decreases budget(s.calculations), 5 - idx,
{
    if idx < 0 || idx >= 4 {
    } else if !output_ports[idx] {
        lemma_ports_keep_switches(s, x, y, idx + 1, output_ports, mapping, transmitted, current, out_type);
    } else {
        let o = orientation_of_idx(idx);
        let (nx, ny) = o.next_coord(x as int, y as int);
        let t = match mapping[idx] {
            Some(t) => t,
            None => out_type,
        };
        let s2 = propagate(s, nx as i128, ny as i128, Some(o.opposing()), transmitted, current, Some(t));
        lemma_signal_keeps_switches(s, nx as i128, ny as i128, Some(o.opposing()), transmitted, current, Some(t));
        let s3 = if s2.calculations >= s.calculations {
            s2
        } else {
            s
        };
        lemma_ports_keep_switches(s3, x, y, idx + 1, output_ports, mapping, transmitted, current, out_type);
    }
}

/// A signal that enters a mechanism through an open input port switches it
/// on when it is above 1, and off when it is the fall of a signal above 1;
/// nothing that the signal sets off downstream takes that back.
pub proof fn lemma_signal_switches_mechanism(
    s: SimState,
    x: i128,
    y: i128,
    from_port: Orientation,
    input: u8,
    prev: u8,
    prev_type: Option<SignalType>,
    b: Block,
    r: Redstone,
)
    requires
        block_at(s.world, x, y) == Some(b),
        b.redstone == Some(r),
        r.kind == Some(crate::chunks::block::RedstoneKind::Mechanism),
        r.input_ports[from_port.port_idx()],
        input >= 2 || (input == 0 && prev >= 2),
    ensures
        input > 0 ==> propagate(s, x, y, Some(from_port), input, prev, prev_type).events.mechanisms_on.contains((x, y)),
        input == 0 ==> propagate(s, x, y, Some(from_port), input, prev, prev_type).events.mechanisms_off.contains((x, y)),
{
    let on = input > 0;
    let ev = gate(s.events, x, y, Some(from_port), input, prev_type, b, r)->0;
    assert(switched_set(ev, on).contains((x, y)));
    let c1 = s.calculations + 1;
    let s1 = SimState { world: with_chunk(s.world, x, y), ..s };
    let s2 = SimState { events: ev, calculations: c1, ..s1 };
    if c1 <= 10000 && crate::chunks::block::redstone::takes_signal(input, prev, r.signal) && !(input == r.signal
        && input > 0) {
        match output_type(r, Some(from_port), input, prev_type) {
            None => {},
            Some(ot) => {
                let r2 = Redstone { signal: input, signal_type: ot.0, ..r };
                let b2 = Block { redstone: Some(r2), ..b };
                let s3 = SimState {
                    world: set_block_at(s2.world, x, y, Some(b2)),
                    events: crate::chunks::events::events_update_entity(s2.events, x, y),
                    ..s2
                };
                lemma_ports_keep_switches(s3, x, y, 0, r.output_ports, r.signal_type_port_mapping, dec_signal(input), r.signal, ot.1);
            },
        }
    }
}

/// Dust reached through an open input port by a stronger signal from a source
/// (strong or weak) takes it: afterwards it holds exactly that signal,
/// whatever the signal sets off downstream. The signal is only postponed
/// when the tick's step budget is spent.
pub proof fn lemma_dust_takes_signal(
    s: SimState,
    x: i128,
    y: i128,
    from_port: Orientation,
    input: u8,
    prev: u8,
    prev_type: Option<SignalType>,
    b: Block,
    r: Redstone,
)
    requires
        block_at(s.world, x, y) == Some(b),
        b.redstone == Some(r),
        r.kind == Some(crate::chunks::block::RedstoneKind::Dust),
        r.input_ports[from_port.port_idx()],
        r.signal_type != Some(SignalType::Strong(true)),
        prev_type == Some(SignalType::Strong(true)) || prev_type == Some(SignalType::Weak(true)),
        input >= 2,
        input > r.signal,
        s.calculations < 10000,
    ensures
        signal_at(propagate(s, x, y, Some(from_port), input, prev, prev_type).world, x, y) == Some(input),
{
    let fp = Some(from_port);
    let p = propagate(s, x, y, fp, input, prev, prev_type);
    let ot = output_type(r, fp, input, prev_type)->0;
    let r2 = Redstone { signal: input, signal_type: ot.0, ..r };
    let b2 = Block { redstone: Some(r2), ..b };
    lemma_with_chunk_keeps_blocks(s.world, x, y, x, y);
    lemma_read_after_write(with_chunk(s.world, x, y), x, y, Some(b2), x, y);
    let s3 = SimState {
        world: set_block_at(with_chunk(s.world, x, y), x, y, Some(b2)),
        events: crate::chunks::events::events_update_entity(s.events, x, y),
        calculations: s.calculations + 1,
        ..s
    };
    lemma_ports_rise_only_raises(s3, x, y, 0, r.output_ports, r.signal_type_port_mapping, (input - 1) as u8, r.signal, ot.1);
    assert(p.world == propagate_ports(s3, x, y, 0, r.output_ports, r.signal_type_port_mapping, (input - 1) as u8, r.signal, ot.1).world);
    assert(signal_at(s3.world, x, y) == Some(input));
}

} // verus!
