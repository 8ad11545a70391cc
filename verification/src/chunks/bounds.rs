use vstd::prelude::*;
use crate::chunks::{World, block_at, maybe_block_at, with_chunk, set_block_at, alert_from, is_source};
use crate::chunks::{place_spec, destroy_spec, destroy_ports, neighbours_update, placed_block};
use crate::chunks::block::{Block, Redstone, Orientation, SignalType, orientation_of_idx};
use crate::chunks::block::redstone::{
    SimState, propagate, propagate_ports, budget, gate, output_type, takes_signal, update_dust, dust_scan,
    dust_shape, dust_at, with_redstone, port_set, max_prev, dec_signal, sat_inc, sig_ok_at, keeps_ok,
    redstone_connects,
};
use crate::chunks::events::events_update_entity;
use crate::chunks::laws::{lemma_read_after_write, lemma_with_chunk_keeps_blocks};
use crate::chunks::block::mechanism::{
    move_safe, sticky_safe, piston_safe, execute_safe, move_spec, sticky_spec, potential, power_set, with_extended, with_movable, piston_spec,
    repeater_spec, repeater_countdown, torch_spec, observer_spec, execute_spec, piston_head_block,
};
use crate::chunks::block::MechanismKind;
use crate::texture::TextureName;

verus! {

/// A cell that is empty, holds no redstone, or holds a signal below 255.
pub open spec fn cell_ok(c: Option<Block>) -> bool {
    match c {
        Some(b) => match b.redstone {
            Some(r) => r.signal < 255,
            None => true,
        },
        None => true,
    }
}

pub proof fn lemma_keeps_ok_refl(w: World)
    ensures
        keeps_ok(w, w),
{
}

pub proof fn lemma_keeps_ok_trans(w1: World, w2: World, w3: World)
    requires
        keeps_ok(w1, w2),
        keeps_ok(w2, w3),
    ensures
        keeps_ok(w1, w3),
{
    assert forall|x: i128, y: i128| sig_ok_at(w1, x, y) implies #[trigger] sig_ok_at(w3, x, y) by {
        assert(sig_ok_at(w2, x, y));
    }
}

pub proof fn lemma_keeps_ok_with_chunk(w: World, x: i128, y: i128)
    ensures
        keeps_ok(w, with_chunk(w, x, y)),
{
    assert forall|x2: i128, y2: i128| sig_ok_at(w, x2, y2) implies #[trigger] sig_ok_at(with_chunk(w, x, y), x2, y2) by {
        lemma_with_chunk_keeps_blocks(w, x, y, x2, y2);
    }
}

pub proof fn lemma_keeps_ok_set(w: World, x: i128, y: i128, c: Option<Block>)
    requires
        sig_ok_at(w, x, y) ==> cell_ok(c),
    ensures
        keeps_ok(w, set_block_at(w, x, y, c)),
{
    assert forall|x2: i128, y2: i128| sig_ok_at(w, x2, y2) implies #[trigger] sig_ok_at(set_block_at(w, x, y, c), x2, y2) by {
        lemma_read_after_write(w, x, y, c, x2, y2);
    }
}

pub proof fn lemma_keeps_ok_dust(w: World, x: i128, y: i128, rd: Redstone, rd2: Redstone)
    requires
        dust_at(w, x, y) == Some(rd),
        rd2.signal == rd.signal,
    ensures
        keeps_ok(w, with_redstone(with_chunk(w, x, y), x, y, rd2)),
        keeps_ok(w, with_redstone(w, x, y, rd2)),
{
    lemma_keeps_ok_with_chunk(w, x, y);
    lemma_with_chunk_keeps_blocks(w, x, y, x, y);
    let w1 = with_chunk(w, x, y);
    let b = block_at(w, x, y)->0;
    lemma_keeps_ok_set(w1, x, y, Some(Block { redstone: Some(rd2), ..b }));
    lemma_keeps_ok_trans(w, w1, with_redstone(w1, x, y, rd2));
    lemma_keeps_ok_set(w, x, y, Some(Block { redstone: Some(rd2), ..b }));
}

/// A propagation whose signal is below 255 writes only signals below 255.
pub proof fn lemma_propagate_keeps_ok(
    s: SimState,
    x: i128,
    y: i128,
    from_port: Option<Orientation>,
    input: u8,
    prev: u8,
    prev_type: Option<SignalType>,
)
    requires
        input < 255,
    ensures
        keeps_ok(s.world, propagate(s, x, y, from_port, input, prev, prev_type).world),
    decreases budget(s.calculations), 0int,
{
    lemma_keeps_ok_with_chunk(s.world, x, y);
    if (input == 0 && prev <= 1) || input == 1 {
        lemma_keeps_ok_refl(s.world);
    } else {
        match block_at(s.world, x, y) {
            None => {},
            Some(blk) => match blk.redstone {
                None => {},
                Some(r) => match gate(s.events, x, y, from_port, input, prev_type, blk, r) {
                    None => {},
                    Some(ev) => {
                        let c1 = s.calculations + 1;
                        let s1 = SimState { world: with_chunk(s.world, x, y), ..s };
                        let s2 = SimState { events: ev, calculations: c1, ..s1 };
                        if c1 > 10000 {
                        } else if takes_signal(input, prev, r.signal) {
                            if from_port is Some && input == r.signal && input > 0 {
                            } else {
                                match output_type(r, from_port, input, prev_type) {
                                    None => {},
                                    Some(ot) => {
                                        let r2 = Redstone { signal: input, signal_type: ot.0, ..r };
                                        let b2 = Block { redstone: Some(r2), ..blk };
                                        lemma_keeps_ok_set(s2.world, x, y, Some(b2));
                                        let s3 = SimState {
                                            world: set_block_at(s2.world, x, y, Some(b2)),
                                            events: events_update_entity(s2.events, x, y),
                                            ..s2
                                        };
                                        lemma_ports_keeps_ok(
                                            s3,
                                            x,
                                            y,
                                            0,
                                            r.output_ports,
                                            r.signal_type_port_mapping,
                                            dec_signal(input),
                                            r.signal,
                                            ot.1,
                                        );
                                        lemma_keeps_ok_trans(s.world, s2.world, s3.world);
                                        let s4 = propagate_ports(
                                            s3,
                                            x,
                                            y,
                                            0,
                                            r.output_ports,
                                            r.signal_type_port_mapping,
                                            dec_signal(input),
                                            r.signal,
                                            ot.1,
                                        );
                                        lemma_keeps_ok_trans(s.world, s3.world, s4.world);
                                    },
                                }
                            }
                        } else {
                        }
                    },
                },
            },
        }
    }
}

pub proof fn lemma_ports_keeps_ok(
    s: SimState,
    x: i128,
    y: i128,
    idx: int,
    output_ports: [bool; 4],
    mapping: [Option<SignalType>; 4],
    transmitted: u8,
    current: u8,
    out_type: SignalType,
)
    requires
        transmitted < 255,
    ensures
        keeps_ok(s.world, propagate_ports(s, x, y, idx, output_ports, mapping, transmitted, current, out_type).world),
    decreases budget(s.calculations), 5 - idx,
{
    if idx < 0 || idx >= 4 {
        lemma_keeps_ok_refl(s.world);
    } else if !output_ports[idx] {
        lemma_ports_keeps_ok(s, x, y, idx + 1, output_ports, mapping, transmitted, current, out_type);
    } else {
        let o = orientation_of_idx(idx);
        let (nx, ny) = o.next_coord(x as int, y as int);
        let t = match mapping[idx] {
            Some(t) => t,
            None => out_type,
        };
        let s2 = propagate(s, nx as i128, ny as i128, Some(o.opposing()), transmitted, current, Some(t));
        lemma_propagate_keeps_ok(s, nx as i128, ny as i128, Some(o.opposing()), transmitted, current, Some(t));
        let s3 = if s2.calculations >= s.calculations {
            s2
        } else {
            lemma_keeps_ok_refl(s.world);
            s
        };
        lemma_ports_keeps_ok(s3, x, y, idx + 1, output_ports, mapping, transmitted, current, out_type);
        lemma_keeps_ok_trans(
            s.world,
            s3.world,
            propagate_ports(s3, x, y, idx + 1, output_ports, mapping, transmitted, current, out_type).world,
        );
    }
}

pub proof fn lemma_dust_scan_keeps_ok(s: SimState, x: i128, y: i128, idx: int, last: Orientation, count: int, changed: bool)
    ensures
        keeps_ok(s.world, dust_scan(s, x, y, idx, last, count, changed).state.world),
    decreases 4 - idx,
{
    if idx < 0 || idx >= 4 {
        lemma_keeps_ok_refl(s.world);
    } else {
        let o = orientation_of_idx(idx);
        let (nx, ny) = o.next_coord(x as int, y as int);
        let open = redstone_connects(s.world, nx as i128, ny as i128, o.opposing());
        match dust_at(s.world, x, y) {
            None => {
                lemma_keeps_ok_with_chunk(s.world, x, y);
            },
            Some(rd) => {
                let initial = rd.output_ports[o.port_idx()];
                let rd2 = port_set(rd, o, open);
                lemma_keeps_ok_dust(s.world, x, y, rd, rd2);
                let s1 = SimState { world: with_redstone(with_chunk(s.world, x, y), x, y, rd2), ..s };
                let s2 = propagate(s1, nx as i128, ny as i128, Some(o.opposing()), 0, rd2.signal, rd2.signal_type);
                lemma_propagate_keeps_ok(s1, nx as i128, ny as i128, Some(o.opposing()), 0, rd2.signal, rd2.signal_type);
                lemma_keeps_ok_trans(s.world, s1.world, s2.world);
                let nl = if open { o } else { last };
                let nc = if open { count + 1 } else { count };
                let nch = changed || open != initial;
                lemma_dust_scan_keeps_ok(s2, x, y, idx + 1, nl, nc, nch);
                lemma_keeps_ok_trans(s.world, s2.world, dust_scan(s2, x, y, idx + 1, nl, nc, nch).state.world);
            },
        }
    }
}

/// Reconnecting dust writes no signal of 255.
pub proof fn lemma_update_dust_keeps_ok(s: SimState, x: i128, y: i128)
    ensures
        keeps_ok(s.world, update_dust(s, x, y).world),
{
    let scan = dust_scan(s, x, y, 0, Orientation::Up, 0, false);
    lemma_dust_scan_keeps_ok(s, x, y, 0, Orientation::Up, 0, false);
    let s1 = scan.state;
    if scan.stopped {
    } else {
        let w1 = with_chunk(s1.world, x, y);
        lemma_keeps_ok_with_chunk(s1.world, x, y);
        lemma_keeps_ok_trans(s.world, s1.world, w1);
        match dust_at(s1.world, x, y) {
            None => {},
            Some(rd) => {
                let s2 = if scan.count == 1 || scan.count == 0 {
                    let rd2 = dust_shape(rd, scan.last, scan.count);
                    lemma_keeps_ok_dust(s1.world, x, y, rd, rd2);
                    SimState { world: with_redstone(w1, x, y, rd2), ..s1 }
                } else {
                    SimState { world: w1, ..s1 }
                };
                lemma_keeps_ok_trans(s.world, s1.world, s2.world);
                if !scan.changed {
                } else {
                    match dust_at(s2.world, x, y) {
                        None => {},
                        Some(rd3) => {
                            let s3 = propagate(s2, x, y, None, 0, sat_inc(rd3.signal), None);
                            lemma_propagate_keeps_ok(s2, x, y, None, 0, sat_inc(rd3.signal), None);
                            let mp = max_prev(s3.world, x, y);
                            lemma_propagate_keeps_ok(s3, x, y, mp.0, dec_signal(mp.1), mp.1, mp.2);
                            lemma_keeps_ok_trans(s.world, s2.world, s3.world);
                            lemma_keeps_ok_trans(
                                s.world,
                                s3.world,
                                propagate(s3, x, y, mp.0, dec_signal(mp.1), mp.1, mp.2).world,
                            );
                        },
                    }
                }
            },
        }
    }
}

pub proof fn lemma_neighbours_keeps_ok(s: SimState, x: i128, y: i128, idx: int)
    ensures
        keeps_ok(s.world, neighbours_update(s, x, y, idx).world),
    decreases 4 - idx,
{
    if idx < 0 || idx >= 4 {
        lemma_keeps_ok_refl(s.world);
    } else {
        let (nx, ny) = orientation_of_idx(idx).next_coord(x as int, y as int);
        let s1 = update_dust(s, nx as i128, ny as i128);
        lemma_update_dust_keeps_ok(s, nx as i128, ny as i128);
        let s2 = SimState {
            events: alert_from(events_update_entity(s1.events, nx as i128, ny as i128), s1.world, x, y, 0),
            ..s1
        };
        lemma_neighbours_keeps_ok(s2, x, y, idx + 1);
        lemma_keeps_ok_trans(s.world, s2.world, neighbours_update(s2, x, y, idx + 1).world);
    }
}

pub proof fn lemma_destroy_ports_keeps_ok(
    s: SimState,
    x: i128,
    y: i128,
    idx: int,
    ports: [bool; 4],
    signal: u8,
    signal_type: Option<SignalType>,
)
    ensures
        keeps_ok(s.world, destroy_ports(s, x, y, idx, ports, signal, signal_type).world),
    decreases 4 - idx,
{
    if idx < 0 || idx >= 4 {
        lemma_keeps_ok_refl(s.world);
    } else {
        let s1 = if ports[idx] {
            let o = orientation_of_idx(idx);
            let (nx, ny) = o.next_coord(x as int, y as int);
            lemma_propagate_keeps_ok(s, nx as i128, ny as i128, Some(o.opposing()), 0, signal, signal_type);
            propagate(s, nx as i128, ny as i128, Some(o.opposing()), 0, signal, signal_type)
        } else {
            lemma_keeps_ok_refl(s.world);
            s
        };
        lemma_destroy_ports_keeps_ok(s1, x, y, idx + 1, ports, signal, signal_type);
        lemma_keeps_ok_trans(s.world, s1.world, destroy_ports(s1, x, y, idx + 1, ports, signal, signal_type).world);
    }
}

/// Destroying a block writes no signal of 255.
pub proof fn lemma_destroy_keeps_ok(s: SimState, x: i128, y: i128)
    ensures
        keeps_ok(s.world, destroy_spec(s, x, y).world),
{
    match maybe_block_at(s.world, x, y) {
        None => {
            lemma_keeps_ok_refl(s.world);
        },
        Some(cell) => {
            let w1 = set_block_at(s.world, x, y, None);
            lemma_keeps_ok_set(s.world, x, y, None);
            let s0 = SimState { calculations: 0, ..s };
            let ev1 = alert_from(events_update_entity(s.events, x, y), w1, x, y, 0);
            let sb = SimState { world: w1, events: ev1, ..s0 };
            match cell {
                Some(b) => match b.redstone {
                    Some(r) => {
                        lemma_destroy_ports_keeps_ok(sb, x, y, 0, r.output_ports, r.signal, r.signal_type);
                        let sa = destroy_ports(sb, x, y, 0, r.output_ports, r.signal, r.signal_type);
                        lemma_keeps_ok_trans(s.world, w1, sa.world);
                        lemma_neighbours_keeps_ok(sa, x, y, 0);
                        lemma_keeps_ok_trans(s.world, sa.world, neighbours_update(sa, x, y, 0).world);
                    },
                    None => {},
                },
                None => {},
            }
        },
    }
}

/// Placing a block whose signal is below 255 (on an empty cell) writes no
/// signal of 255.
pub proof fn lemma_place_keeps_ok(
    s: SimState,
    blk: Block,
    orientation: Orientation,
    x: i128,
    y: i128,
    catalog: Map<TextureName, Block>,
)
    requires
        block_at(s.world, x, y) is None ==> cell_ok(Some(catalog[blk.texture_name])),
    ensures
        keeps_ok(s.world, place_spec(s, blk, orientation, x, y, catalog).0.world),
{
    let w0 = with_chunk(s.world, x, y);
    lemma_keeps_ok_with_chunk(s.world, x, y);
    if block_at(s.world, x, y) is Some {
    } else {
        let nb = placed_block(blk, orientation, catalog);
        let w1 = set_block_at(w0, x, y, Some(nb));
        lemma_keeps_ok_set(w0, x, y, Some(nb));
        lemma_keeps_ok_trans(s.world, w0, w1);
        let s1 = SimState { world: w1, calculations: 0, ..s };
        match nb.redstone {
            None => {},
            Some(rs) => {
                let sa = if is_source(rs.signal_type) {
                    lemma_update_dust_keeps_ok(s1, x, y);
                    let su = update_dust(s1, x, y);
                    lemma_neighbours_keeps_ok(su, x, y, 0);
                    lemma_keeps_ok_trans(s1.world, su.world, neighbours_update(su, x, y, 0).world);
                    neighbours_update(su, x, y, 0)
                } else {
                    lemma_keeps_ok_refl(s1.world);
                    s1
                };
                let mp = max_prev(sa.world, x, y);
                lemma_propagate_keeps_ok(sa, x, y, mp.0, dec_signal(mp.1), mp.1, mp.2);
                lemma_keeps_ok_trans(s1.world, sa.world, propagate(sa, x, y, mp.0, dec_signal(mp.1), mp.1, mp.2).world);
                lemma_keeps_ok_trans(s.world, s1.world, propagate(sa, x, y, mp.0, dec_signal(mp.1), mp.1, mp.2).world);
            },
        }
    }
}

pub proof fn lemma_keeps_ok_same_redstone(w: World, x: i128, y: i128, b2: Block)
    requires
        block_at(w, x, y) is Some,
        block_at(w, x, y)->0.redstone == b2.redstone,
    ensures
        keeps_ok(w, set_block_at(w, x, y, Some(b2))),
{
    lemma_keeps_ok_set(w, x, y, Some(b2));
}

pub proof fn lemma_keeps_ok_extended_movable(w: World, x: i128, y: i128, v: bool)
    ensures
        keeps_ok(w, with_extended(w, x, y, v)),
        keeps_ok(w, with_movable(w, x, y, v)),
{
    let w1 = with_chunk(w, x, y);
    lemma_keeps_ok_with_chunk(w, x, y);
    lemma_with_chunk_keeps_blocks(w, x, y, x, y);
    match block_at(w, x, y) {
        Some(b) => {
            match b.mechanism {
                Some(MechanismKind::Piston { extended, sticky }) => {
                    let b2 = Block { mechanism: Some(MechanismKind::Piston { extended: v, sticky }), ..b };
                    lemma_keeps_ok_same_redstone(w1, x, y, b2);
                    lemma_keeps_ok_trans(w, w1, set_block_at(w1, x, y, Some(b2)));
                },
                _ => {},
            }
            lemma_keeps_ok_same_redstone(w1, x, y, Block { movable: v, ..b });
            lemma_keeps_ok_trans(w, w1, set_block_at(w1, x, y, Some(Block { movable: v, ..b })));
        },
        None => {},
    }
}

/// Moving blocks within what placing and destroying accept writes no signal
/// of 255.
pub proof fn lemma_move_keeps_ok(
    s: SimState,
    t: Set<(i128, i128)>,
    x: i128,
    y: i128,
    o: Orientation,
    a: Set<(i128, i128)>,
    from: Orientation,
    cat: Map<TextureName, Block>,
)
    requires
        move_safe(s, t, x, y, o, a, from, cat),
    ensures
        keeps_ok(s.world, move_spec(s, t, x, y, o, a, from, cat).0.world),
    decreases potential(a, t, x, y, o), 6int,
{
    lemma_keeps_ok_with_chunk(s.world, x, y);
    let s1 = SimState { world: with_chunk(s.world, x, y), ..s };
    match block_at(s.world, x, y) {
        None => {},
        Some(blk) => if !blk.movable || !a.contains((x, y)) || t.contains((x, y)) {
        } else {
            let (nx, ny) = o.next_coord(x as int, y as int);
            if potential(a, t, nx as i128, ny as i128, o) < potential(a, t, x, y, o) {
                lemma_move_keeps_ok(s1, t, nx as i128, ny as i128, o, a, o.opposing(), cat);
                let r2 = move_spec(s1, t, nx as i128, ny as i128, o, a, o.opposing(), cat);
                lemma_keeps_ok_trans(s.world, s1.world, r2.0.world);
                if !r2.2 {
                } else {
                    lemma_with_chunk_keeps_blocks(s.world, x, y, x, y);
                    lemma_place_keeps_ok(r2.0, blk, blk.orientation, nx as i128, ny as i128, cat);
                    let r3 = place_spec(r2.0, blk, blk.orientation, nx as i128, ny as i128, cat);
                    lemma_keeps_ok_trans(s.world, r2.0.world, r3.0.world);
                    let s4 = if r3.1 {
                        lemma_destroy_keeps_ok(r3.0, x, y);
                        lemma_keeps_ok_trans(s.world, r3.0.world, destroy_spec(r3.0, x, y).world);
                        destroy_spec(r3.0, x, y)
                    } else {
                        r3.0
                    };
                    let t3 = r2.1.insert((nx as i128, ny as i128)).insert((x, y));
                    if blk.sticky {
                        lemma_sticky_keeps_ok(s4, t3, x, y, 0, o, a, from, cat, potential(a, t, x, y, o));
                        let r5 = sticky_spec(s4, t3, x, y, 0, o, a, from, cat, potential(a, t, x, y, o));
                        lemma_keeps_ok_trans(s.world, s4.world, r5.0.world);
                    }
                }
            }
        },
    }
}

pub proof fn lemma_sticky_keeps_ok(
    s: SimState,
    t: Set<(i128, i128)>,
    x: i128,
    y: i128,
    idx: int,
    o: Orientation,
    a: Set<(i128, i128)>,
    from: Orientation,
    cat: Map<TextureName, Block>,
    bound: int,
)
    requires
        sticky_safe(s, t, x, y, idx, o, a, from, cat, bound),
    ensures
        keeps_ok(s.world, sticky_spec(s, t, x, y, idx, o, a, from, cat, bound).0.world),
    decreases bound, 5 - idx,
{
    if idx < 0 || idx >= 4 {
        lemma_keeps_ok_refl(s.world);
    } else {
        let no = orientation_of_idx(idx);
        let (nx, ny) = no.next_coord(x as int, y as int);
        if no != o && no != from && !t.contains((nx as i128, ny as i128)) && potential(
            a,
            t,
            nx as i128,
            ny as i128,
            o,
        ) < bound {
            lemma_move_keeps_ok(s, t, nx as i128, ny as i128, o, a, no.opposing(), cat);
            let r2 = move_spec(s, t, nx as i128, ny as i128, o, a, no.opposing(), cat);
            lemma_sticky_keeps_ok(r2.0, r2.1, x, y, idx + 1, o, a, from, cat, bound);
            lemma_keeps_ok_trans(s.world, r2.0.world, sticky_spec(r2.0, r2.1, x, y, idx + 1, o, a, from, cat, bound).0.world);
        } else {
            lemma_sticky_keeps_ok(s, t, x, y, idx + 1, o, a, from, cat, bound);
        }
    }
}

proof fn lemma_piston_keeps_ok(
    s1: SimState,
    blk: Block,
    x: i128,
    y: i128,
    on: bool,
    extended: bool,
    sticky: bool,
    cat: Map<TextureName, Block>,
)
    requires
        piston_safe(s1, blk, x, y, on, extended, sticky, cat),
        block_at(s1.world, x, y) == Some(blk),
    ensures
        keeps_ok(s1.world, piston_spec(s1, blk, x, y, on, extended, sticky, cat).world),
{
    let head = piston_head_block(sticky);
    let s2 = SimState { world: set_block_at(s1.world, x, y, Some(Block { movable: false, ..blk })), ..s1 };
    lemma_keeps_ok_same_redstone(s1.world, x, y, Block { movable: false, ..blk });
    if !extended && on {
        let o = blk.orientation;
        let (nx, ny) = o.next_coord(x as int, y as int);
        let a = power_set(s2.world, nx as i128, ny as i128, o, 12);
        lemma_move_keeps_ok(s2, Set::empty(), nx as i128, ny as i128, o, a, o.opposing(), cat);
        let r3 = move_spec(s2, Set::empty(), nx as i128, ny as i128, o, a, o.opposing(), cat);
        let s3 = r3.0;
        lemma_keeps_ok_trans(s1.world, s2.world, s3.world);
        lemma_keeps_ok_extended_movable(s3.world, x, y, true);
        if r3.2 {
            let s4 = SimState { world: with_extended(s3.world, x, y, true), ..s3 };
            lemma_keeps_ok_trans(s1.world, s3.world, s4.world);
            lemma_place_keeps_ok(s4, head, o, nx as i128, ny as i128, cat);
            lemma_keeps_ok_trans(s1.world, s4.world, place_spec(s4, head, o, nx as i128, ny as i128, cat).0.world);
        } else {
            lemma_keeps_ok_trans(s1.world, s3.world, with_movable(s3.world, x, y, true));
        }
    } else if extended && !on {
        let o = blk.orientation;
        let (nx, ny) = o.next_coord(x as int, y as int);
        lemma_read_after_write(s1.world, x, y, Some(Block { movable: false, ..blk }), x, y);
        let w3 = set_block_at(
            s2.world,
            x,
            y,
            Some(Block { movable: false, mechanism: Some(MechanismKind::Piston { extended: false, sticky }), ..blk }),
        );
        lemma_keeps_ok_same_redstone(
            s2.world,
            x,
            y,
            Block { movable: false, mechanism: Some(MechanismKind::Piston { extended: false, sticky }), ..blk },
        );
        let s3 = SimState { world: w3, events: events_update_entity(s2.events, x, y), ..s2 };
        lemma_keeps_ok_trans(s1.world, s2.world, s3.world);
        let s3w = SimState { world: with_chunk(s3.world, nx as i128, ny as i128), ..s3 };
        lemma_keeps_ok_with_chunk(s3.world, nx as i128, ny as i128);
        lemma_keeps_ok_trans(s1.world, s3.world, s3w.world);
        let s4 = match block_at(s3.world, nx as i128, ny as i128) {
            Some(nb) => if nb.texture_name == head.texture_name {
                lemma_destroy_keeps_ok(s3w, nx as i128, ny as i128);
                destroy_spec(s3w, nx as i128, ny as i128)
            } else {
                lemma_keeps_ok_refl(s3w.world);
                s3w
            },
            None => {
                lemma_keeps_ok_refl(s3w.world);
                s3w
            },
        };
        lemma_keeps_ok_trans(s1.world, s3w.world, s4.world);
        let s5 = if sticky {
            let (nnx, nny) = o.next_coord(nx, ny);
            let pull = o.opposing();
            let a = power_set(s4.world, nnx as i128, nny as i128, pull, 12);
            lemma_move_keeps_ok(s4, Set::empty(), nnx as i128, nny as i128, pull, a, pull, cat);
            move_spec(s4, Set::empty(), nnx as i128, nny as i128, pull, a, pull, cat).0
        } else {
            lemma_keeps_ok_refl(s4.world);
            s4
        };
        lemma_keeps_ok_trans(s1.world, s4.world, s5.world);
        lemma_keeps_ok_extended_movable(s5.world, x, y, true);
        lemma_keeps_ok_trans(s1.world, s5.world, with_movable(s5.world, x, y, true));
    } else {
    }
}

/// Switching a mechanism within what placing and destroying accept writes no
/// signal of 255.
pub proof fn lemma_execute_keeps_ok(s: SimState, x: i128, y: i128, on: bool, cat: Map<TextureName, Block>)
    requires
        execute_safe(s, x, y, on, cat),
    ensures
        keeps_ok(s.world, execute_spec(s, x, y, on, cat).world),
{
    let s1 = SimState { world: with_chunk(s.world, x, y), ..s };
    lemma_keeps_ok_with_chunk(s.world, x, y);
    lemma_with_chunk_keeps_blocks(s.world, x, y, x, y);
    match block_at(s.world, x, y) {
        None => {},
        Some(blk) => match blk.mechanism {
            None => {},
            Some(mk) => match mk {
                MechanismKind::RedstoneTorch => match blk.redstone {
                    None => {},
                    Some(r) => {
                        lemma_propagate_keeps_ok(s1, x, y, None, 0, 17, None);
                        lemma_propagate_keeps_ok(s1, x, y, None, 16, 16, None);
                        lemma_keeps_ok_trans(s.world, s1.world, torch_spec(s1, x, y, on, r).world);
                    },
                },
                MechanismKind::Piston { extended, sticky } => {
                    lemma_piston_keeps_ok(s1, blk, x, y, on, extended, sticky, cat);
                    lemma_keeps_ok_trans(s.world, s1.world, piston_spec(s1, blk, x, y, on, extended, sticky, cat).world);
                },
                MechanismKind::Repeater { countdown, tick } => match blk.redstone {
                    None => {},
                    Some(r) => {
                        let (c1, cf) = repeater_countdown(countdown, tick, on, r.signal);
                        let b2 = Block { mechanism: Some(MechanismKind::Repeater { countdown: cf as i8, tick }), ..blk };
                        lemma_keeps_ok_same_redstone(s1.world, x, y, b2);
                        let s2 = SimState { world: set_block_at(s1.world, x, y, Some(b2)), ..s1 };
                        lemma_propagate_keeps_ok(s2, x, y, None, 16, 16, None);
                        lemma_propagate_keeps_ok(s2, x, y, None, 0, 17, None);
                        lemma_keeps_ok_trans(s1.world, s2.world, propagate(s2, x, y, None, 16, 16, None).world);
                        lemma_keeps_ok_trans(s1.world, s2.world, propagate(s2, x, y, None, 0, 17, None).world);
                        lemma_keeps_ok_trans(s.world, s1.world, repeater_spec(s1, blk, x, y, on, countdown, tick, r).world);
                    },
                },
                MechanismKind::Observer => {
                    lemma_propagate_keeps_ok(s1, x, y, None, 16, 16, None);
                    lemma_propagate_keeps_ok(s1, x, y, None, 0, 17, None);
                    lemma_keeps_ok_trans(s.world, s1.world, observer_spec(s1, x, y, on).world);
                },
                _ => {},
            },
        },
    }
}

} // verus!
