use vstd::prelude::*;
use crate::chunks::{
    World, chunk_key, cell_u, with_chunk, block_at, maybe_block_at, set_block_at, chunk_is_empty,
    empty_chunk,
};
use crate::chunks::{place_spec, destroy_spec, destroy_ports, neighbours_update, placed_block};
use crate::chunks::block::{Block, Redstone, Orientation, SignalType, orientation_of_idx};
use crate::chunks::block::redstone::{
    SimState, propagate, propagate_ports, budget, gate, output_type, takes_signal, update_dust, dust_scan,
    dust_shape, dust_at, with_redstone, port_set, max_prev, dec_signal, sat_inc,
};
use crate::texture::TextureName;

verus! {

/// A world position is its chunk coordinate times 16 plus its place inside
/// the chunk, which lies in `0..16`.
pub proof fn lemma_world_coord_split(x: i128, y: i128)
    ensures
        chunk_key(x, y).0 * 16 + cell_u(x) == x,
        chunk_key(x, y).1 * 16 + cell_u(y) == y,
        0 <= cell_u(x) < 16,
        0 <= cell_u(y) < 16,
{
}

/// Two positions with the same chunk and the same place in it are equal.
pub proof fn lemma_world_coord_injective(x: i128, y: i128, x2: i128, y2: i128)
    requires
        chunk_key(x, y) == chunk_key(x2, y2),
        cell_u(x) == cell_u(x2),
        cell_u(y) == cell_u(y2),
    ensures
        x == x2,
        y == y2,
{
    lemma_world_coord_split(x, y);
    lemma_world_coord_split(x2, y2);
}

/// Reading a cell gives back what was last written there, and writing a cell
/// leaves every other cell as it was.
pub proof fn lemma_read_after_write(w: World, x: i128, y: i128, b: Option<Block>, x2: i128, y2: i128)
    ensures
        block_at(set_block_at(w, x, y, b), x, y) == b,
        (x2, y2) != (x, y) ==> block_at(set_block_at(w, x, y, b), x2, y2) == block_at(w, x2, y2),
{
    lemma_world_coord_split(x, y);
    if (x2, y2) != (x, y) {
        lemma_world_coord_split(x2, y2);
        let k = chunk_key(x, y);
        let k2 = chunk_key(x2, y2);
        if k == k2 {
            if !w.contains_key(k) {
                assert(empty_chunk().map[cell_u(x2)][cell_u(y2)] is None);
            }
        }
    } else {
        if !w.contains_key(chunk_key(x, y)) {
        }
    }
}

/// Creating chunks never changes a block.
pub proof fn lemma_with_chunk_keeps_blocks(w: World, x: i128, y: i128, x2: i128, y2: i128)
    ensures
        block_at(with_chunk(w, x, y), x2, y2) == block_at(w, x2, y2),
        with_chunk(w, x, y).contains_key(chunk_key(x, y)),
{
    lemma_world_coord_split(x2, y2);
}

/// Removing a chunk that holds no block never changes a block.
pub proof fn lemma_delete_empty_keeps_blocks(w: World, k: (i128, i128), x2: i128, y2: i128)
    requires
        w.contains_key(k),
        chunk_is_empty(w[k]),
    ensures
        block_at(w.remove(k), x2, y2) == block_at(w, x2, y2),
{
    lemma_world_coord_split(x2, y2);
    if chunk_key(x2, y2) == k {
        assert(w[k].map[cell_u(x2)][cell_u(y2)] is None);
    }
}


/// The part of a block that signals do not change: everything but its
/// signal, its signal type and its output ports.
pub open spec fn frame(b: Block) -> Block {
    Block {
        redstone: match b.redstone {
            Some(r) => Some(Redstone { signal: 0, signal_type: None, output_ports: [false, false, false, false], ..r }),
            None => None,
        },
        ..b
    }
}

/// The frame of the block at `(x, y)`, if any.
pub open spec fn frame_at(w: World, x: i128, y: i128) -> Option<Block> {
    match block_at(w, x, y) {
        Some(b) => Some(frame(b)),
        None => None,
    }
}

/// Two worlds hold blocks at the same positions, with the same frames.
pub open spec fn same_frames(w1: World, w2: World) -> bool {
    forall|x: i128, y: i128| #[trigger] frame_at(w1, x, y) == frame_at(w2, x, y)
}

proof fn lemma_frames_trans(w1: World, w2: World, w3: World)
    requires
        same_frames(w1, w2),
        same_frames(w2, w3),
    ensures
        same_frames(w1, w3),
{
    assert forall|x: i128, y: i128| #[trigger] frame_at(w1, x, y) == frame_at(w3, x, y) by {
        assert(frame_at(w1, x, y) == frame_at(w2, x, y));
        assert(frame_at(w2, x, y) == frame_at(w3, x, y));
    }
}

proof fn lemma_frames_with_chunk(w: World, x: i128, y: i128)
    ensures
        same_frames(w, with_chunk(w, x, y)),
{
    assert forall|x2: i128, y2: i128| #[trigger] frame_at(w, x2, y2) == frame_at(with_chunk(w, x, y), x2, y2) by {
        lemma_with_chunk_keeps_blocks(w, x, y, x2, y2);
    }
}

proof fn lemma_frames_set(w: World, x: i128, y: i128, b: Block, b2: Block)
    requires
        block_at(w, x, y) == Some(b),
        frame(b) == frame(b2),
    ensures
        same_frames(w, set_block_at(w, x, y, Some(b2))),
{
    assert forall|x2: i128, y2: i128| #[trigger] frame_at(w, x2, y2) == frame_at(set_block_at(w, x, y, Some(b2)), x2, y2) by {
        lemma_read_after_write(w, x, y, Some(b2), x2, y2);
    }
}

/// Signal propagation changes no block but its signal and signal type: every
/// position keeps its block, or stays empty.
pub proof fn lemma_propagate_frames(
    s: SimState,
    x: i128,
    y: i128,
    from_port: Option<Orientation>,
    input: u8,
    prev: u8,
    prev_type: Option<SignalType>,
)
    ensures
        same_frames(s.world, propagate(s, x, y, from_port, input, prev, prev_type).world),
    decreases budget(s.calculations), 0int,
{
    lemma_frames_with_chunk(s.world, x, y);
    if (input == 0 && prev <= 1) || input == 1 {
    } else {
        match block_at(s.world, x, y) {
            None => {},
            Some(blk) => match blk.redstone {
                None => {},
                Some(r) => match gate(s.events, x, y, from_port, input, prev_type, blk, r) {
                    None => {},
                    Some(ev) => {
                        let c1 = s.calculations + 1;
                        let s1 = SimState { world: with_chunk(s.world, x, y), ..s };
                        let s2 = SimState { events: ev, calculations: c1, ..s1 };
                        if c1 > 10000 {
                        } else if takes_signal(input, prev, r.signal) {
                            if from_port is Some && input == r.signal && input > 0 {
                            } else {
                                match output_type(r, from_port, input, prev_type) {
                                    None => {},
                                    Some(ot) => {
                                        let r2 = Redstone { signal: input, signal_type: ot.0, ..r };
                                        let b2 = Block { redstone: Some(r2), ..blk };
                                        lemma_with_chunk_keeps_blocks(s.world, x, y, x, y);
                                        assert(frame(blk) == frame(b2));
                                        lemma_frames_set(s2.world, x, y, blk, b2);
                                        let s3 = SimState {
                                            world: set_block_at(s2.world, x, y, Some(b2)),
                                            events: crate::chunks::events::events_update_entity(s2.events, x, y),
                                            ..s2
                                        };
                                        lemma_ports_frames(
                                            s3,
                                            x,
                                            y,
                                            0,
                                            r.output_ports,
                                            r.signal_type_port_mapping,
                                            dec_signal(input),
                                            r.signal,
                                            ot.1,
                                        );
                                        lemma_frames_trans(s.world, s2.world, s3.world);
                                        let s4 = propagate_ports(
                                            s3,
                                            x,
                                            y,
                                            0,
                                            r.output_ports,
                                            r.signal_type_port_mapping,
                                            dec_signal(input),
                                            r.signal,
                                            ot.1,
                                        );
                                        lemma_frames_trans(s.world, s3.world, s4.world);
                                    },
                                }
                            }
                        } else {
                        }
                    },
                },
            },
        }
    }
}

/// The signal leaving through output ports changes no block frame either.
pub proof fn lemma_ports_frames(
    s: SimState,
    x: i128,
    y: i128,
    idx: int,
    output_ports: [bool; 4],
    mapping: [Option<SignalType>; 4],
    transmitted: u8,
    current: u8,
    out_type: SignalType,
)
    ensures
        same_frames(s.world, propagate_ports(s, x, y, idx, output_ports, mapping, transmitted, current, out_type).world),
    decreases budget(s.calculations), 5 - idx,
{
    if idx < 0 || idx >= 4 {
        assert(same_frames(s.world, s.world));
    } else if !output_ports[idx] {
        lemma_ports_frames(s, x, y, idx + 1, output_ports, mapping, transmitted, current, out_type);
    } else {
        let o = orientation_of_idx(idx);
        let (nx, ny) = o.next_coord(x as int, y as int);
        let t = match mapping[idx] {
            Some(t) => t,
            None => out_type,
        };
        let s2 = propagate(s, nx as i128, ny as i128, Some(o.opposing()), transmitted, current, Some(t));
        lemma_propagate_frames(s, nx as i128, ny as i128, Some(o.opposing()), transmitted, current, Some(t));
        let s3 = if s2.calculations >= s.calculations {
            s2
        } else {
            s
        };
        assert(same_frames(s.world, s3.world));
        lemma_ports_frames(s3, x, y, idx + 1, output_ports, mapping, transmitted, current, out_type);
        lemma_frames_trans(
            s.world,
            s3.world,
            propagate_ports(s3, x, y, idx + 1, output_ports, mapping, transmitted, current, out_type).world,
        );
    }
}


proof fn lemma_frames_dust(w: World, x: i128, y: i128, rd: Redstone, rd2: Redstone)
    requires
        dust_at(w, x, y) == Some(rd),
        frame(Block { redstone: Some(rd), ..block_at(w, x, y)->0 }) == frame(Block { redstone: Some(rd2), ..block_at(w, x, y)->0 }),
    ensures
        same_frames(w, with_redstone(with_chunk(w, x, y), x, y, rd2)),
        same_frames(w, with_redstone(w, x, y, rd2)),
{
    lemma_frames_with_chunk(w, x, y);
    lemma_with_chunk_keeps_blocks(w, x, y, x, y);
    let w1 = with_chunk(w, x, y);
    let b = block_at(w, x, y)->0;
    lemma_frames_set(w1, x, y, b, Block { redstone: Some(rd2), ..b });
    lemma_frames_trans(w, w1, with_redstone(w1, x, y, rd2));
    lemma_frames_set(w, x, y, b, Block { redstone: Some(rd2), ..b });
}

proof fn lemma_dust_scan_frames(s: SimState, x: i128, y: i128, idx: int, last: Orientation, count: int, changed: bool)
    ensures
        same_frames(s.world, dust_scan(s, x, y, idx, last, count, changed).state.world),
    decreases 4 - idx,
{
    if idx < 0 || idx >= 4 {
        assert(same_frames(s.world, s.world));
    } else {
        let o = orientation_of_idx(idx);
        let (nx, ny) = o.next_coord(x as int, y as int);
        let open = crate::chunks::block::redstone::redstone_connects(s.world, nx as i128, ny as i128, o.opposing());
        match dust_at(s.world, x, y) {
            None => {
                lemma_frames_with_chunk(s.world, x, y);
            },
            Some(rd) => {
                let initial = rd.output_ports[o.port_idx()];
                let rd2 = port_set(rd, o, open);
                lemma_frames_dust(s.world, x, y, rd, rd2);
                let s1 = SimState { world: with_redstone(with_chunk(s.world, x, y), x, y, rd2), ..s };
                let s2 = propagate(s1, nx as i128, ny as i128, Some(o.opposing()), 0, rd2.signal, rd2.signal_type);
                lemma_propagate_frames(s1, nx as i128, ny as i128, Some(o.opposing()), 0, rd2.signal, rd2.signal_type);
                lemma_frames_trans(s.world, s1.world, s2.world);
                lemma_dust_scan_frames(
                    s2,
                    x,
                    y,
                    idx + 1,
                    if open { o } else { last },
                    if open { count + 1 } else { count },
                    changed || open != initial,
                );
                lemma_frames_trans(
                    s.world,
                    s2.world,
                    dust_scan(
                        s2,
                        x,
                        y,
                        idx + 1,
                        if open { o } else { last },
                        if open { count + 1 } else { count },
                        changed || open != initial,
                    ).state.world,
                );
            },
        }
    }
}

/// Reconnecting dust changes no block but signals, signal types and output
/// ports: every position keeps its block, or stays empty.
pub proof fn lemma_update_dust_frames(s: SimState, x: i128, y: i128)
    ensures
        same_frames(s.world, update_dust(s, x, y).world),
{
    let scan = dust_scan(s, x, y, 0, Orientation::Up, 0, false);
    lemma_dust_scan_frames(s, x, y, 0, Orientation::Up, 0, false);
    let s1 = scan.state;
    if scan.stopped {
    } else {
        let w1 = with_chunk(s1.world, x, y);
        lemma_frames_with_chunk(s1.world, x, y);
        lemma_frames_trans(s.world, s1.world, w1);
        match dust_at(s1.world, x, y) {
            None => {},
            Some(rd) => {
                let s2 = if scan.count == 1 || scan.count == 0 {
                    let rd2 = dust_shape(rd, scan.last, scan.count);
                    lemma_frames_dust(s1.world, x, y, rd, rd2);
                    SimState { world: with_redstone(w1, x, y, rd2), ..s1 }
                } else {
                    SimState { world: w1, ..s1 }
                };
                lemma_frames_trans(s.world, s1.world, s2.world);
                if !scan.changed {
                } else {
                    match dust_at(s2.world, x, y) {
                        None => {},
                        Some(rd3) => {
                            let s3 = propagate(s2, x, y, None, 0, sat_inc(rd3.signal), None);
                            lemma_propagate_frames(s2, x, y, None, 0, sat_inc(rd3.signal), None);
                            let mp = max_prev(s3.world, x, y);
                            lemma_propagate_frames(s3, x, y, mp.0, dec_signal(mp.1), mp.1, mp.2);
                            lemma_frames_trans(s.world, s2.world, s3.world);
                            lemma_frames_trans(
                                s.world,
                                s3.world,
                                propagate(s3, x, y, mp.0, dec_signal(mp.1), mp.1, mp.2).world,
                            );
                        },
                    }
                }
            },
        }
    }
}

proof fn lemma_neighbours_frames(s: SimState, x: i128, y: i128, idx: int)
    ensures
        same_frames(s.world, neighbours_update(s, x, y, idx).world),
    decreases 4 - idx,
{
    if idx < 0 || idx >= 4 {
        assert(same_frames(s.world, s.world));
    } else {
        let (nx, ny) = orientation_of_idx(idx).next_coord(x as int, y as int);
        let s1 = update_dust(s, nx as i128, ny as i128);
        lemma_update_dust_frames(s, nx as i128, ny as i128);
        let s2 = SimState {
            events: crate::chunks::alert_from(
                crate::chunks::events::events_update_entity(s1.events, nx as i128, ny as i128),
                s1.world,
                x,
                y,
                0,
            ),
            ..s1
        };
        lemma_neighbours_frames(s2, x, y, idx + 1);
        lemma_frames_trans(s.world, s2.world, neighbours_update(s2, x, y, idx + 1).world);
    }
}

proof fn lemma_destroy_ports_frames(
    s: SimState,
    x: i128,
    y: i128,
    idx: int,
    ports: [bool; 4],
    signal: u8,
    signal_type: Option<SignalType>,
)
    ensures
        same_frames(s.world, destroy_ports(s, x, y, idx, ports, signal, signal_type).world),
    decreases 4 - idx,
{
    if idx < 0 || idx >= 4 {
        assert(same_frames(s.world, s.world));
    } else {
        let s1 = if ports[idx] {
            let o = orientation_of_idx(idx);
            let (nx, ny) = o.next_coord(x as int, y as int);
            lemma_propagate_frames(s, nx as i128, ny as i128, Some(o.opposing()), 0, signal, signal_type);
            propagate(s, nx as i128, ny as i128, Some(o.opposing()), 0, signal, signal_type)
        } else {
            assert(same_frames(s.world, s.world));
            s
        };
        lemma_destroy_ports_frames(s1, x, y, idx + 1, ports, signal, signal_type);
        lemma_frames_trans(s.world, s1.world, destroy_ports(s1, x, y, idx + 1, ports, signal, signal_type).world);
    }
}

/// After destroying the block at `(x, y)` the cell is empty, and every other
/// position keeps its block, or stays empty (only signals may change).
pub proof fn lemma_destroy_empties(s: SimState, x: i128, y: i128)
    ensures
        block_at(destroy_spec(s, x, y).world, x, y) is None,
        forall|x2: i128, y2: i128|
            (x2, y2) != (x, y) ==> #[trigger] frame_at(destroy_spec(s, x, y).world, x2, y2) == frame_at(s.world, x2, y2),
{
    match maybe_block_at(s.world, x, y) {
        None => {},
        Some(cell) => {
            let w1 = set_block_at(s.world, x, y, None);
            lemma_read_after_write(s.world, x, y, None, x, y);
            assert forall|x2: i128, y2: i128| (x2, y2) != (x, y) implies #[trigger] frame_at(w1, x2, y2) == frame_at(s.world, x2, y2) by {
                lemma_read_after_write(s.world, x, y, None, x2, y2);
            }
            let s0 = SimState { calculations: 0, ..s };
            let ev1 = crate::chunks::alert_from(crate::chunks::events::events_update_entity(s.events, x, y), w1, x, y, 0);
            let sb = SimState { world: w1, events: ev1, ..s0 };
            match cell {
                Some(b) => match b.redstone {
                    Some(r) => {
                        lemma_destroy_ports_frames(sb, x, y, 0, r.output_ports, r.signal, r.signal_type);
                        let sa = destroy_ports(sb, x, y, 0, r.output_ports, r.signal, r.signal_type);
                        assert(frame_at(sb.world, x, y) == frame_at(sa.world, x, y));
                        lemma_neighbours_frames(sa, x, y, 0);
                        assert(frame_at(sa.world, x, y) == frame_at(neighbours_update(sa, x, y, 0).world, x, y));
                        lemma_frames_trans(sb.world, sa.world, neighbours_update(sa, x, y, 0).world);
                        let fin = destroy_spec(s, x, y).world;
                        assert(same_frames(sb.world, fin));
                        assert forall|x2: i128, y2: i128| (x2, y2) != (x, y) implies #[trigger] frame_at(fin, x2, y2) == frame_at(s.world, x2, y2) by {
                            assert(frame_at(fin, x2, y2) == frame_at(sb.world, x2, y2));
                        }
                    },
                    None => {},
                },
                None => {},
            }
        },
    }
}

/// Placing on an occupied cell is refused and changes no block; placing on an
/// empty cell puts there a block with the frame of [`placed_block`].
pub proof fn lemma_place_result(
    s: SimState,
    blk: Block,
    orientation: Orientation,
    x: i128,
    y: i128,
    catalog: Map<TextureName, Block>,
)
    ensures
        ({
            let (s2, placed) = place_spec(s, blk, orientation, x, y, catalog);
            &&& placed <==> block_at(s.world, x, y) is None
            &&& !placed ==> same_frames(s.world, s2.world)
            &&& placed ==> frame_at(s2.world, x, y) == Some(frame(placed_block(blk, orientation, catalog)))
            &&& placed ==> forall|x2: i128, y2: i128|
                (x2, y2) != (x, y) ==> #[trigger] frame_at(s2.world, x2, y2) == frame_at(s.world, x2, y2)
        }),
{
    let w0 = with_chunk(s.world, x, y);
    lemma_frames_with_chunk(s.world, x, y);
    if block_at(s.world, x, y) is Some {
    } else {
        let nb = placed_block(blk, orientation, catalog);
        let w1 = set_block_at(w0, x, y, Some(nb));
        lemma_read_after_write(w0, x, y, Some(nb), x, y);
        assert forall|x2: i128, y2: i128| (x2, y2) != (x, y) implies #[trigger] frame_at(w1, x2, y2) == frame_at(s.world, x2, y2) by {
            lemma_read_after_write(w0, x, y, Some(nb), x2, y2);
            assert(frame_at(w0, x2, y2) == frame_at(s.world, x2, y2));
        }
        let s1 = SimState { world: w1, calculations: 0, ..s };
        match nb.redstone {
            None => {},
            Some(rs) => {
                let sa = if crate::chunks::is_source(rs.signal_type) {
                    lemma_update_dust_frames(s1, x, y);
                    let su = update_dust(s1, x, y);
                    lemma_neighbours_frames(su, x, y, 0);
                    lemma_frames_trans(s1.world, su.world, neighbours_update(su, x, y, 0).world);
                    neighbours_update(su, x, y, 0)
                } else {
                    assert(same_frames(s1.world, s1.world));
                    s1
                };
                let mp = max_prev(sa.world, x, y);
                lemma_propagate_frames(sa, x, y, mp.0, dec_signal(mp.1), mp.1, mp.2);
                lemma_frames_trans(s1.world, sa.world, propagate(sa, x, y, mp.0, dec_signal(mp.1), mp.1, mp.2).world);
                assert(frame_at(s1.world, x, y) == frame_at(propagate(sa, x, y, mp.0, dec_signal(mp.1), mp.1, mp.2).world, x, y));
                let fin = propagate(sa, x, y, mp.0, dec_signal(mp.1), mp.1, mp.2).world;
                assert forall|x2: i128, y2: i128| (x2, y2) != (x, y) implies #[trigger] frame_at(fin, x2, y2) == frame_at(s.world, x2, y2) by {
                    assert(frame_at(fin, x2, y2) == frame_at(s1.world, x2, y2));
                }
            },
        }
    }
}

/// Destroying a block just placed on an empty cell gives back every block of
/// the world, when the placed block carries no redstone.
pub proof fn lemma_destroy_undoes_place(
    s: SimState,
    blk: Block,
    orientation: Orientation,
    x: i128,
    y: i128,
    catalog: Map<TextureName, Block>,
    x2: i128,
    y2: i128,
)
    requires
        block_at(s.world, x, y) is None,
        catalog[blk.texture_name].redstone is None,
    ensures
        block_at(destroy_spec(place_spec(s, blk, orientation, x, y, catalog).0, x, y).world, x2, y2)
            == block_at(s.world, x2, y2),
{
    let w0 = with_chunk(s.world, x, y);
    let nb = placed_block(blk, orientation, catalog);
    let w1 = set_block_at(w0, x, y, Some(nb));
    let s1 = place_spec(s, blk, orientation, x, y, catalog).0;
    assert(s1.world == w1);
    lemma_with_chunk_keeps_blocks(s.world, x, y, x2, y2);
    lemma_with_chunk_keeps_blocks(s.world, x, y, x, y);
    lemma_read_after_write(w0, x, y, Some(nb), x2, y2);
    lemma_world_coord_split(x, y);
    assert(maybe_block_at(w1, x, y) == Some(Some(nb))) by {
        lemma_read_after_write(w0, x, y, Some(nb), x, y);
    }
    lemma_read_after_write(w1, x, y, None, x2, y2);
}

/// A propagation never lowers the step counter, so the fallback to the
/// earlier state in [`propagate_ports`] never applies.
pub proof fn lemma_propagate_calcs_grow(
    s: SimState,
    x: i128,
    y: i128,
    from_port: Option<Orientation>,
    input: u8,
    prev: u8,
    prev_type: Option<SignalType>,
)
    ensures
        s.calculations <= propagate(s, x, y, from_port, input, prev, prev_type).calculations,
    decreases budget(s.calculations), 0int,
{
    if (input == 0 && prev <= 1) || input == 1 {
    } else {
        match block_at(s.world, x, y) {
            None => {},
            Some(blk) => match blk.redstone {
                None => {},
                Some(r) => match gate(s.events, x, y, from_port, input, prev_type, blk, r) {
                    None => {},
                    Some(ev) => {
                        let c1 = s.calculations + 1;
                        let s1 = SimState { world: with_chunk(s.world, x, y), ..s };
                        let s2 = SimState { events: ev, calculations: c1, ..s1 };
                        if c1 > 10000 {
                        } else if takes_signal(input, prev, r.signal) {
                            if from_port is Some && input == r.signal && input > 0 {
                            } else {
                                match output_type(r, from_port, input, prev_type) {
                                    None => {},
                                    Some(ot) => {
                                        let r2 = Redstone { signal: input, signal_type: ot.0, ..r };
                                        let s3 = SimState {
                                            world: set_block_at(s2.world, x, y, Some(Block { redstone: Some(r2), ..blk })),
                                            events: crate::chunks::events::events_update_entity(s2.events, x, y),
                                            ..s2
                                        };
                                        lemma_ports_calcs_grow(
                                            s3,
                                            x,
                                            y,
                                            0,
                                            r.output_ports,
                                            r.signal_type_port_mapping,
                                            dec_signal(input),
                                            r.signal,
                                            ot.1,
                                        );
                                    },
                                }
                            }
                        } else {
                        }
                    },
                },
            },
        }
    }
}

/// The signal leaving through output ports never lowers the step counter.
pub proof fn lemma_ports_calcs_grow(
    s: SimState,
    x: i128,
    y: i128,
    idx: int,
    output_ports: [bool; 4],
    mapping: [Option<SignalType>; 4],
    transmitted: u8,
    current: u8,
    out_type: SignalType,
)
    ensures
        s.calculations <= propagate_ports(s, x, y, idx, output_ports, mapping, transmitted, current, out_type).calculations,
    decreases budget(s.calculations), 5 - idx,
{
    if idx < 0 || idx >= 4 {
    } else if !output_ports[idx] {
        lemma_ports_calcs_grow(s, x, y, idx + 1, output_ports, mapping, transmitted, current, out_type);
    } else {
        let o = orientation_of_idx(idx);
        let (nx, ny) = o.next_coord(x as int, y as int);
        let t = match mapping[idx] {
            Some(t) => t,
            None => out_type,
        };
        lemma_propagate_calcs_grow(s, nx as i128, ny as i128, Some(o.opposing()), transmitted, current, Some(t));
        let s2 = propagate(s, nx as i128, ny as i128, Some(o.opposing()), transmitted, current, Some(t));
        lemma_ports_calcs_grow(s2, x, y, idx + 1, output_ports, mapping, transmitted, current, out_type);
    }
}

/// Destroying twice at the same position changes no block beyond the first
/// destruction.
pub proof fn lemma_destroy_twice(s: SimState, x: i128, y: i128, x2: i128, y2: i128)
    ensures
        block_at(destroy_spec(destroy_spec(s, x, y), x, y).world, x2, y2) == block_at(destroy_spec(s, x, y).world, x2, y2),
{
    let d1 = destroy_spec(s, x, y);
    lemma_destroy_empties(s, x, y);
    lemma_read_after_write(d1.world, x, y, None, x2, y2);
}

} // verus!
