use vstd::prelude::*;
use crate::chunks::{block_at, with_chunk, set_block_at, place_spec, destroy_spec, placed_block};
use crate::chunks::World;
use crate::chunks::block::{Block, MechanismKind, Orientation};
use crate::chunks::block::redstone::{SimState, interior, margin_ok};
use crate::chunks::block::mechanism::{
    execute_spec, piston_spec, extend_spec, retract_spec, move_spec, power_set, piston_head_block, with_extended,
    with_movable, power_search, power_pushes, sticky_pushes, push_if, qweight, potential, ray_count, on_ray,
};
use crate::chunks::laws::{
    frame, frame_at, lemma_read_after_write, lemma_with_chunk_keeps_blocks, lemma_place_result, lemma_destroy_empties,
};
use crate::texture::TextureName;

verus! {

/// A retracted piston switched on with nothing in front of it extends: it is
/// marked extended (and stays unmovable while extended), and its head, as
/// the catalogue gives it, stands in front of it.
pub proof fn lemma_piston_extends_into_empty(
    s: SimState,
    x: i128,
    y: i128,
    cat: Map<TextureName, Block>,
    blk: Block,
    sticky: bool,
)
    requires
        interior(x, y),
        block_at(s.world, x, y) == Some(blk),
        blk.mechanism == Some(MechanismKind::Piston { extended: false, sticky }),
        block_at(
            s.world,
            blk.orientation.next_coord(x as int, y as int).0 as i128,
            blk.orientation.next_coord(x as int, y as int).1 as i128,
        ) is None,
    ensures
        frame_at(execute_spec(s, x, y, true, cat).world, x, y) == Some(
            frame(Block { movable: false, mechanism: Some(MechanismKind::Piston { extended: true, sticky }), ..blk }),
        ),
        frame_at(
            execute_spec(s, x, y, true, cat).world,
            blk.orientation.next_coord(x as int, y as int).0 as i128,
            blk.orientation.next_coord(x as int, y as int).1 as i128,
        ) == Some(frame(placed_block(piston_head_block(sticky), blk.orientation, cat))),
{
    let o = blk.orientation;
    let nx = o.next_coord(x as int, y as int).0 as i128;
    let ny = o.next_coord(x as int, y as int).1 as i128;
    assert((nx, ny) != (x, y));
    let head = piston_head_block(sticky);
    let s1 = SimState { world: with_chunk(s.world, x, y), ..s };
    lemma_with_chunk_keeps_blocks(s.world, x, y, x, y);
    lemma_with_chunk_keeps_blocks(s.world, x, y, nx, ny);
    let pb = Block { movable: false, ..blk };
    let s2 = SimState { world: set_block_at(s1.world, x, y, Some(pb)), ..s1 };
    lemma_read_after_write(s1.world, x, y, Some(pb), x, y);
    lemma_read_after_write(s1.world, x, y, Some(pb), nx, ny);
    assert(execute_spec(s, x, y, true, cat) == piston_spec(s1, blk, x, y, true, false, sticky, cat));
    assert(piston_spec(s1, blk, x, y, true, false, sticky, cat) == extend_spec(s2, x, y, o, head, cat));
    let a = power_set(s2.world, nx, ny, o, 12);
    let r3 = move_spec(s2, Set::empty(), nx, ny, o, a, o.opposing(), cat);
    assert(r3.2);
    let s3 = r3.0;
    assert(s3.world == with_chunk(s2.world, nx, ny));
    lemma_with_chunk_keeps_blocks(s2.world, nx, ny, x, y);
    lemma_with_chunk_keeps_blocks(s2.world, nx, ny, nx, ny);
    let pe = Block { mechanism: Some(MechanismKind::Piston { extended: true, sticky }), ..pb };
    let s4 = SimState { world: with_extended(s3.world, x, y, true), ..s3 };
    lemma_with_chunk_keeps_blocks(s3.world, x, y, x, y);
    lemma_with_chunk_keeps_blocks(s3.world, x, y, nx, ny);
    lemma_read_after_write(with_chunk(s3.world, x, y), x, y, Some(pe), x, y);
    lemma_read_after_write(with_chunk(s3.world, x, y), x, y, Some(pe), nx, ny);
    assert(block_at(s4.world, x, y) == Some(pe));
    assert(block_at(s4.world, nx, ny) is None);
    lemma_place_result(s4, head, o, nx, ny, cat);
    let s5 = place_spec(s4, head, o, nx, ny, cat).0;
    assert(frame_at(s5.world, x, y) == frame_at(s4.world, x, y));
    assert(execute_spec(s, x, y, true, cat).world == s5.world);
}

/// A retracted piston switched on with a block in front of it that cannot
/// move stays retracted: it becomes movable again, the block in front stays
/// where it is, and the piston asks to be switched on again.
pub proof fn lemma_piston_blocked(
    s: SimState,
    x: i128,
    y: i128,
    cat: Map<TextureName, Block>,
    blk: Block,
    sticky: bool,
    fb: Block,
)
    requires
        interior(x, y),
        block_at(s.world, x, y) == Some(blk),
        blk.mechanism == Some(MechanismKind::Piston { extended: false, sticky }),
        block_at(
            s.world,
            blk.orientation.next_coord(x as int, y as int).0 as i128,
            blk.orientation.next_coord(x as int, y as int).1 as i128,
        ) == Some(fb),
        !fb.movable,
    ensures
        block_at(execute_spec(s, x, y, true, cat).world, x, y) == Some(Block { movable: true, ..blk }),
        block_at(
            execute_spec(s, x, y, true, cat).world,
            blk.orientation.next_coord(x as int, y as int).0 as i128,
            blk.orientation.next_coord(x as int, y as int).1 as i128,
        ) == Some(fb),
        execute_spec(s, x, y, true, cat).events.mechanisms_on.contains((x, y)),
{
    let o = blk.orientation;
    let nx = o.next_coord(x as int, y as int).0 as i128;
    let ny = o.next_coord(x as int, y as int).1 as i128;
    assert((nx, ny) != (x, y));
    let head = piston_head_block(sticky);
    let s1 = SimState { world: with_chunk(s.world, x, y), ..s };
    lemma_with_chunk_keeps_blocks(s.world, x, y, x, y);
    lemma_with_chunk_keeps_blocks(s.world, x, y, nx, ny);
    let pb = Block { movable: false, ..blk };
    let s2 = SimState { world: set_block_at(s1.world, x, y, Some(pb)), ..s1 };
    lemma_read_after_write(s1.world, x, y, Some(pb), x, y);
    lemma_read_after_write(s1.world, x, y, Some(pb), nx, ny);
    assert(execute_spec(s, x, y, true, cat) == piston_spec(s1, blk, x, y, true, false, sticky, cat));
    assert(piston_spec(s1, blk, x, y, true, false, sticky, cat) == extend_spec(s2, x, y, o, head, cat));
    let a = power_set(s2.world, nx, ny, o, 12);
    let r3 = move_spec(s2, Set::empty(), nx, ny, o, a, o.opposing(), cat);
    assert(!r3.2);
    let s3 = r3.0;
    assert(s3.world == with_chunk(s2.world, nx, ny));
    lemma_with_chunk_keeps_blocks(s2.world, nx, ny, x, y);
    lemma_with_chunk_keeps_blocks(s2.world, nx, ny, nx, ny);
    lemma_with_chunk_keeps_blocks(s3.world, x, y, x, y);
    lemma_with_chunk_keeps_blocks(s3.world, x, y, nx, ny);
    let pm = Block { movable: true, ..pb };
    lemma_read_after_write(with_chunk(s3.world, x, y), x, y, Some(pm), x, y);
    lemma_read_after_write(with_chunk(s3.world, x, y), x, y, Some(pm), nx, ny);
    assert(execute_spec(s, x, y, true, cat).world == with_movable(s3.world, x, y, true));
}

/// An extended piston switched off with its head in front of it retracts:
/// the head is removed, and the piston is marked retracted and movable again.
/// A plain piston pulls nothing back.
pub proof fn lemma_piston_retracts(
    s: SimState,
    x: i128,
    y: i128,
    cat: Map<TextureName, Block>,
    blk: Block,
    hb: Block,
)
    requires
        interior(x, y),
        block_at(s.world, x, y) == Some(blk),
        blk.mechanism == Some(MechanismKind::Piston { extended: true, sticky: false }),
        block_at(
            s.world,
            blk.orientation.next_coord(x as int, y as int).0 as i128,
            blk.orientation.next_coord(x as int, y as int).1 as i128,
        ) == Some(hb),
        hb.texture_name == TextureName::PistonHead,
    ensures
        block_at(
            execute_spec(s, x, y, false, cat).world,
            blk.orientation.next_coord(x as int, y as int).0 as i128,
            blk.orientation.next_coord(x as int, y as int).1 as i128,
        ) is None,
        frame_at(execute_spec(s, x, y, false, cat).world, x, y) == Some(
            frame(Block { movable: true, mechanism: Some(MechanismKind::Piston { extended: false, sticky: false }), ..blk }),
        ),
{
    let o = blk.orientation;
    let nx = o.next_coord(x as int, y as int).0 as i128;
    let ny = o.next_coord(x as int, y as int).1 as i128;
    assert((nx, ny) != (x, y));
    let head = piston_head_block(false);
    let s1 = SimState { world: with_chunk(s.world, x, y), ..s };
    lemma_with_chunk_keeps_blocks(s.world, x, y, x, y);
    lemma_with_chunk_keeps_blocks(s.world, x, y, nx, ny);
    let pb = Block { movable: false, ..blk };
    let s2 = SimState { world: set_block_at(s1.world, x, y, Some(pb)), ..s1 };
    lemma_read_after_write(s1.world, x, y, Some(pb), nx, ny);
    assert(execute_spec(s, x, y, false, cat) == piston_spec(s1, blk, x, y, false, true, false, cat));
    assert(piston_spec(s1, blk, x, y, false, true, false, cat) == retract_spec(s2, blk, x, y, false, head, cat));
    let pr = Block { movable: false, mechanism: Some(MechanismKind::Piston { extended: false, sticky: false }), ..blk };
    let w3 = set_block_at(s2.world, x, y, Some(pr));
    lemma_read_after_write(s2.world, x, y, Some(pr), x, y);
    lemma_read_after_write(s2.world, x, y, Some(pr), nx, ny);
    let s3 = SimState { world: w3, events: crate::chunks::events::events_update_entity(s2.events, x, y), ..s2 };
    let s3w = SimState { world: with_chunk(w3, nx, ny), ..s3 };
    lemma_with_chunk_keeps_blocks(w3, nx, ny, x, y);
    lemma_with_chunk_keeps_blocks(w3, nx, ny, nx, ny);
    let s4 = destroy_spec(s3w, nx, ny);
    lemma_destroy_empties(s3w, nx, ny);
    assert(frame_at(s4.world, x, y) == frame_at(s3w.world, x, y));
    let b4 = block_at(s4.world, x, y)->0;
    lemma_with_chunk_keeps_blocks(s4.world, x, y, x, y);
    lemma_with_chunk_keeps_blocks(s4.world, x, y, nx, ny);
    lemma_read_after_write(with_chunk(s4.world, x, y), x, y, Some(Block { movable: true, ..b4 }), x, y);
    lemma_read_after_write(with_chunk(s4.world, x, y), x, y, Some(Block { movable: true, ..b4 }), nx, ny);
    assert(execute_spec(s, x, y, false, cat).world == with_movable(s4.world, x, y, true));
}

/// Every entry of `q` is `start` or holds a block.
pub open spec fn queue_on_blocks(w: World, q: Seq<(i128, i128, u32)>, start: (i128, i128)) -> bool {
    forall|i: int| 0 <= i < q.len() ==> (#[trigger] q[i]).0 == start.0 && q[i].1 == start.1 || block_at(w, q[i].0, q[i].1) is Some
}

/// Every position of `t` is `start` or holds a block.
pub open spec fn set_on_blocks(w: World, t: Set<(i128, i128)>, start: (i128, i128)) -> bool {
    forall|p: (i128, i128)| #[trigger] t.contains(p) ==> p == start || block_at(w, p.0, p.1) is Some
}

proof fn lemma_sticky_pushes_on_blocks(w: World, x: i128, y: i128, s: u32, t: Set<(i128, i128)>, idx: int, start: (i128, i128))
    ensures
        queue_on_blocks(w, sticky_pushes(w, x, y, s, t, idx), start),
    decreases 4 - idx,
{
    if 0 <= idx < 4 {
        let (nx, ny) = crate::chunks::block::orientation_of_idx(idx).next_coord(x as int, y as int);
        lemma_sticky_pushes_on_blocks(w, x, y, s, t, idx + 1, start);
        let a = push_if(w, nx, ny, s, t);
        let b = sticky_pushes(w, x, y, s, t, idx + 1);
        assert forall|i: int| 0 <= i < (a + b).len() implies (#[trigger] (a + b)[i]).0 == start.0 && (a + b)[i].1 == start.1
            || block_at(w, (a + b)[i].0, (a + b)[i].1) is Some by {
            if i < a.len() {
            } else {
                assert((a + b)[i] == b[i - a.len()]);
            }
        }
    }
}

proof fn lemma_search_on_blocks(w: World, q: Seq<(i128, i128, u32)>, t: Set<(i128, i128)>, o: Orientation, start: (i128, i128))
    requires
        queue_on_blocks(w, q, start),
        set_on_blocks(w, t, start),
    ensures
        set_on_blocks(w, power_search(w, q, t, o), start),
    decreases qweight(q),
{
    if q.len() > 0 {
        let e = q[0];
        let t2 = t.insert((e.0, e.1));
        let pushes = power_pushes(w, e.0, e.1, e.2, o, t2);
        let q2 = q.drop_first() + pushes;
        if qweight(q2) < qweight(q) {
            match block_at(w, e.0, e.1) {
                Some(b) => {
                    if b.movable && b.sticky {
                        lemma_sticky_pushes_on_blocks(w, e.0, e.1, e.2, t2, 0, start);
                    }
                },
                None => {},
            }
            assert(queue_on_blocks(w, pushes, start)) by {
                match block_at(w, e.0, e.1) {
                    Some(b) => {
                        if b.movable {
                            let (nx, ny) = o.next_coord(e.0 as int, e.1 as int);
                            let a = push_if(w, nx, ny, e.2, t2);
                            let c = if b.sticky {
                                sticky_pushes(w, e.0, e.1, e.2, t2, 0)
                            } else {
                                Seq::empty()
                            };
                            assert forall|i: int| 0 <= i < (a + c).len() implies (#[trigger] (a + c)[i]).0 == start.0
                                && (a + c)[i].1 == start.1 || block_at(w, (a + c)[i].0, (a + c)[i].1) is Some by {
                                if i < a.len() {
                                } else {
                                    assert((a + c)[i] == c[i - a.len()]);
                                }
                            }
                        }
                    },
                    None => {},
                }
            }
            assert forall|i: int| 0 <= i < q2.len() implies (#[trigger] q2[i]).0 == start.0 && q2[i].1 == start.1 || block_at(
                w,
                q2[i].0,
                q2[i].1,
            ) is Some by {
                if i < q.len() - 1 {
                    assert(q2[i] == q[i + 1]);
                } else {
                    assert(q2[i] == pushes[i - (q.len() - 1)]);
                }
            }
            lemma_search_on_blocks(w, q2, t2, o, start);
        }
    }
}

/// The blocks that a push from `(x, y)` moves ([`power_set`]): when there are
/// any, `(x, y)` is among them, and every other one holds a block.
pub proof fn lemma_power_set_on_blocks(w: World, x: i128, y: i128, o: Orientation, strength: u32)
    ensures
        !power_set(w, x, y, o, strength).is_empty() ==> power_set(w, x, y, o, strength).contains((x, y)),
        forall|p: (i128, i128)|
            #[trigger] power_set(w, x, y, o, strength).contains(p) && p != (x, y) ==> block_at(w, p.0, p.1) is Some,
{
    let q = seq![(x, y, strength)];
    let t0 = Set::<(i128, i128)>::empty();
    lemma_search_on_blocks(w, q, t0, o, (x, y));
    let t2 = t0.insert((x, y));
    let q2 = q.drop_first() + power_pushes(w, x, y, strength, o, t2);
    let t = power_search(w, q, t0, o);
    if qweight(q2) < qweight(q) {
        lemma_search_on_blocks_contains(w, q2, t2, o);
    }
    assert(t.contains((x, y)));
}

proof fn lemma_search_on_blocks_contains(w: World, q: Seq<(i128, i128, u32)>, t: Set<(i128, i128)>, o: Orientation)
    ensures
        t.subset_of(power_search(w, q, t, o)),
    decreases qweight(q),
{
    if q.len() > 0 {
        let e = q[0];
        let t2 = t.insert((e.0, e.1));
        let q2 = q.drop_first() + power_pushes(w, e.0, e.1, e.2, o, t2);
        if qweight(q2) < qweight(q) {
            lemma_search_on_blocks_contains(w, q2, t2, o);
        }
    }
}


/// A push of strength 12 from a movable block that is not sticky, with an
/// empty cell in front of it, moves that block alone.
proof fn lemma_single_push(w: World, nx: i128, ny: i128, nnx: i128, nny: i128, pull: Orientation, pb: Block)
    requires
        pull.next_coord(nnx as int, nny as int) == (nx as int, ny as int),
        block_at(w, nnx, nny) == Some(pb),
        pb.movable,
        !pb.sticky,
        block_at(w, nx, ny) is None,
    ensures
        power_set(w, nnx, nny, pull, 12) == Set::<(i128, i128)>::empty().insert((nnx, nny)),
{
    let start = (nnx, nny);
    let q = seq![(nnx, nny, 12u32)];
    let t2 = Set::<(i128, i128)>::empty().insert(start);
    assert(power_pushes(w, nnx, nny, 12, pull, t2) =~= Seq::<(i128, i128, u32)>::empty());
    let q2 = q.drop_first() + power_pushes(w, nnx, nny, 12, pull, t2);
    assert(q2 =~= Seq::<(i128, i128, u32)>::empty());
    assert(qweight(q2) == 0);
    assert(qweight(q) > 0) by {
        assert(q.drop_last() =~= Seq::<(i128, i128, u32)>::empty());
        crate::chunks::block::mechanism::lemma_pow6_positive(12);
    }
    assert(power_search(w, q, Set::empty(), pull) == power_search(w, q2, t2, pull));
    assert(t2.len() == 1);
}

/// Moving that block alone one step, into the empty cell in front of it:
/// the block, as placing it gives it, stands in front, its old place is
/// empty and every other position keeps its block.
proof fn lemma_single_move(
    s4: SimState,
    nx: i128,
    ny: i128,
    nnx: i128,
    nny: i128,
    pull: Orientation,
    from: Orientation,
    cat: Map<TextureName, Block>,
    pb: Block,
)
    requires
        pull.next_coord(nnx as int, nny as int) == (nx as int, ny as int),
        block_at(s4.world, nnx, nny) == Some(pb),
        pb.movable,
        !pb.sticky,
        block_at(s4.world, nx, ny) is None,
    ensures
        ({
            let a = power_set(s4.world, nnx, nny, pull, 12);
            let s5 = move_spec(s4, Set::empty(), nnx, nny, pull, a, from, cat).0;
            &&& move_spec(s4, Set::empty(), nnx, nny, pull, a, from, cat).2
            &&& frame_at(s5.world, nx, ny) == Some(frame(placed_block(pb, pb.orientation, cat)))
            &&& block_at(s5.world, nnx, nny) is None
            &&& forall|x2: i128, y2: i128|
                (x2, y2) != (nx, ny) && (x2, y2) != (nnx, nny) ==> #[trigger] frame_at(s5.world, x2, y2) == frame_at(
                    s4.world,
                    x2,
                    y2,
                )
        }),
{
    lemma_single_push(s4.world, nx, ny, nnx, nny, pull, pb);
    let a = power_set(s4.world, nnx, nny, pull, 12);
    assert(a.difference(Set::empty()) =~= a);
    let f1 = |p: (i128, i128)| on_ray(p, nnx, nny, pull);
    let f2 = |p: (i128, i128)| on_ray(p, nx, ny, pull);
    assert(a.filter(f1) =~= a);
    assert(a.filter(f2) =~= Set::empty());
    assert(ray_count(a, nnx, nny, pull) == 1);
    assert(ray_count(a, nx, ny, pull) == 0);
    assert(potential(a, Set::empty(), nx, ny, pull) < potential(a, Set::empty(), nnx, nny, pull));
    let sm1 = SimState { world: with_chunk(s4.world, nnx, nny), ..s4 };
    lemma_with_chunk_keeps_blocks(s4.world, nnx, nny, nx, ny);
    lemma_with_chunk_keeps_blocks(s4.world, nnx, nny, nnx, nny);
    let r2 = move_spec(sm1, Set::empty(), nx, ny, pull, a, pull.opposing(), cat);
    assert(r2.2);
    let sm2 = r2.0;
    assert(sm2.world == with_chunk(sm1.world, nx, ny));
    lemma_with_chunk_keeps_blocks(sm1.world, nx, ny, nx, ny);
    lemma_with_chunk_keeps_blocks(sm1.world, nx, ny, nnx, nny);
    lemma_place_result(sm2, pb, pb.orientation, nx, ny, cat);
    let r3 = place_spec(sm2, pb, pb.orientation, nx, ny, cat);
    assert(r3.1);
    lemma_destroy_empties(r3.0, nnx, nny);
    let s5 = destroy_spec(r3.0, nnx, nny);
    assert(move_spec(s4, Set::empty(), nnx, nny, pull, a, from, cat).0 == s5);
    assert forall|x2: i128, y2: i128|
        (x2, y2) != (nx, ny) && (x2, y2) != (nnx, nny) implies #[trigger] frame_at(s5.world, x2, y2) == frame_at(
            s4.world,
            x2,
            y2,
        ) by {
        lemma_with_chunk_keeps_blocks(s4.world, nnx, nny, x2, y2);
        lemma_with_chunk_keeps_blocks(sm1.world, nx, ny, x2, y2);
        assert(frame_at(s5.world, x2, y2) == frame_at(r3.0.world, x2, y2));
        assert(frame_at(r3.0.world, x2, y2) == frame_at(sm2.world, x2, y2));
    }
}

/// Destroying a block without redstone only empties its cell.
proof fn lemma_destroy_plain(s: SimState, x: i128, y: i128, b: Block)
    requires
        block_at(s.world, x, y) == Some(b),
        b.redstone is None,
    ensures
        destroy_spec(s, x, y).world == set_block_at(s.world, x, y, None),
{
}

/// The position two steps from `(x, y)` in direction `o`.
pub open spec fn two_ahead(o: Orientation, x: i128, y: i128) -> (i128, i128) {
    let (nx, ny) = o.next_coord(x as int, y as int);
    (o.next_coord(nx, ny).0 as i128, o.next_coord(nx, ny).1 as i128)
}

/// An extended sticky piston switched off with its head in front of it pulls
/// back the movable (not sticky) block after the head: that block, as placing
/// it gives it, now stands where the head was, its old place is empty, and
/// the piston is marked retracted and movable again.
#[verifier::rlimit(60)]
pub proof fn lemma_sticky_piston_pulls(
    s: SimState,
    x: i128,
    y: i128,
    cat: Map<TextureName, Block>,
    blk: Block,
    hb: Block,
    pb: Block,
)
    requires
        margin_ok(x, y, 2),
        block_at(s.world, x, y) == Some(blk),
        blk.mechanism == Some(MechanismKind::Piston { extended: true, sticky: true }),
        block_at(
            s.world,
            blk.orientation.next_coord(x as int, y as int).0 as i128,
            blk.orientation.next_coord(x as int, y as int).1 as i128,
        ) == Some(hb),
        hb.texture_name == TextureName::StickyPistonHead,
        hb.redstone is None,
        block_at(s.world, two_ahead(blk.orientation, x, y).0, two_ahead(blk.orientation, x, y).1) == Some(pb),
        pb.movable,
        !pb.sticky,
    ensures
        frame_at(
            execute_spec(s, x, y, false, cat).world,
            blk.orientation.next_coord(x as int, y as int).0 as i128,
            blk.orientation.next_coord(x as int, y as int).1 as i128,
        ) == Some(frame(placed_block(pb, pb.orientation, cat))),
        block_at(
            execute_spec(s, x, y, false, cat).world,
            two_ahead(blk.orientation, x, y).0,
            two_ahead(blk.orientation, x, y).1,
        ) is None,
        frame_at(execute_spec(s, x, y, false, cat).world, x, y) == Some(
            frame(Block { movable: true, mechanism: Some(MechanismKind::Piston { extended: false, sticky: true }), ..blk }),
        ),
{
    let o = blk.orientation;
    let nx = o.next_coord(x as int, y as int).0 as i128;
    let ny = o.next_coord(x as int, y as int).1 as i128;
    let nnx = o.next_coord(nx as int, ny as int).0 as i128;
    let nny = o.next_coord(nx as int, ny as int).1 as i128;
    assert((nnx, nny) == two_ahead(o, x, y));
    assert((nx, ny) != (x, y) && (nnx, nny) != (x, y) && (nnx, nny) != (nx, ny));
    let pull = o.opposing();
    assert(pull.next_coord(nnx as int, nny as int) == (nx as int, ny as int));
    let head = piston_head_block(true);
    let s1 = SimState { world: with_chunk(s.world, x, y), ..s };
    lemma_with_chunk_keeps_blocks(s.world, x, y, nx, ny);
    lemma_with_chunk_keeps_blocks(s.world, x, y, nnx, nny);
    let pm = Block { movable: false, ..blk };
    let s2 = SimState { world: set_block_at(s1.world, x, y, Some(pm)), ..s1 };
    lemma_read_after_write(s1.world, x, y, Some(pm), nx, ny);
    lemma_read_after_write(s1.world, x, y, Some(pm), nnx, nny);
    assert(execute_spec(s, x, y, false, cat) == piston_spec(s1, blk, x, y, false, true, true, cat));
    assert(piston_spec(s1, blk, x, y, false, true, true, cat) == retract_spec(s2, blk, x, y, true, head, cat));
    let pr = Block { movable: false, mechanism: Some(MechanismKind::Piston { extended: false, sticky: true }), ..blk };
    let w3 = set_block_at(s2.world, x, y, Some(pr));
    lemma_read_after_write(s2.world, x, y, Some(pr), x, y);
    lemma_read_after_write(s2.world, x, y, Some(pr), nx, ny);
    lemma_read_after_write(s2.world, x, y, Some(pr), nnx, nny);
    let s3 = SimState { world: w3, events: crate::chunks::events::events_update_entity(s2.events, x, y), ..s2 };
    let s3w = SimState { world: with_chunk(w3, nx, ny), ..s3 };
    lemma_with_chunk_keeps_blocks(w3, nx, ny, x, y);
    lemma_with_chunk_keeps_blocks(w3, nx, ny, nx, ny);
    lemma_with_chunk_keeps_blocks(w3, nx, ny, nnx, nny);
    let s4 = destroy_spec(s3w, nx, ny);
    lemma_destroy_plain(s3w, nx, ny, hb);
    let w4 = set_block_at(s3w.world, nx, ny, None);
    lemma_read_after_write(s3w.world, nx, ny, None, nnx, nny);
    lemma_read_after_write(s3w.world, nx, ny, None, x, y);
    assert(s4.world == w4);
    assert(block_at(s4.world, nnx, nny) == Some(pb));
    assert(block_at(s4.world, nx, ny) is None);
    lemma_single_move(s4, nx, ny, nnx, nny, pull, pull, cat, pb);
    let a = power_set(s4.world, nnx, nny, pull, 12);
    let s5 = move_spec(s4, Set::empty(), nnx, nny, pull, a, pull, cat).0;
    assert(frame_at(s5.world, nx, ny) == Some(frame(placed_block(pb, pb.orientation, cat))));
    assert(frame_at(s5.world, x, y) == frame_at(s4.world, x, y));
    let b5 = block_at(s5.world, x, y)->0;
    lemma_with_chunk_keeps_blocks(s5.world, x, y, x, y);
    lemma_with_chunk_keeps_blocks(s5.world, x, y, nx, ny);
    lemma_with_chunk_keeps_blocks(s5.world, x, y, nnx, nny);
    lemma_read_after_write(with_chunk(s5.world, x, y), x, y, Some(Block { movable: true, ..b5 }), x, y);
    lemma_read_after_write(with_chunk(s5.world, x, y), x, y, Some(Block { movable: true, ..b5 }), nx, ny);
    lemma_read_after_write(with_chunk(s5.world, x, y), x, y, Some(Block { movable: true, ..b5 }), nnx, nny);
    assert(execute_spec(s, x, y, false, cat).world == with_movable(s5.world, x, y, true));
}

/// A retracted piston switched on with a movable block (not sticky) in front
/// of it and an empty cell beyond pushes that block one step: the block, as
/// placing it gives it, stands two steps ahead, the piston's head stands in
/// front, and the piston is marked extended.
#[verifier::rlimit(60)]
pub proof fn lemma_piston_pushes_block(
    s: SimState,
    x: i128,
    y: i128,
    cat: Map<TextureName, Block>,
    blk: Block,
    sticky: bool,
    pb: Block,
)
    requires
        margin_ok(x, y, 2),
        block_at(s.world, x, y) == Some(blk),
        blk.mechanism == Some(MechanismKind::Piston { extended: false, sticky }),
        block_at(
            s.world,
            blk.orientation.next_coord(x as int, y as int).0 as i128,
            blk.orientation.next_coord(x as int, y as int).1 as i128,
        ) == Some(pb),
        pb.movable,
        !pb.sticky,
        block_at(s.world, two_ahead(blk.orientation, x, y).0, two_ahead(blk.orientation, x, y).1) is None,
    ensures
        frame_at(execute_spec(s, x, y, true, cat).world, two_ahead(blk.orientation, x, y).0, two_ahead(blk.orientation, x, y).1)
            == Some(frame(placed_block(pb, pb.orientation, cat))),
        frame_at(
            execute_spec(s, x, y, true, cat).world,
            blk.orientation.next_coord(x as int, y as int).0 as i128,
            blk.orientation.next_coord(x as int, y as int).1 as i128,
        ) == Some(frame(placed_block(piston_head_block(sticky), blk.orientation, cat))),
        frame_at(execute_spec(s, x, y, true, cat).world, x, y) == Some(
            frame(Block { movable: false, mechanism: Some(MechanismKind::Piston { extended: true, sticky }), ..blk }),
        ),
{
    let o = blk.orientation;
    let nx = o.next_coord(x as int, y as int).0 as i128;
    let ny = o.next_coord(x as int, y as int).1 as i128;
    let nnx = o.next_coord(nx as int, ny as int).0 as i128;
    let nny = o.next_coord(nx as int, ny as int).1 as i128;
    assert((nnx, nny) == two_ahead(o, x, y));
    assert((nx, ny) != (x, y) && (nnx, nny) != (x, y) && (nnx, nny) != (nx, ny));
    let head = piston_head_block(sticky);
    let s1 = SimState { world: with_chunk(s.world, x, y), ..s };
    lemma_with_chunk_keeps_blocks(s.world, x, y, x, y);
    lemma_with_chunk_keeps_blocks(s.world, x, y, nx, ny);
    lemma_with_chunk_keeps_blocks(s.world, x, y, nnx, nny);
    let pm = Block { movable: false, ..blk };
    let s2 = SimState { world: set_block_at(s1.world, x, y, Some(pm)), ..s1 };
    lemma_read_after_write(s1.world, x, y, Some(pm), x, y);
    lemma_read_after_write(s1.world, x, y, Some(pm), nx, ny);
    lemma_read_after_write(s1.world, x, y, Some(pm), nnx, nny);
    assert(execute_spec(s, x, y, true, cat) == piston_spec(s1, blk, x, y, true, false, sticky, cat));
    assert(piston_spec(s1, blk, x, y, true, false, sticky, cat) == extend_spec(s2, x, y, o, head, cat));
    lemma_single_move(s2, nnx, nny, nx, ny, o, o.opposing(), cat, pb);
    lemma_single_push(s2.world, nnx, nny, nx, ny, o, pb);
    let a = power_set(s2.world, nx, ny, o, 12);
    let r3 = move_spec(s2, Set::empty(), nx, ny, o, a, o.opposing(), cat);
    assert(r3.2);
    let s3 = r3.0;
    assert(frame_at(s3.world, x, y) == frame_at(s2.world, x, y));
    let b3 = block_at(s3.world, x, y)->0;
    let pe = Block { mechanism: Some(MechanismKind::Piston { extended: true, sticky }), ..b3 };
    let s4 = SimState { world: with_extended(s3.world, x, y, true), ..s3 };
    lemma_with_chunk_keeps_blocks(s3.world, x, y, x, y);
    lemma_with_chunk_keeps_blocks(s3.world, x, y, nx, ny);
    lemma_with_chunk_keeps_blocks(s3.world, x, y, nnx, nny);
    lemma_read_after_write(with_chunk(s3.world, x, y), x, y, Some(pe), x, y);
    lemma_read_after_write(with_chunk(s3.world, x, y), x, y, Some(pe), nx, ny);
    lemma_read_after_write(with_chunk(s3.world, x, y), x, y, Some(pe), nnx, nny);
    assert(block_at(s4.world, nx, ny) is None);
    lemma_place_result(s4, head, o, nx, ny, cat);
    let s5 = place_spec(s4, head, o, nx, ny, cat).0;
    assert(frame_at(s5.world, x, y) == frame_at(s4.world, x, y));
    assert(frame_at(s5.world, nnx, nny) == frame_at(s4.world, nnx, nny));
    assert(execute_spec(s, x, y, true, cat).world == s5.world);
}

} // verus!
