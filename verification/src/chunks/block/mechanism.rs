use vstd::prelude::*;
use crate::chunks::{
    Chunks, World, block_at, with_chunk, set_block_at, BlockCatalog, block_catalog_contents, place_spec,
    destroy_spec, place, destroy, place_ok, destroy_ok,
};
use crate::chunks::block::{Block, Redstone, Orientation, MechanismKind, orientation_of_idx};
use crate::chunks::block::redstone::{
    margin_ok, reach, SimState, sim_state, propagate, propagate_signal_at, lemma_in_play_coords, lemma_within_step,
    lemma_calc_bound, keeps_ok,
};
use crate::chunks::bounds::lemma_execute_keeps_ok;
use crate::chunks::events::{PosSet, EventListeners, PropagationQueue, events_update_entity, events_turn_on, events_turn_off};
use crate::texture::TextureName;

verus! {

/// `6^n`.
pub open spec fn pow6(n: nat) -> nat
    decreases n,
{
    if n == 0 {
        1
    } else {
        6 * pow6((n - 1) as nat)
    }
}

/// Weight of a search queue: `6^s` for an entry of strength `s`. Popping an
/// entry of strength `s` and pushing at most five of strength `s - 1` lowers it.
pub open spec fn qweight(q: Seq<(i128, i128, u32)>) -> nat
    decreases q.len(),
{
    if q.len() == 0 {
        0
    } else {
        qweight(q.drop_last()) + pow6(q.last().2 as nat)
    }
}

proof fn lemma_qweight_front(q: Seq<(i128, i128, u32)>)
    requires
        q.len() > 0,
    ensures
        qweight(q) == pow6(q[0].2 as nat) + qweight(q.drop_first()),
    decreases q.len(),
{
    if q.len() == 1 {
        assert(q.drop_last() =~= Seq::<(i128, i128, u32)>::empty());
        assert(q.drop_first() =~= Seq::<(i128, i128, u32)>::empty());
    } else {
        lemma_qweight_front(q.drop_last());
        assert(q.drop_first().drop_last() =~= q.drop_last().drop_first());
    }
}

proof fn lemma_qweight_append(a: Seq<(i128, i128, u32)>, b: Seq<(i128, i128, u32)>)
    ensures
        qweight(a + b) == qweight(a) + qweight(b),
    decreases b.len(),
{
    if b.len() == 0 {
        assert(a + b =~= a);
    } else {
        lemma_qweight_append(a, b.drop_last());
        assert((a + b).drop_last() =~= a + b.drop_last());
    }
}

/// Every entry of `q` has strength `s`.
pub open spec fn all_strength(q: Seq<(i128, i128, u32)>, s: u32) -> bool {
    forall|i: int| 0 <= i < q.len() ==> (#[trigger] q[i]).2 == s
}

proof fn lemma_qweight_uniform(q: Seq<(i128, i128, u32)>, s: u32)
    requires
        all_strength(q, s),
    ensures
        qweight(q) == q.len() * pow6(s as nat),
    decreases q.len(),
{
    if q.len() > 0 {
        assert(all_strength(q.drop_last(), s)) by {
            assert forall|i: int| 0 <= i < q.drop_last().len() implies (#[trigger] q.drop_last()[i]).2 == s by {
                assert(q.drop_last()[i] == q[i]);
            }
        }
        lemma_qweight_uniform(q.drop_last(), s);
        assert(q.len() * pow6(s as nat) == (q.len() - 1) * pow6(s as nat) + pow6(s as nat)) by (nonlinear_arith);
    }
}

/// A neighbour is pushed when it holds a block, was not searched yet and the
/// strength is not used up.
pub open spec fn push_if(w: World, nx: int, ny: int, s: u32, t: Set<(i128, i128)>) -> Seq<(i128, i128, u32)> {
    if block_at(w, nx as i128, ny as i128) is Some && !t.contains((nx as i128, ny as i128)) && s > 0 {
        seq![(nx as i128, ny as i128, (s - 1) as u32)]
    } else {
        Seq::empty()
    }
}

/// The sticky neighbours pushed from side `idx` on.
pub open spec fn sticky_pushes(w: World, x: i128, y: i128, s: u32, t: Set<(i128, i128)>, idx: int) -> Seq<(i128, i128, u32)>
    decreases 4 - idx,
{
    if idx < 0 || idx >= 4 {
        Seq::empty()
    } else {
        let (nx, ny) = orientation_of_idx(idx).next_coord(x as int, y as int);
        push_if(w, nx, ny, s, t) + sticky_pushes(w, x, y, s, t, idx + 1)
    }
}

/// What the search pushes after reaching `(x, y)` with strength `s`: a movable
/// block pushes the block in front of it and, when sticky, the blocks on
/// its four sides.
pub open spec fn power_pushes(w: World, x: i128, y: i128, s: u32, o: Orientation, t: Set<(i128, i128)>) -> Seq<(i128, i128, u32)> {
    match block_at(w, x, y) {
        Some(b) => if b.movable {
            let (nx, ny) = o.next_coord(x as int, y as int);
            push_if(w, nx, ny, s, t) + (if b.sticky {
                sticky_pushes(w, x, y, s, t, 0)
            } else {
                Seq::empty()
            })
        } else {
            Seq::empty()
        },
        None => Seq::empty(),
    }
}

/// The breadth-first search of the blocks that a push in direction `o` moves:
/// the positions searched once the queue `q` is empty.
pub open spec fn power_search(w: World, q: Seq<(i128, i128, u32)>, t: Set<(i128, i128)>, o: Orientation) -> Set<(i128, i128)>
    decreases qweight(q),
{
    if q.len() == 0 {
        t
    } else {
        let e = q[0];
        let t2 = t.insert((e.0, e.1));
        let q2 = q.drop_first() + power_pushes(w, e.0, e.1, e.2, o, t2);
        if qweight(q2) < qweight(q) {
            power_search(w, q2, t2, o)
        } else {
            t2
        }
    }
}

/// The blocks moved by a push from `(x, y)` in direction `o` with the given
/// strength: the searched positions, or none when there are more than 12.
pub open spec fn power_set(w: World, x: i128, y: i128, o: Orientation, strength: u32) -> Set<(i128, i128)> {
    let t = power_search(w, seq![(x, y, strength)], Set::empty(), o);
    if t.len() > 12 {
        Set::empty()
    } else {
        t
    }
}

proof fn lemma_sticky_pushes(w: World, x: i128, y: i128, s: u32, t: Set<(i128, i128)>, idx: int)
    requires
        s > 0,
        0 <= idx <= 4,
    ensures
        all_strength(sticky_pushes(w, x, y, s, t, idx), (s - 1) as u32),
        sticky_pushes(w, x, y, s, t, idx).len() <= 4 - idx,
    decreases 4 - idx,
{
    if idx < 4 {
        lemma_sticky_pushes(w, x, y, s, t, idx + 1);
        let (nx, ny) = orientation_of_idx(idx).next_coord(x as int, y as int);
        let a = push_if(w, nx, ny, s, t);
        let b = sticky_pushes(w, x, y, s, t, idx + 1);
        assert forall|i: int| 0 <= i < (a + b).len() implies (#[trigger] (a + b)[i]).2 == (s - 1) as u32 by {
            if i < a.len() {
            } else {
                assert((a + b)[i] == b[i - a.len()]);
            }
        }
    }
}

proof fn lemma_power_step(w: World, q: Seq<(i128, i128, u32)>, t2: Set<(i128, i128)>, o: Orientation)
    requires
        q.len() > 0,
    ensures
        qweight(q.drop_first() + power_pushes(w, q[0].0, q[0].1, q[0].2, o, t2)) < qweight(q),
{
    let e = q[0];
    let p = power_pushes(w, e.0, e.1, e.2, o, t2);
    lemma_qweight_front(q);
    lemma_qweight_append(q.drop_first(), p);
    if e.2 == 0 {
        match block_at(w, e.0, e.1) {
            Some(b) => if b.movable {
                let (nx, ny) = o.next_coord(e.0 as int, e.1 as int);
                if b.sticky {
                    lemma_sticky_zero(w, e.0, e.1, t2, 0);
                }
                assert(p =~= Seq::<(i128, i128, u32)>::empty());
            } else {
            },
            None => {},
        }
        assert(qweight(p) == 0);
    } else {
        let s1 = (e.2 - 1) as u32;
        match block_at(w, e.0, e.1) {
            Some(b) => if b.movable {
                let (nx, ny) = o.next_coord(e.0 as int, e.1 as int);
                lemma_sticky_pushes(w, e.0, e.1, e.2, t2, 0);
                let a = push_if(w, nx, ny, e.2, t2);
                let c = if b.sticky { sticky_pushes(w, e.0, e.1, e.2, t2, 0) } else { Seq::empty() };
                assert(all_strength(a + c, s1)) by {
                    assert forall|i: int| 0 <= i < (a + c).len() implies (#[trigger] (a + c)[i]).2 == s1 by {
                        if i < a.len() {
                        } else {
                            assert((a + c)[i] == c[i - a.len()]);
                        }
                    }
                }
                lemma_qweight_uniform(a + c, s1);
                assert((a + c).len() <= 5);
                assert(pow6(e.2 as nat) == 6 * pow6(s1 as nat));
                assert((a + c).len() * pow6(s1 as nat) <= 5 * pow6(s1 as nat)) by (nonlinear_arith)
                    requires
                        (a + c).len() <= 5,
                ;
            } else {
                assert(p =~= Seq::<(i128, i128, u32)>::empty());
            },
            None => {
                assert(p =~= Seq::<(i128, i128, u32)>::empty());
            },
        }
        assert(pow6(e.2 as nat) > 0) by {
            lemma_pow6_positive(e.2 as nat);
        }
    }
}

pub(crate) proof fn lemma_pow6_positive(n: nat)
    ensures
        pow6(n) > 0,
    decreases n,
{
    if n > 0 {
        lemma_pow6_positive((n - 1) as nat);
    }
}

proof fn lemma_sticky_zero(w: World, x: i128, y: i128, t: Set<(i128, i128)>, idx: int)
    requires
        0 <= idx <= 4,
    ensures
        sticky_pushes(w, x, y, 0, t, idx) =~= Seq::<(i128, i128, u32)>::empty(),
    decreases 4 - idx,
{
    if idx < 4 {
        lemma_sticky_zero(w, x, y, t, idx + 1);
    }
}

/// Each entry of a search, with strength `s` left, has the margin for `s + 1`
/// more steps.
pub open spec fn queue_margin(q: Seq<(i128, i128, u32)>) -> bool {
    forall|i: int| 0 <= i < q.len() ==> margin_ok((#[trigger] q[i]).0, q[i].1, q[i].2 + 1)
}

fn push_neighbour(
    chunks: &Chunks,
    nx: i128,
    ny: i128,
    s: u32,
    traversed: &PosSet,
    pushed: &mut Vec<(i128, i128, u32)>,
)
    ensures
        final(pushed)@ == old(pushed)@ + push_if(chunks@, nx as int, ny as int, s, traversed@),
{
    if chunks.get_block_ref(nx, ny).is_some() {
        if !traversed.contains((nx, ny)) && s > 0 {
            pushed.push((nx, ny, s - 1));
            return;
        }
    }
    assert(old(pushed)@ + push_if(chunks@, nx as int, ny as int, s, traversed@) =~= old(pushed)@);
}

fn search_pushes(
    chunks: &Chunks,
    x: i128,
    y: i128,
    s: u32,
    orientation: Orientation,
    traversed: &PosSet,
) -> (pushed: Vec<(i128, i128, u32)>)
    requires
        margin_ok(x, y, s + 1),
    ensures
        pushed@ == power_pushes(chunks@, x, y, s, orientation, traversed@),
        forall|i: int|
            0 <= i < pushed@.len() ==> (#[trigger] pushed@[i]).2 + 1 == s && margin_ok(pushed@[i].0, pushed@[i].1, s as int),
{
    let mut pushed: Vec<(i128, i128, u32)> = Vec::new();
    if let Some(b) = chunks.get_block_ref(x, y) {
        if b.movable {
            proof {
                crate::chunks::block::redstone::lemma_within_step(x, y, orientation, s + 1);
            }
            let (nx, ny) = orientation.get_next_coord(x, y);
            push_neighbour(chunks, nx, ny, s, traversed, &mut pushed);
            assert forall|i: int|
                0 <= i < pushed@.len() implies (#[trigger] pushed@[i]).2 + 1 == s && margin_ok(pushed@[i].0, pushed@[i].1, s as int) by {
                assert(pushed@[i] == push_if(chunks@, nx as int, ny as int, s, traversed@)[i]);
            }
            if b.sticky {
                let ghost first = pushed@;
                let mut idx: usize = 0;
                while idx < 4
                    invariant
                        idx <= 4,
                        margin_ok(x, y, s + 1),
                        pushed@ + sticky_pushes(chunks@, x, y, s, traversed@, idx as int)
                            == first + sticky_pushes(chunks@, x, y, s, traversed@, 0),
                        forall|i: int|
                            0 <= i < pushed@.len() ==> (#[trigger] pushed@[i]).2 + 1 == s && margin_ok(pushed@[i].0, pushed@[i].1, s as int),
                    decreases 4 - idx,
                {
                    let adj = Orientation::port_idx_to_orientation(idx);
                    proof {
                        crate::chunks::block::redstone::lemma_within_step(x, y, adj, s + 1);
                    }
                    let (ax, ay) = adj.get_next_coord(x, y);
                    let ghost before = pushed@;
                    push_neighbour(chunks, ax, ay, s, traversed, &mut pushed);
                    proof {
                        assert forall|i: int|
                            0 <= i < pushed@.len() implies (#[trigger] pushed@[i]).2 + 1 == s && margin_ok(pushed@[i].0, pushed@[i].1, s as int) by {
                            if i >= before.len() {
                                assert(pushed@[i] == push_if(chunks@, ax as int, ay as int, s, traversed@)[i - before.len()]);
                            } else {
                                assert(pushed@[i] == before[i]);
                            }
                        }
                        let rest = sticky_pushes(chunks@, x, y, s, traversed@, idx + 1);
                        let here = push_if(chunks@, ax as int, ay as int, s, traversed@);
                        assert(before + (here + rest) =~= (before + here) + rest);
                    }
                    idx = idx + 1;
                }
                assert(pushed@ =~= first + sticky_pushes(chunks@, x, y, s, traversed@, 0));
            } else {
                assert(pushed@ =~= pushed@ + Seq::<(i128, i128, u32)>::empty());
            }
            return pushed;
        }
    }
    assert(pushed@ =~= power_pushes(chunks@, x, y, s, orientation, traversed@));
    pushed
}

/// The blocks that a push from `(x, y)` in direction `orientation` moves; see
/// [`power_set`].
pub fn get_power(chunks: &Chunks, x: i128, y: i128, orientation: Orientation, strength: u32) -> (r: PosSet)
    requires
        margin_ok(x, y, strength + 1),
    ensures
        r@ == power_set(chunks@, x, y, orientation, strength),
        r@.finite(),
        r@.len() <= 12,
{
    let ghost w = chunks@;
    let ghost start = seq![(x, y, strength)];
    let mut queue: Vec<(i128, i128, u32)> = Vec::new();
    queue.push((x, y, strength));
    let mut traversed = PosSet::new();
    assert(queue@ =~= start);
    while queue.len() > 0
        invariant
            w == chunks@,
            power_search(w, queue@, traversed@, orientation) == power_search(w, start, Set::empty(), orientation),
            queue_margin(queue@),
        decreases qweight(queue@),
    {
        let ghost q = queue@;
        let e = queue.remove(0);
        assert(e == q[0]);
        assert(queue@ =~= q.drop_first());
        let (cx, cy, s) = e;
        traversed.insert((cx, cy));
        assert(margin_ok(cx, cy, s + 1));
        let pushed = search_pushes(chunks, cx, cy, s, orientation, &traversed);
        proof {
            lemma_power_step(w, q, traversed@, orientation);
        }
        let ghost q_mid = queue@;
        let mut i: usize = 0;
        while i < pushed.len()
            invariant
                i <= pushed@.len(),
                queue@ == q_mid + pushed@.subrange(0, i as int),
            decreases pushed@.len() - i,
        {
            queue.push(pushed[i]);
            assert(queue@ =~= q_mid + pushed@.subrange(0, i + 1));
            i = i + 1;
        }
        assert(pushed@.subrange(0, pushed@.len() as int) =~= pushed@);
        assert(queue_margin(queue@)) by {
            assert forall|j: int| 0 <= j < queue@.len() implies margin_ok((#[trigger] queue@[j]).0, queue@[j].1, queue@[j].2 + 1) by {
                if j < q_mid.len() {
                    assert(queue@[j] == q[j + 1]);
                } else {
                    assert(queue@[j] == pushed@[j - q_mid.len()]);
                }
            }
        }
    }
    proof {
        traversed.lemma_finite();
    }
    if traversed.len() > 12 {
        let empty = PosSet::new();
        assert(empty@ =~= Set::<(i128, i128)>::empty());
        proof {
            empty.lemma_finite();
        }
        return empty;
    }
    traversed
}


/// `q` lies on the ray that starts at `(x, y)` and goes in direction `o`.
pub open spec fn on_ray(q: (i128, i128), x: i128, y: i128, o: Orientation) -> bool {
    match o {
        Orientation::Up => q.1 == y && q.0 <= x,
        Orientation::Down => q.1 == y && q.0 >= x,
        Orientation::Right => q.0 == x && q.1 >= y,
        Orientation::Left => q.0 == x && q.1 <= y,
    }
}

/// The moved positions on the ray from `(x, y)` in direction `o`.
pub open spec fn ray_count(a: Set<(i128, i128)>, x: i128, y: i128, o: Orientation) -> nat {
    a.filter(|q: (i128, i128)| on_ray(q, x, y, o)).len()
}

/// How much moving may still happen from `(x, y)`: 13 per moved position not
/// yet traversed, plus the moved positions still ahead on the ray. Each
/// recursive move lowers it.
pub open spec fn potential(a: Set<(i128, i128)>, t: Set<(i128, i128)>, x: i128, y: i128, o: Orientation) -> int {
    (13 * a.difference(t).len() + ray_count(a, x, y, o)) as int
}

proof fn lemma_ray_step(a: Set<(i128, i128)>, x: i128, y: i128, o: Orientation)
    requires
        a.finite(),
        a.contains((x, y)),
        o.can_step(x, y),
    ensures
        ray_count(a, o.next_coord(x as int, y as int).0 as i128, o.next_coord(x as int, y as int).1 as i128, o)
            + 1 == ray_count(a, x, y, o),
{
    let (nx, ny) = o.next_coord(x as int, y as int);
    let f1 = |q: (i128, i128)| on_ray(q, x, y, o);
    let f2 = |q: (i128, i128)| on_ray(q, nx as i128, ny as i128, o);
    a.lemma_len_filter(f1);
    a.lemma_len_filter(f2);
    assert(a.filter(f1) =~= a.filter(f2).insert((x, y)));
    assert(!a.filter(f2).contains((x, y)));
}

proof fn lemma_ray_bound(a: Set<(i128, i128)>, x: i128, y: i128, o: Orientation)
    requires
        a.finite(),
    ensures
        ray_count(a, x, y, o) <= a.len(),
{
    a.lemma_len_filter(|q: (i128, i128)| on_ray(q, x, y, o));
}

proof fn lemma_traversed_grows(a: Set<(i128, i128)>, t: Set<(i128, i128)>, t2: Set<(i128, i128)>, p: (i128, i128))
    requires
        a.finite(),
        a.contains(p),
        !t.contains(p),
        t.subset_of(t2),
        t2.contains(p),
    ensures
        a.difference(t2).len() < a.difference(t).len(),
{
    vstd::set_lib::lemma_len_subset(a.difference(t), a);
    assert(a.difference(t2).subset_of(a.difference(t).remove(p)));
    vstd::set_lib::lemma_len_subset(a.difference(t2), a.difference(t).remove(p));
}

/// Moves the block at `(x, y)` one step in direction `o`, moving first what
/// is in front of it. An empty cell moves trivially (`true`); a block that is
/// not movable, not among the moved positions `a` or already traversed stops
/// the move (`false`). After the block in front moved, the block is placed in
/// front and removed where it was (when the placing succeeded), both positions
/// are traversed, and a sticky block drags its other neighbours
/// ([`sticky_spec`]). The chunk of `(x, y)` is created when missing.
pub open spec fn move_spec(
    s: SimState,
    t: Set<(i128, i128)>,
    x: i128,
    y: i128,
    o: Orientation,
    a: Set<(i128, i128)>,
    from: Orientation,
    cat: Map<TextureName, Block>,
) -> (SimState, Set<(i128, i128)>, bool)
    decreases potential(a, t, x, y, o), 6int,
{
    let s1 = SimState { world: with_chunk(s.world, x, y), ..s };
    match block_at(s.world, x, y) {
        None => (s1, t, true),
        Some(blk) => if !blk.movable || !a.contains((x, y)) || t.contains((x, y)) {
            (s1, t, false)
        } else {
            let (nx, ny) = o.next_coord(x as int, y as int);
            if potential(a, t, nx as i128, ny as i128, o) < potential(a, t, x, y, o) {
                let r2 = move_spec(s1, t, nx as i128, ny as i128, o, a, o.opposing(), cat);
                if !r2.2 {
                    (r2.0, r2.1, false)
                } else {
                    let r3 = place_spec(r2.0, blk, blk.orientation, nx as i128, ny as i128, cat);
                    let s4 = if r3.1 {
                        destroy_spec(r3.0, x, y)
                    } else {
                        r3.0
                    };
                    let t3 = r2.1.insert((nx as i128, ny as i128)).insert((x, y));
                    if blk.sticky {
                        let r5 = sticky_spec(s4, t3, x, y, 0, o, a, from, cat, potential(a, t, x, y, o));
                        (r5.0, r5.1, true)
                    } else {
                        (s4, t3, true)
                    }
                }
            } else {
                (s1, t, false)
            }
        },
    }
}

/// A sticky block at `(x, y)` drags, from side `idx` on, each neighbour that is
/// neither in front of it, nor the one it was pushed from, nor traversed.
pub open spec fn sticky_spec(
    s: SimState,
    t: Set<(i128, i128)>,
    x: i128,
    y: i128,
    idx: int,
    o: Orientation,
    a: Set<(i128, i128)>,
    from: Orientation,
    cat: Map<TextureName, Block>,
    bound: int,
) -> (SimState, Set<(i128, i128)>)
    decreases bound, 5 - idx,
{
    if idx < 0 || idx >= 4 {
        (s, t)
    } else {
        let no = orientation_of_idx(idx);
        let (nx, ny) = no.next_coord(x as int, y as int);
        if no != o && no != from && !t.contains((nx as i128, ny as i128)) && potential(
            a,
            t,
            nx as i128,
            ny as i128,
            o,
        ) < bound {
            let r2 = move_spec(s, t, nx as i128, ny as i128, o, a, no.opposing(), cat);
            sticky_spec(r2.0, r2.1, x, y, idx + 1, o, a, from, cat, bound)
        } else {
            sticky_spec(s, t, x, y, idx + 1, o, a, from, cat, bound)
        }
    }
}


/// The move of [`move_spec`] stays within what placing and destroying accept:
/// every block placed in front has its texture in the catalogue and meets
/// [`place_ok`] there, and every block then removed meets [`destroy_ok`].
pub open spec fn move_safe(
    s: SimState,
    t: Set<(i128, i128)>,
    x: i128,
    y: i128,
    o: Orientation,
    a: Set<(i128, i128)>,
    from: Orientation,
    cat: Map<TextureName, Block>,
) -> bool
    decreases potential(a, t, x, y, o), 6int,
{
    let s1 = SimState { world: with_chunk(s.world, x, y), ..s };
    match block_at(s.world, x, y) {
        None => true,
        Some(blk) => if !blk.movable || !a.contains((x, y)) || t.contains((x, y)) {
            true
        } else {
            let (nx, ny) = o.next_coord(x as int, y as int);
            if potential(a, t, nx as i128, ny as i128, o) < potential(a, t, x, y, o) {
                let r2 = move_spec(s1, t, nx as i128, ny as i128, o, a, o.opposing(), cat);
                &&& move_safe(s1, t, nx as i128, ny as i128, o, a, o.opposing(), cat)
                &&& r2.2 ==> {
                    let r3 = place_spec(r2.0, blk, blk.orientation, nx as i128, ny as i128, cat);
                    let s4 = if r3.1 {
                        destroy_spec(r3.0, x, y)
                    } else {
                        r3.0
                    };
                    let t3 = r2.1.insert((nx as i128, ny as i128)).insert((x, y));
                    &&& block_at(r2.0.world, nx as i128, ny as i128) is None ==> cat.contains_key(blk.texture_name)
                        && place_ok(r2.0.world, nx as i128, ny as i128, cat[blk.texture_name])
                    &&& r3.1 ==> destroy_ok(r3.0.world, x, y)
                    &&& blk.sticky ==> sticky_safe(s4, t3, x, y, 0, o, a, from, cat, potential(a, t, x, y, o))
                }
            } else {
                true
            }
        },
    }
}

/// [`move_safe`] for each neighbour that a sticky block drags ([`sticky_spec`]).
pub open spec fn sticky_safe(
    s: SimState,
    t: Set<(i128, i128)>,
    x: i128,
    y: i128,
    idx: int,
    o: Orientation,
    a: Set<(i128, i128)>,
    from: Orientation,
    cat: Map<TextureName, Block>,
    bound: int,
) -> bool
    decreases bound, 5 - idx,
{
    if idx < 0 || idx >= 4 {
        true
    } else {
        let no = orientation_of_idx(idx);
        let (nx, ny) = no.next_coord(x as int, y as int);
        if no != o && no != from && !t.contains((nx as i128, ny as i128)) && potential(
            a,
            t,
            nx as i128,
            ny as i128,
            o,
        ) < bound {
            let r2 = move_spec(s, t, nx as i128, ny as i128, o, a, no.opposing(), cat);
            &&& move_safe(s, t, nx as i128, ny as i128, o, a, no.opposing(), cat)
            &&& sticky_safe(r2.0, r2.1, x, y, idx + 1, o, a, from, cat, bound)
        } else {
            sticky_safe(s, t, x, y, idx + 1, o, a, from, cat, bound)
        }
    }
}

/// Bound on the step counter after moving: moves place and destroy blocks,
/// which restart it.
pub open spec fn after_moves(c: int) -> int {
    if c > 300_000 {
        c
    } else {
        300_000
    }
}

/// Moves the block at `(x, y)` in direction `orientation`; see [`move_spec`].
/// `affected` are the positions that may move (at most 12), `traversed` the
/// positions already moved, `from` the side the move came from. Every block
/// placed and removed on the way must be accepted ([`move_safe`]).
#[verifier::rlimit(40)]
pub fn move_blocks(
    chunks: &mut Chunks,
    x: i128,
    y: i128,
    orientation: Orientation,
    affected: &PosSet,
    listeners: &mut EventListeners,
    propagation_queue: &mut PropagationQueue,
    calculations: &mut u32,
    traversed: &mut PosSet,
    from: Orientation,
    texture_to_block_map: &BlockCatalog,
) -> (moved: bool)
    requires
        move_safe(
            sim_state(*old(chunks), *old(listeners), *old(propagation_queue), *old(calculations)),
            old(traversed)@,
            x,
            y,
            orientation,
            affected@,
            from,
            block_catalog_contents(*texture_to_block_map),
        ),
        affected@.finite(),
        affected@.len() <= 12,
        margin_ok(x, y, reach() + 2 + potential(affected@, old(traversed)@, x, y, orientation)),
        *old(calculations) <= 4_000_000_000,
    ensures
        (sim_state(*final(chunks), *final(listeners), *final(propagation_queue), *final(calculations)), final(traversed)@, moved)
            == move_spec(
            sim_state(*old(chunks), *old(listeners), *old(propagation_queue), *old(calculations)),
            old(traversed)@,
            x,
            y,
            orientation,
            affected@,
            from,
            block_catalog_contents(*texture_to_block_map),
        ),
        old(traversed)@.subset_of(final(traversed)@),
        *final(calculations) <= after_moves(*old(calculations) as int),
    decreases potential(affected@, old(traversed)@, x, y, orientation),
{
    let ghost cat = block_catalog_contents(*texture_to_block_map);
    let ghost a = affected@;
    let ghost t0 = traversed@;
    let ghost p0 = potential(a, t0, x, y, orientation);
    let ghost c0 = *calculations as int;
    let ghost s0 = sim_state(*chunks, *listeners, *propagation_queue, *calculations);
    proof {
        lemma_ray_bound(a, x, y, orientation);
        vstd::set_lib::lemma_len_difference(a, t0);
    }
    let maybe_blk = chunks.get_block(x, y);
    let blk = match maybe_blk {
        Some(b) => if b.movable {
            b
        } else {
            return false;
        },
        None => {
            return true;
        },
    };
    if !affected.contains((x, y)) {
        return false;
    }
    if traversed.contains((x, y)) {
        return false;
    }
    proof {
        lemma_within_step(x, y, orientation, reach() + 2 + p0);
        lemma_ray_step(a, x, y, orientation);
    }
    let (next_x, next_y) = orientation.get_next_coord(x, y);
    let moved = move_blocks(
        chunks,
        next_x,
        next_y,
        orientation,
        affected,
        listeners,
        propagation_queue,
        calculations,
        traversed,
        orientation.get_opposing(),
        texture_to_block_map,
    );
    if moved {
        if place(
            chunks,
            blk,
            blk.orientation,
            next_x,
            next_y,
            listeners,
            propagation_queue,
            calculations,
            texture_to_block_map,
        ) {
            destroy(chunks, x, y, listeners, propagation_queue, calculations);
        }
        traversed.insert((next_x, next_y));
        traversed.insert((x, y));
        if blk.sticky {
            let ghost s4 = sim_state(*chunks, *listeners, *propagation_queue, *calculations);
            let ghost t3 = traversed@;
            proof {
                assert(t0.subset_of(t3));
                assert(p0 <= 168);
            }
            let mut idx: usize = 0;
            while idx < 4
                invariant
                    idx <= 4,
                    cat == block_catalog_contents(*texture_to_block_map),
                    a == affected@,
                    a.finite(),
                    a.len() <= 12,
                    margin_ok(x, y, reach() + 2 + p0),
                    p0 == potential(a, t0, x, y, orientation),
                    0 <= p0 <= 168,
                    t0 == old(traversed)@,
                    a.contains((x, y)),
                    !t0.contains((x, y)),
                    t0.insert((x, y)).subset_of(traversed@),
                    0 <= c0 <= 4_000_000_000,
                    *calculations <= after_moves(c0),
                    sticky_safe(
                        sim_state(*chunks, *listeners, *propagation_queue, *calculations),
                        traversed@,
                        x,
                        y,
                        idx as int,
                        orientation,
                        a,
                        from,
                        cat,
                        p0,
                    ),
                    sticky_spec(s4, t3, x, y, 0, orientation, a, from, cat, p0) == sticky_spec(
                        sim_state(*chunks, *listeners, *propagation_queue, *calculations),
                        traversed@,
                        x,
                        y,
                        idx as int,
                        orientation,
                        a,
                        from,
                        cat,
                        p0,
                    ),
                decreases 4 - idx,
            {
                let neighbor_orientation = Orientation::port_idx_to_orientation(idx);
                proof {
                    lemma_within_step(x, y, neighbor_orientation, reach() + 2 + p0);
                }
                let (nx2, ny2) = neighbor_orientation.get_next_coord(x, y);
                if neighbor_orientation != orientation && neighbor_orientation != from && !traversed.contains(
                    (nx2, ny2),
                ) {
                    proof {
                        lemma_traversed_grows(a, t0, traversed@, (x, y));
                        lemma_ray_bound(a, nx2, ny2, orientation);
                        lemma_ray_bound(a, x, y, orientation);
                        vstd::set_lib::lemma_len_difference(a, traversed@);
                        assert(potential(a, traversed@, nx2, ny2, orientation) < p0);
                    }
                    move_blocks(
                        chunks,
                        nx2,
                        ny2,
                        orientation,
                        affected,
                        listeners,
                        propagation_queue,
                        calculations,
                        traversed,
                        neighbor_orientation.get_opposing(),
                        texture_to_block_map,
                    );
                }
                idx = idx + 1;
            }
        }
    }
    moved
}


/// The head that an extended piston puts in front of itself.
pub open spec fn piston_head_block(sticky: bool) -> Block {
    Block {
        movable: false,
        sticky: false,
        orientation: Orientation::Up,
        texture_name: if sticky {
            TextureName::StickyPistonHead
        } else {
            TextureName::PistonHead
        },
        symmetric: false,
        redstone: None,
        mechanism: None,
    }
}

pub fn piston_head() -> (b: Block)
    ensures
        b == piston_head_block(false),
{
    Block {
        movable: false,
        sticky: false,
        orientation: Orientation::Up,
        texture_name: TextureName::PistonHead,
        symmetric: false,
        redstone: None,
        mechanism: None,
    }
}

pub fn sticky_piston_head() -> (b: Block)
    ensures
        b == piston_head_block(true),
{
    Block {
        movable: false,
        sticky: false,
        orientation: Orientation::Up,
        texture_name: TextureName::StickyPistonHead,
        symmetric: false,
        redstone: None,
        mechanism: None,
    }
}

/// Whether the piston at `(x, y)` is extended (`None` when there is no piston).
pub open spec fn extended_at(w: World, x: i128, y: i128) -> Option<bool> {
    match block_at(w, x, y) {
        Some(b) => match b.mechanism {
            Some(MechanismKind::Piston { extended, .. }) => Some(extended),
            _ => None,
        },
        None => None,
    }
}

/// `w` with the piston at `(x, y)` set to extended `v` (the chunk created
/// when missing; nothing else changes when there is no piston).
pub open spec fn with_extended(w: World, x: i128, y: i128, v: bool) -> World {
    let w1 = with_chunk(w, x, y);
    match block_at(w, x, y) {
        Some(b) => match b.mechanism {
            Some(MechanismKind::Piston { extended, sticky }) => set_block_at(
                w1,
                x,
                y,
                Some(Block { mechanism: Some(MechanismKind::Piston { extended: v, sticky }), ..b }),
            ),
            _ => w1,
        },
        None => w1,
    }
}

/// `w` with the block at `(x, y)` made movable or not (the chunk created
/// when missing).
pub open spec fn with_movable(w: World, x: i128, y: i128, v: bool) -> World {
    let w1 = with_chunk(w, x, y);
    match block_at(w, x, y) {
        Some(b) => set_block_at(w1, x, y, Some(Block { movable: v, ..b })),
        None => w1,
    }
}

/// Whether the piston at `(x, y)` is extended; the chunk is created when missing.
pub fn get_extended(chunks: &mut Chunks, x: i128, y: i128) -> (r: Option<bool>)
    ensures
        final(chunks)@ == with_chunk(old(chunks)@, x, y),
        r == extended_at(old(chunks)@, x, y),
{
    let blk = chunks.get_block(x, y);
    if let Some(Block { mechanism: Some(MechanismKind::Piston { extended, .. }), .. }) = blk {
        Some(extended)
    } else {
        None
    }
}

/// Sets whether the piston at `(x, y)` is extended.
pub fn set_extended(chunks: &mut Chunks, x: i128, y: i128, v: bool)
    ensures
        final(chunks)@ == with_extended(old(chunks)@, x, y, v),
{
    let blk = chunks.get_block(x, y);
    if let Some(b) = blk {
        if let Some(MechanismKind::Piston { sticky, .. }) = b.mechanism {
            chunks.set_block(x, y, Some(Block { mechanism: Some(MechanismKind::Piston { extended: v, sticky }), ..b }));
        }
    }
}

/// Whether the block at `(x, y)` is movable; the chunk is created when missing.
pub fn get_movable(chunks: &mut Chunks, x: i128, y: i128) -> (r: Option<bool>)
    ensures
        final(chunks)@ == with_chunk(old(chunks)@, x, y),
        r == (match block_at(old(chunks)@, x, y) {
            Some(b) => Some(b.movable),
            None => None,
        }),
{
    let blk = chunks.get_block(x, y);
    if let Some(Block { movable, .. }) = blk {
        Some(movable)
    } else {
        None
    }
}

/// Sets whether the block at `(x, y)` is movable.
pub fn set_movable(chunks: &mut Chunks, x: i128, y: i128, v: bool)
    ensures
        final(chunks)@ == with_movable(old(chunks)@, x, y, v),
{
    let blk = chunks.get_block(x, y);
    if let Some(b) = blk {
        chunks.set_block(x, y, Some(Block { movable: v, ..b }));
    }
}

/// The countdown of a repeater after it is switched `on` or off: a repeater
/// at rest (negative countdown) whose output disagrees with its input starts
/// counting from `tick`; a positive countdown counts down; a countdown at 0
/// fires and rests at -1.
pub open spec fn repeater_countdown(countdown: i8, tick: i8, on: bool, signal: u8) -> (int, int) {
    let c1 = if countdown < 0 && ((on && signal == 0) || (!on && signal > 0)) {
        tick as int
    } else {
        countdown as int
    };
    (c1, if c1 > 0 { c1 - 1 } else if c1 == 0 { -1 } else { c1 })
}

/// A torch goes off when switched on while lit and lights when switched off
/// while dark.
pub open spec fn torch_spec(s: SimState, x: i128, y: i128, on: bool, r: Redstone) -> SimState {
    if on && r.signal > 0 {
        propagate(s, x, y, None, 0, 17, None)
    } else if !on && r.signal == 0 {
        propagate(s, x, y, None, 16, 16, None)
    } else {
        s
    }
}

/// A retracted piston at `(x, y)` extends: the blocks in front move
/// ([`move_spec`] on [`power_set`]), then the piston is extended and its head
/// placed; if nothing could move it is movable again and asks to be switched
/// on again.
pub open spec fn extend_spec(s2: SimState, x: i128, y: i128, o: Orientation, head: Block, cat: Map<TextureName, Block>) -> SimState {
    let (nx, ny) = o.next_coord(x as int, y as int);
    let a = power_set(s2.world, nx as i128, ny as i128, o, 12);
    let r3 = move_spec(s2, Set::empty(), nx as i128, ny as i128, o, a, o.opposing(), cat);
    let s3 = r3.0;
    if r3.2 {
        let s4 = SimState { world: with_extended(s3.world, x, y, true), ..s3 };
        let s5 = place_spec(s4, head, o, nx as i128, ny as i128, cat).0;
        SimState { events: events_update_entity(s5.events, x, y), ..s5 }
    } else {
        let s4 = SimState { world: with_movable(s3.world, x, y, true), ..s3 };
        SimState { events: events_turn_on(s4.events, x, y, false), ..s4 }
    }
}

/// An extended piston at `(x, y)` retracts: it is marked retracted, its head
/// is removed and a sticky piston pulls back the block after the head; it is
/// then movable again.
pub open spec fn retract_spec(
    s2: SimState,
    blk: Block,
    x: i128,
    y: i128,
    sticky: bool,
    head: Block,
    cat: Map<TextureName, Block>,
) -> SimState {
    let o = blk.orientation;
    let (nx, ny) = o.next_coord(x as int, y as int);
    let s3 = SimState {
        world: set_block_at(
            s2.world,
            x,
            y,
            Some(Block { movable: false, mechanism: Some(MechanismKind::Piston { extended: false, sticky }), ..blk }),
        ),
        events: events_update_entity(s2.events, x, y),
        ..s2
    };
    let s3w = SimState { world: with_chunk(s3.world, nx as i128, ny as i128), ..s3 };
    let s4 = match block_at(s3.world, nx as i128, ny as i128) {
        Some(nb) => if nb.texture_name == head.texture_name {
            destroy_spec(s3w, nx as i128, ny as i128)
        } else {
            s3w
        },
        None => s3w,
    };
    let s5 = if sticky {
        let (nnx, nny) = o.next_coord(nx, ny);
        let pull = o.opposing();
        let a = power_set(s4.world, nnx as i128, nny as i128, pull, 12);
        move_spec(s4, Set::empty(), nnx as i128, nny as i128, pull, a, pull, cat).0
    } else {
        s4
    };
    SimState { world: with_movable(s5.world, x, y, true), ..s5 }
}

/// Extending as in [`extend_spec`] stays within what moving and placing
/// accept: the push is [`move_safe`] and, after it, the head can be placed in
/// front when that cell is empty.
pub open spec fn extend_safe(s2: SimState, x: i128, y: i128, o: Orientation, head: Block, cat: Map<TextureName, Block>) -> bool {
    let (nx, ny) = o.next_coord(x as int, y as int);
    let a = power_set(s2.world, nx as i128, ny as i128, o, 12);
    let r3 = move_spec(s2, Set::empty(), nx as i128, ny as i128, o, a, o.opposing(), cat);
    &&& move_safe(s2, Set::empty(), nx as i128, ny as i128, o, a, o.opposing(), cat)
    &&& r3.2 ==> {
        let w4 = with_extended(r3.0.world, x, y, true);
        block_at(w4, nx as i128, ny as i128) is None ==> cat.contains_key(head.texture_name) && place_ok(
            w4,
            nx as i128,
            ny as i128,
            cat[head.texture_name],
        )
    }
}

/// Retracting as in [`retract_spec`] stays within what destroying and moving
/// accept: the head can be destroyed and a sticky pull is [`move_safe`].
pub open spec fn retract_safe(
    s2: SimState,
    blk: Block,
    x: i128,
    y: i128,
    sticky: bool,
    head: Block,
    cat: Map<TextureName, Block>,
) -> bool {
    let o = blk.orientation;
    let (nx, ny) = o.next_coord(x as int, y as int);
    let s3 = SimState {
        world: set_block_at(
            s2.world,
            x,
            y,
            Some(Block { movable: false, mechanism: Some(MechanismKind::Piston { extended: false, sticky }), ..blk }),
        ),
        events: events_update_entity(s2.events, x, y),
        ..s2
    };
    let s3w = SimState { world: with_chunk(s3.world, nx as i128, ny as i128), ..s3 };
    let head_here = match block_at(s3.world, nx as i128, ny as i128) {
        Some(nb) => nb.texture_name == head.texture_name,
        None => false,
    };
    let s4 = if head_here {
        destroy_spec(s3w, nx as i128, ny as i128)
    } else {
        s3w
    };
    &&& head_here ==> destroy_ok(s3w.world, nx as i128, ny as i128)
    &&& sticky ==> {
        let (nnx, nny) = o.next_coord(nx, ny);
        let pull = o.opposing();
        let a = power_set(s4.world, nnx as i128, nny as i128, pull, 12);
        move_safe(s4, Set::empty(), nnx as i128, nny as i128, pull, a, pull, cat)
    }
}

/// Switching the piston `blk` at `(x, y)` as in [`piston_spec`] stays within
/// what moving, placing and destroying accept.
pub open spec fn piston_safe(
    s1: SimState,
    blk: Block,
    x: i128,
    y: i128,
    on: bool,
    extended: bool,
    sticky: bool,
    cat: Map<TextureName, Block>,
) -> bool {
    let head = piston_head_block(sticky);
    let s2 = SimState { world: set_block_at(s1.world, x, y, Some(Block { movable: false, ..blk })), ..s1 };
    if !extended && on {
        extend_safe(s2, x, y, blk.orientation, head, cat)
    } else if extended && !on {
        retract_safe(s2, blk, x, y, sticky, head, cat)
    } else {
        true
    }
}

/// Switching the mechanism at `(x, y)` as in [`execute_spec`] stays within
/// what moving, placing and destroying accept: only a piston moves, places or
/// destroys blocks ([`piston_safe`]).
pub open spec fn execute_safe(s: SimState, x: i128, y: i128, on: bool, cat: Map<TextureName, Block>) -> bool {
    let s1 = SimState { world: with_chunk(s.world, x, y), ..s };
    match block_at(s.world, x, y) {
        Some(blk) => match blk.mechanism {
            Some(MechanismKind::Piston { extended, sticky }) => piston_safe(s1, blk, x, y, on, extended, sticky, cat),
            _ => true,
        },
        None => true,
    }
}

/// A piston is made unmovable while it works; switched on while retracted it
/// extends ([`extend_spec`]), switched off while extended it retracts
/// ([`retract_spec`]); otherwise it stays unmovable.
pub open spec fn piston_spec(
    s1: SimState,
    blk: Block,
    x: i128,
    y: i128,
    on: bool,
    extended: bool,
    sticky: bool,
    cat: Map<TextureName, Block>,
) -> SimState {
    let head = piston_head_block(sticky);
    let s2 = SimState { world: set_block_at(s1.world, x, y, Some(Block { movable: false, ..blk })), ..s1 };
    if !extended && on {
        extend_spec(s2, x, y, blk.orientation, head, cat)
    } else if extended && !on {
        retract_spec(s2, blk, x, y, sticky, head, cat)
    } else {
        s2
    }
}

/// A repeater takes the countdown of [`repeater_countdown`]; while counting it
/// asks to be switched again next tick, and when the countdown fires it lights
/// (switched on while dark) or goes dark (switched off while lit).
pub open spec fn repeater_spec(
    s1: SimState,
    blk: Block,
    x: i128,
    y: i128,
    on: bool,
    countdown: i8,
    tick: i8,
    r: Redstone,
) -> SimState {
    let (c1, cf) = repeater_countdown(countdown, tick, on, r.signal);
    let s2 = SimState {
        world: set_block_at(
            s1.world,
            x,
            y,
            Some(Block { mechanism: Some(MechanismKind::Repeater { countdown: cf as i8, tick }), ..blk }),
        ),
        ..s1
    };
    if c1 > 0 {
        SimState {
            events: if on {
                events_turn_on(s2.events, x, y, true)
            } else {
                events_turn_off(s2.events, x, y, true)
            },
            ..s2
        }
    } else if c1 == 0 {
        if r.signal == 0 && on {
            propagate(s2, x, y, None, 16, 16, None)
        } else if r.signal > 0 && !on {
            propagate(s2, x, y, None, 0, 17, None)
        } else {
            s2
        }
    } else {
        s2
    }
}

/// An observer switched on emits a signal and asks to be switched off; switched
/// off it takes the signal back.
pub open spec fn observer_spec(s1: SimState, x: i128, y: i128, on: bool) -> SimState {
    if on {
        let s2 = propagate(s1, x, y, None, 16, 16, None);
        SimState { events: events_turn_off(s2.events, x, y, false), ..s2 }
    } else {
        propagate(s1, x, y, None, 0, 17, None)
    }
}

/// What switching the mechanism at `(x, y)` on or off does (the chunk is
/// created when missing): see [`torch_spec`], [`piston_spec`],
/// [`repeater_spec`] and [`observer_spec`]. Other mechanisms, and torches and
/// repeaters without redstone, do nothing.
pub open spec fn execute_spec(s: SimState, x: i128, y: i128, on: bool, cat: Map<TextureName, Block>) -> SimState {
    let s1 = SimState { world: with_chunk(s.world, x, y), ..s };
    match block_at(s.world, x, y) {
        None => s1,
        Some(blk) => match blk.mechanism {
            None => s1,
            Some(mk) => match mk {
                MechanismKind::RedstoneTorch => match blk.redstone {
                    None => s1,
                    Some(r) => torch_spec(s1, x, y, on, r),
                },
                MechanismKind::Piston { extended, sticky } => piston_spec(s1, blk, x, y, on, extended, sticky, cat),
                MechanismKind::Repeater { countdown, tick } => match blk.redstone {
                    None => s1,
                    Some(r) => repeater_spec(s1, blk, x, y, on, countdown, tick, r),
                },
                MechanismKind::Observer => observer_spec(s1, x, y, on),
                _ => s1,
            },
        },
    }
}

fn extend_piston(
    chunks: &mut Chunks,
    x: i128,
    y: i128,
    orientation: Orientation,
    head: Block,
    listeners: &mut EventListeners,
    propagation_queue: &mut PropagationQueue,
    calculations: &mut u32,
    texture_to_block_map: &BlockCatalog,
)
    requires
        extend_safe(sim_state(*old(chunks), *old(listeners), *old(propagation_queue), *old(calculations)), x, y, orientation, head, block_catalog_contents(*texture_to_block_map)),
        margin_ok(x, y, piston_reach()),
        *old(calculations) <= 4_000_000_000,
    ensures
        sim_state(*final(chunks), *final(listeners), *final(propagation_queue), *final(calculations))
            == extend_spec(
            sim_state(*old(chunks), *old(listeners), *old(propagation_queue), *old(calculations)),
            x,
            y,
            orientation,
            head,
            block_catalog_contents(*texture_to_block_map),
        ),
        *final(calculations) <= after_moves(*old(calculations) as int),
{
    let mut traversed = PosSet::new();
    proof {
        lemma_within_step(x, y, orientation, piston_reach());
    }
    let (next_x, next_y) = orientation.get_next_coord(x, y);
    let affected_blocks = get_power(chunks, next_x, next_y, orientation, 12);
    proof {
        lemma_ray_bound(affected_blocks@, next_x, next_y, orientation);
        vstd::set_lib::lemma_len_difference(affected_blocks@, traversed@);
    }
    let moved = move_blocks(
        chunks,
        next_x,
        next_y,
        orientation,
        &affected_blocks,
        listeners,
        propagation_queue,
        calculations,
        &mut traversed,
        orientation.get_opposing(),
        texture_to_block_map,
    );
    if moved {
        set_extended(chunks, x, y, true);
        place(
            chunks,
            head,
            orientation,
            next_x,
            next_y,
            listeners,
            propagation_queue,
            calculations,
            texture_to_block_map,
        );
        listeners.update_entity(x, y);
    } else {
        set_movable(chunks, x, y, true);
        listeners.turn_mechanism_on(x, y, false);
    }
}

fn retract_piston(
    chunks: &mut Chunks,
    blk: Block,
    x: i128,
    y: i128,
    sticky: bool,
    head: Block,
    listeners: &mut EventListeners,
    propagation_queue: &mut PropagationQueue,
    calculations: &mut u32,
    texture_to_block_map: &BlockCatalog,
)
    requires
        retract_safe(sim_state(*old(chunks), *old(listeners), *old(propagation_queue), *old(calculations)), blk, x, y, sticky, head, block_catalog_contents(*texture_to_block_map)),
        margin_ok(x, y, piston_reach()),
        *old(calculations) <= 4_000_000_000,
    ensures
        sim_state(*final(chunks), *final(listeners), *final(propagation_queue), *final(calculations))
            == retract_spec(
            sim_state(*old(chunks), *old(listeners), *old(propagation_queue), *old(calculations)),
            blk,
            x,
            y,
            sticky,
            head,
            block_catalog_contents(*texture_to_block_map),
        ),
        *final(calculations) <= after_moves(*old(calculations) as int),
{
    let orientation = blk.orientation;
    let mut traversed = PosSet::new();
    proof {
        lemma_within_step(x, y, orientation, piston_reach());
    }
    let (next_x, next_y) = orientation.get_next_coord(x, y);
    chunks.set_block(
        x,
        y,
        Some(Block { movable: false, mechanism: Some(MechanismKind::Piston { extended: false, sticky }), ..blk }),
    );
    listeners.update_entity(x, y);
    let next_block = chunks.get_block(next_x, next_y);
    if let Some(nb) = next_block {
        if nb.texture_name == head.texture_name {
            destroy(chunks, next_x, next_y, listeners, propagation_queue, calculations);
        }
    }
    if sticky {
        proof {
            lemma_within_step(next_x, next_y, orientation, piston_reach() - 1);
        }
        let (next_next_x, next_next_y) = orientation.get_next_coord(next_x, next_y);
        let pull_dir = orientation.get_opposing();
        let affected_blocks = get_power(chunks, next_next_x, next_next_y, pull_dir, 12);
        proof {
            lemma_ray_bound(affected_blocks@, next_next_x, next_next_y, pull_dir);
            vstd::set_lib::lemma_len_difference(affected_blocks@, traversed@);
        }
        move_blocks(
            chunks,
            next_next_x,
            next_next_y,
            pull_dir,
            &affected_blocks,
            listeners,
            propagation_queue,
            calculations,
            &mut traversed,
            pull_dir,
            texture_to_block_map,
        );
    }
    set_movable(chunks, x, y, true);
}

fn execute_piston(
    chunks: &mut Chunks,
    blk: Block,
    x: i128,
    y: i128,
    on: bool,
    extended: bool,
    sticky: bool,
    listeners: &mut EventListeners,
    propagation_queue: &mut PropagationQueue,
    calculations: &mut u32,
    texture_to_block_map: &BlockCatalog,
)
    requires
        piston_safe(sim_state(*old(chunks), *old(listeners), *old(propagation_queue), *old(calculations)), blk, x, y, on, extended, sticky, block_catalog_contents(*texture_to_block_map)),
        margin_ok(x, y, piston_reach()),
        *old(calculations) <= 4_000_000_000,
    ensures
        sim_state(*final(chunks), *final(listeners), *final(propagation_queue), *final(calculations))
            == piston_spec(
            sim_state(*old(chunks), *old(listeners), *old(propagation_queue), *old(calculations)),
            blk,
            x,
            y,
            on,
            extended,
            sticky,
            block_catalog_contents(*texture_to_block_map),
        ),
        *final(calculations) <= after_moves(*old(calculations) as int),
{
    let head = if sticky {
        sticky_piston_head()
    } else {
        piston_head()
    };
    chunks.set_block(x, y, Some(Block { movable: false, ..blk }));
    if !extended && on {
        extend_piston(chunks, x, y, blk.orientation, head, listeners, propagation_queue, calculations, texture_to_block_map);
    } else if extended && !on {
        retract_piston(chunks, blk, x, y, sticky, head, listeners, propagation_queue, calculations, texture_to_block_map);
    }
}

fn execute_repeater(
    chunks: &mut Chunks,
    blk: Block,
    x: i128,
    y: i128,
    on: bool,
    countdown: i8,
    tick: i8,
    signal: u8,
    listeners: &mut EventListeners,
    propagation_queue: &mut PropagationQueue,
    calculations: &mut u32,
)
    requires
        blk.redstone is Some,
        signal == blk.redstone->0.signal,
        margin_ok(x, y, reach()),
        *old(calculations) <= 4_000_000_000,
    ensures
        sim_state(*final(chunks), *final(listeners), *final(propagation_queue), *final(calculations))
            == repeater_spec(
            sim_state(*old(chunks), *old(listeners), *old(propagation_queue), *old(calculations)),
            blk,
            x,
            y,
            on,
            countdown,
            tick,
            blk.redstone->0,
        ),
        *final(calculations) <= after_moves(*old(calculations) as int) + 1,
{
    proof {
        lemma_in_play_coords(x, y, Orientation::Up, *calculations as int);
        lemma_calc_bound(*calculations as int);
    }
    let mut countdown = countdown;
    if countdown < 0 {
        if (on && signal == 0) || (!on && signal > 0) {
            countdown = tick;
        }
    }
    let fire = countdown == 0;
    let counting = countdown > 0;
    if countdown > 0 {
        countdown = countdown - 1;
    } else if countdown == 0 {
        countdown = -1;
    }
    chunks.set_block(x, y, Some(Block { mechanism: Some(MechanismKind::Repeater { countdown, tick }), ..blk }));
    if counting {
        if on {
            listeners.turn_mechanism_on(x, y, true);
        } else {
            listeners.turn_mechanism_off(x, y, true);
        }
    } else if fire {
        if signal == 0 && on {
            propagate_signal_at(chunks, x, y, None, 16, 16, None, listeners, propagation_queue, calculations);
        } else if signal > 0 && !on {
            propagate_signal_at(chunks, x, y, None, 0, 17, None, listeners, propagation_queue, calculations);
        }
    }
}

/// The margin a piston needs: it moves up to 12 blocks, each at most
/// 14 steps away, and then places or destroys blocks next to them.
pub open spec fn piston_reach() -> int {
    reach() + 172
}

/// The block at `(x, y)` is a piston.
pub open spec fn piston_at(w: World, x: i128, y: i128) -> bool {
    block_at(w, x, y) matches Some(b) && b.mechanism matches Some(MechanismKind::Piston { .. })
}

/// Switches the mechanism at `(x, y)` on or off; see [`execute_spec`]. A
/// piston must only place and remove blocks that are accepted
/// ([`execute_safe`]).
pub fn execute_mechanism(
    chunks: &mut Chunks,
    x: i128,
    y: i128,
    on: bool,
    listeners: &mut EventListeners,
    propagation_queue: &mut PropagationQueue,
    calculations: &mut u32,
    texture_to_block_map: &BlockCatalog,
)
    requires
        margin_ok(x, y, reach()),
        *old(calculations) <= 4_000_000_000,
        piston_at(old(chunks)@, x, y) ==> margin_ok(x, y, piston_reach()),
        execute_safe(sim_state(*old(chunks), *old(listeners), *old(propagation_queue), *old(calculations)), x, y, on, block_catalog_contents(*texture_to_block_map)),
    ensures
        sim_state(*final(chunks), *final(listeners), *final(propagation_queue), *final(calculations))
            == execute_spec(
            sim_state(*old(chunks), *old(listeners), *old(propagation_queue), *old(calculations)),
            x,
            y,
            on,
            block_catalog_contents(*texture_to_block_map),
        ),
        *final(calculations) <= after_moves(*old(calculations) as int) + 1,
        keeps_ok(old(chunks)@, final(chunks)@),
{
    let ghost w0 = chunks@;
    proof {
        let cat = block_catalog_contents(*texture_to_block_map);
        lemma_execute_keeps_ok(sim_state(*chunks, *listeners, *propagation_queue, *calculations), x, y, on, cat);
    }
    let maybe_blk = chunks.get_block(x, y);
    let blk = if let Some(blk) = maybe_blk {
        blk
    } else {
        return;
    };
    let mechanism_kind = if let Some(mechanism_kind) = blk.mechanism {
        mechanism_kind
    } else {
        return;
    };
    let redstone = blk.redstone;
    proof {
        lemma_in_play_coords(x, y, Orientation::Up, *calculations as int);
        lemma_calc_bound(*calculations as int);
    }
    match mechanism_kind {
        MechanismKind::RedstoneTorch => {
            let signal = if let Some(Redstone { signal, .. }) = redstone {
                signal
            } else {
                return;
            };
            if on && signal > 0 {
                propagate_signal_at(chunks, x, y, None, 0, 17, None, listeners, propagation_queue, calculations)
            } else if !on && signal == 0 {
                propagate_signal_at(chunks, x, y, None, 16, 16, None, listeners, propagation_queue, calculations)
            }
        },
        MechanismKind::Piston { extended, sticky } => {
            execute_piston(
                chunks,
                blk,
                x,
                y,
                on,
                extended,
                sticky,
                listeners,
                propagation_queue,
                calculations,
                texture_to_block_map,
            );
        },
        MechanismKind::Repeater { countdown, tick } => {
            let signal = if let Some(Redstone { signal, .. }) = redstone {
                signal
            } else {
                return;
            };
            execute_repeater(chunks, blk, x, y, on, countdown, tick, signal, listeners, propagation_queue, calculations);
        },
        MechanismKind::Observer => {
            if on {
                propagate_signal_at(chunks, x, y, None, 16, 16, None, listeners, propagation_queue, calculations);
                listeners.turn_mechanism_off(x, y, false);
            } else {
                propagate_signal_at(chunks, x, y, None, 0, 17, None, listeners, propagation_queue, calculations);
            }
        },
        _ => {},
    }
}

} // verus!
