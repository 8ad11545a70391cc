use vstd::prelude::*;
use crate::chunks::block::SignalType;
use crate::grid::{Block, BlockKind, GridMap, GridState, TextureName, grid_set, in_grid};
use crate::grid::redstone::{
    Redstone, RedstoneKind, ev_entity, next_cells, power_list, power_local, power_measure, set_power_spec,
    set_power_to_0_spec, zero_local, repeater_step, out_signal, prev_signal_of, torch_fold,
};
use crate::grid::{GridEvents, Mechanism};
use crate::grid::redstone::zero_list;
use crate::grid::Ports;
use crate::grid::cell_map::{cm_get, cm_insert, unique_keys, lemma_cell_map_read_after_write};

verus! {

/// The cell holds a mechanism.
pub open spec fn is_mechanism(c: Option<Block>) -> bool {
    c matches Some(b) && b.kind is Mechanism
}

/// Every cell of the grid that holds no mechanism in `m1` is the same in `m2`.
pub open spec fn keeps_non_mechanisms(m1: GridMap, m2: GridMap) -> bool {
    forall|a: int, c: int| 0 <= a < 16 && 0 <= c < 16 && !is_mechanism(m1[a][c]) ==> #[trigger] m2[a][c] == m1[a][c]
}

proof fn lemma_keeps_non_mechanisms_trans(m1: GridMap, m2: GridMap, m3: GridMap)
    requires
        keeps_non_mechanisms(m1, m2),
        keeps_non_mechanisms(m2, m3),
    ensures
        keeps_non_mechanisms(m1, m3),
{
    assert forall|a: int, c: int| 0 <= a < 16 && 0 <= c < 16 && !is_mechanism(m1[a][c]) implies #[trigger] m3[a][c] == m1[a][c] by {
        assert(m2[a][c] == m1[a][c]);
        assert(m3[a][c] == m2[a][c]);
    }
}

proof fn lemma_set_keeps_non_mechanisms(m: GridMap, x: int, y: int, cell: Option<Block>)
    requires
        0 <= x < 16,
        0 <= y < 16,
        cell == m[x][y] || is_mechanism(m[x][y]),
    ensures
        keeps_non_mechanisms(m, grid_set(m, x, y, cell)),
{
    let m2 = grid_set(m, x, y, cell);
    assert forall|a: int, c: int| 0 <= a < 16 && 0 <= c < 16 && !is_mechanism(m[a][c]) implies #[trigger] m2[a][c] == m[a][c] by {
        if a == x && c == y {
        } else if a == x {
            assert(m2[a][c] == m[a][c]);
        } else {
            assert(m2[a] == m[a]);
        }
    }
}

/// A carried weak signal changes no cell but mechanisms, and goes no further.
proof fn lemma_carried_weak_power(s: GridState, x: usize, y: usize, input: u8)
    ensures
        keeps_non_mechanisms(s.map, set_power_spec(s, x, y, input, Some(SignalType::Weak(false))).map),
{
    let st = Some(SignalType::Weak(false));
    assert(keeps_non_mechanisms(s.map, s.map));
    if in_grid(x as int, y as int) {
        let l = power_local(s, x, y, input, st);
        assert(l.1 is None);
        match s.map[x as int][y as int] {
            Some(b) => match b.kind {
                BlockKind::Redstone(r) => {
                    lemma_set_keeps_non_mechanisms(s.map, x as int, y as int, Some(Block { kind: BlockKind::Redstone(r), texture_name: b.texture_name, ..b }));
                },
                BlockKind::Opaque { .. } => {},
                BlockKind::Mechanism(m) => {
                    if input > m.signal {
                        lemma_set_keeps_non_mechanisms(s.map, x as int, y as int, l.0.map[x as int][y as int]);
                    }
                },
            },
            None => {},
        }
    }
}

proof fn lemma_carried_weak_list(s: GridState, cells: Seq<(usize, usize)>, i: int, sig: u8, bound: int)
    ensures
        keeps_non_mechanisms(s.map, power_list(s, cells, i, sig, Some(SignalType::Weak(false)), bound).map),
    decreases cells.len() - i,
{
    let st = Some(SignalType::Weak(false));
    if i < 0 || i >= cells.len() {
        assert(keeps_non_mechanisms(s.map, s.map));
    } else {
        let s2 = if sig > 1 && power_measure((sig - 1) as u8) < bound {
            lemma_carried_weak_power(s, cells[i].0, cells[i].1, (sig - 1) as u8);
            set_power_spec(s, cells[i].0, cells[i].1, (sig - 1) as u8, st)
        } else {
            assert(keeps_non_mechanisms(s.map, s.map));
            s
        };
        lemma_carried_weak_list(s2, cells, i + 1, sig, bound);
        lemma_keeps_non_mechanisms_trans(s.map, s2.map, power_list(s2, cells, i + 1, sig, st, bound).map);
    }
}

/// A weak signal reaching an opaque block raises the block's weak signal to
/// it (when higher) and is passed on only as a carried weak signal, which
/// neither redstone nor another opaque block takes: every other cell that
/// holds no mechanism keeps what it held.
pub proof fn lemma_weak_power_through_opaque(s: GridState, x: usize, y: usize, input: u8, b: Block, strong: u8, weak: u8)
    requires
        in_grid(x as int, y as int),
        s.map[x as int][y as int] == Some(b),
        b.kind == (BlockKind::Opaque { strong_signal: strong, weak_signal: weak }),
    ensures
        set_power_spec(s, x, y, input, Some(SignalType::Weak(true))).map[x as int][y as int] == Some(
            Block {
                kind: BlockKind::Opaque {
                    strong_signal: strong,
                    weak_signal: if input >= weak {
                        input
                    } else {
                        weak
                    },
                },
                ..b
            },
        ),
        forall|a: int, c: int|
            0 <= a < 16 && 0 <= c < 16 && (a, c) != (x as int, y as int) && !is_mechanism(s.map[a][c])
                ==> #[trigger] set_power_spec(s, x, y, input, Some(SignalType::Weak(true))).map[a][c] == s.map[a][c],
{
    let st = Some(SignalType::Weak(true));
    let nb = Block { kind: BlockKind::Opaque { strong_signal: strong, weak_signal: if input >= weak { input } else { weak } }, ..b };
    let l = power_local(s, x, y, input, st);
    assert(l.0.map == grid_set(s.map, x as int, y as int, Some(nb)));
    let s2 = GridState { events: ev_entity(l.0.events, (x, y), false), ..l.0 };
    let cells = next_cells(s2.map, x, y, [true, true, true, true]);
    lemma_carried_weak_list(s2, cells, 0, input, power_measure(input));
    let fin = set_power_spec(s, x, y, input, st);
    assert(fin == power_list(s2, cells, 0, input, Some(SignalType::Weak(false)), power_measure(input)));
    assert(s2.map[x as int][y as int] == Some(nb));
    assert forall|a: int, c: int|
        0 <= a < 16 && 0 <= c < 16 && (a, c) != (x as int, y as int) && !is_mechanism(s.map[a][c]) implies #[trigger] fin.map[a][c] == s.map[a][c] by {
        if a == x as int {
            assert(s2.map[a][c] == s.map[a][c]);
        } else {
            assert(s2.map[a] == s.map[a]);
        }
        assert(fin.map[a][c] == s2.map[a][c]);
    }
}

/// When the signal feeding a torch goes away from a previous strength below
/// 20 (and the torch is dark, or at least as strong as that signal), the torch
/// keeps its cell for now and is scheduled to light on the next delayed tick:
/// its cell's delayed update reads `(true, 0, None)`.
pub proof fn lemma_torch_rescheduled(
    s: GridState,
    x: usize,
    y: usize,
    st: Option<SignalType>,
    prev: u8,
    b: Block,
    r: Redstone,
)
    requires
        in_grid(x as int, y as int),
        s.map[x as int][y as int] == Some(b),
        b.kind == BlockKind::Redstone(r),
        r.kind == RedstoneKind::Torch,
        st != Some(SignalType::Weak(false)),
        prev < 20,
        r.signal == 0 || r.signal >= prev,
        unique_keys(s.events.redstone),
    ensures
        cm_get(set_power_to_0_spec(s, x, y, st, prev).events.redstone, (x, y)) == Some(
            (true, 0u8, None::<SignalType>),
        ),
        set_power_to_0_spec(s, x, y, st, prev).map[x as int][y as int] == Some(b),
{
    let fin = set_power_to_0_spec(s, x, y, st, prev);
    let l = zero_local(s, x, y, st, prev);
    assert(fin == l.0);
    assert(l.0.events.redstone == cm_insert(s.events.redstone, (x, y), (true, 0u8, None::<SignalType>)));
    lemma_cell_map_read_after_write(s.events.redstone, (x, y), (true, 0u8, None::<SignalType>), (x, y));
    assert(Block { kind: BlockKind::Redstone(r), texture_name: b.texture_name, ..b } == b);
}

/// The cell holds a torch, or a lit repeater (signal 16, lit texture): a
/// cell that no signal of 1 or more changes.
pub open spec fn is_steady(c: Option<Block>) -> bool {
    c matches Some(b) && b.kind matches BlockKind::Redstone(r) && (r.kind == RedstoneKind::Torch || (r.kind is Repeater
        && r.signal == 16 && b.texture_name == TextureName::Repeater(true)))
}

/// A signal of 1 or more, and all it sets off, never changes the cell of a
/// torch (a torch only goes off on a later tick) or of a lit repeater.
proof fn lemma_power_keeps_steady(s: GridState, x: usize, y: usize, input: u8, st: Option<SignalType>, tx: int, ty: int)
    requires
        input >= 1,
        0 <= tx < 16,
        0 <= ty < 16,
        is_steady(s.map[tx][ty]),
    ensures
        set_power_spec(s, x, y, input, st).map[tx][ty] == s.map[tx][ty],
    decreases power_measure(input), 1int, 0int,
{
    if in_grid(x as int, y as int) {
        let l = power_local(s, x, y, input, st);
        if x as int == tx && y as int == ty {
            let b = s.map[tx][ty]->0;
            let r = b.kind->Redstone_0;
            assert(Block { kind: BlockKind::Redstone(r), texture_name: b.texture_name, ..b } == b);
            if r.kind is Repeater && input >= 20 && st != Some(SignalType::Weak(false)) {
                assert(Redstone { signal: 16, ..r } == r);
            }
            assert(l.0.map[tx][ty] == s.map[tx][ty]);
        } else {
            match s.map[x as int][y as int] {
                Some(b) => {
                    let m2 = l.0.map;
                    if m2 != s.map {
                        assert(m2 == grid_set(s.map, x as int, y as int, m2[x as int][y as int]));
                        if tx == x as int {
                            assert(m2[tx][ty] == s.map[tx][ty]);
                        } else {
                            assert(m2[tx] == s.map[tx]);
                        }
                    }
                },
                None => {},
            }
        }
        match l.1 {
            None => {},
            Some(v) => {
                let s2 = GridState { events: ev_entity(l.0.events, (x, y), false), ..l.0 };
                lemma_power_list_keeps_steady(s2, next_cells(s2.map, x, y, v.1), 0, v.0, v.2, power_measure(input), tx, ty);
            },
        }
    }
}

proof fn lemma_power_list_keeps_steady(
    s: GridState,
    cells: Seq<(usize, usize)>,
    i: int,
    sig: u8,
    st: Option<SignalType>,
    bound: int,
    tx: int,
    ty: int,
)
    requires
        0 <= tx < 16,
        0 <= ty < 16,
        is_steady(s.map[tx][ty]),
    ensures
        power_list(s, cells, i, sig, st, bound).map[tx][ty] == s.map[tx][ty],
    decreases bound, 0int, cells.len() - i,
{
    if 0 <= i < cells.len() {
        let s2 = if sig > 1 && power_measure((sig - 1) as u8) < bound {
            lemma_power_keeps_steady(s, cells[i].0, cells[i].1, (sig - 1) as u8, st, tx, ty);
            set_power_spec(s, cells[i].0, cells[i].1, (sig - 1) as u8, st)
        } else {
            s
        };
        lemma_power_list_keeps_steady(s2, cells, i + 1, sig, st, bound, tx, ty);
    }
}

/// A 0 signal of any type but a carried weak one lights a torch: its signal
/// becomes 16 and its texture a lit torch, and the signal it sends out never
/// comes back to put it out.
pub proof fn lemma_torch_lights(s: GridState, x: usize, y: usize, st: Option<SignalType>, b: Block, r: Redstone)
    requires
        in_grid(x as int, y as int),
        s.map[x as int][y as int] == Some(b),
        b.kind == BlockKind::Redstone(r),
        r.kind == RedstoneKind::Torch,
        st != Some(SignalType::Weak(false)),
    ensures
        set_power_spec(s, x, y, 0, st).map[x as int][y as int] == Some(
            Block { kind: BlockKind::Redstone(Redstone { signal: 16, ..r }), texture_name: TextureName::RedstoneTorch(true), ..b },
        ),
{
    let nb = Block { kind: BlockKind::Redstone(Redstone { signal: 16, ..r }), texture_name: TextureName::RedstoneTorch(true), ..b };
    let l = power_local(s, x, y, 0, st);
    assert(l.0.map == grid_set(s.map, x as int, y as int, Some(nb)));
    let v = l.1->0;
    let s2 = GridState { events: ev_entity(l.0.events, (x, y), false), ..l.0 };
    assert(s2.map[x as int][y as int] == Some(nb));
    lemma_power_list_keeps_steady(s2, next_cells(s2.map, x, y, v.1), 0, v.0, v.2, power_measure(0), x as int, y as int);
}

/// A signal of 1 or more (of any type but a carried weak one) reaching a
/// torch leaves its cell as it is for now and schedules it to go off on the
/// next delayed tick: its cell's delayed update reads `(false, 20, None)`.
pub proof fn lemma_torch_scheduled_off(
    s: GridState,
    x: usize,
    y: usize,
    input: u8,
    st: Option<SignalType>,
    b: Block,
    r: Redstone,
)
    requires
        in_grid(x as int, y as int),
        s.map[x as int][y as int] == Some(b),
        b.kind == BlockKind::Redstone(r),
        r.kind == RedstoneKind::Torch,
        st != Some(SignalType::Weak(false)),
        input >= 1,
        unique_keys(s.events.redstone),
    ensures
        cm_get(set_power_spec(s, x, y, input, st).events.redstone, (x, y)) == Some(
            (false, 20u8, None::<SignalType>),
        ),
        set_power_spec(s, x, y, input, st).map == s.map,
{
    let l = power_local(s, x, y, input, st);
    assert(l.0.events.redstone == cm_insert(s.events.redstone, (x, y), (false, 20u8, None::<SignalType>)));
    lemma_cell_map_read_after_write(s.events.redstone, (x, y), (false, 20u8, None::<SignalType>), (x, y));
    assert(Block { kind: BlockKind::Redstone(r), texture_name: b.texture_name, ..b } == b);
    assert(l.0.map =~= s.map) by {
        assert forall|a: int| 0 <= a < 16 implies l.0.map[a] =~= s.map[a] by {}
    }
}

/// A signal below 20 (above 0, of any type but a carried weak one) reaching
/// a repeater leaves its cell as it is and makes it count towards lighting:
/// its cell's counting event reads `true`.
pub proof fn lemma_repeater_scheduled_on(
    s: GridState,
    x: usize,
    y: usize,
    input: u8,
    st: Option<SignalType>,
    b: Block,
    r: Redstone,
)
    requires
        in_grid(x as int, y as int),
        s.map[x as int][y as int] == Some(b),
        b.kind == BlockKind::Redstone(r),
        r.kind is Repeater,
        st != Some(SignalType::Weak(false)),
        1 <= input < 20,
        unique_keys(s.events.repeater),
    ensures
        cm_get(set_power_spec(s, x, y, input, st).events.repeater, (x, y)) == Some(true),
        set_power_spec(s, x, y, input, st).map == s.map,
{
    let l = power_local(s, x, y, input, st);
    assert(l.0.events.repeater == cm_insert(s.events.repeater, (x, y), true));
    lemma_cell_map_read_after_write(s.events.repeater, (x, y), true, (x, y));
    assert(Block { kind: BlockKind::Redstone(r), texture_name: b.texture_name, ..b } == b);
    assert(l.0.map =~= s.map) by {
        assert forall|a: int| 0 <= a < 16 implies l.0.map[a] =~= s.map[a] by {}
    }
}

/// When the signal feeding a repeater goes away from a previous strength
/// below 20 (and the repeater is dark, or at least as strong as that signal),
/// the repeater keeps its cell for now and counts towards going off: its
/// cell's counting event reads `false`.
pub proof fn lemma_repeater_scheduled_off(
    s: GridState,
    x: usize,
    y: usize,
    st: Option<SignalType>,
    prev: u8,
    b: Block,
    r: Redstone,
)
    requires
        in_grid(x as int, y as int),
        s.map[x as int][y as int] == Some(b),
        b.kind == BlockKind::Redstone(r),
        r.kind is Repeater,
        st != Some(SignalType::Weak(false)),
        prev < 20,
        r.signal == 0 || r.signal >= prev,
        unique_keys(s.events.repeater),
    ensures
        cm_get(set_power_to_0_spec(s, x, y, st, prev).events.repeater, (x, y)) == Some(false),
        set_power_to_0_spec(s, x, y, st, prev).map[x as int][y as int] == Some(b),
{
    let l = zero_local(s, x, y, st, prev);
    assert(set_power_to_0_spec(s, x, y, st, prev) == l.0);
    assert(l.0.events.repeater == cm_insert(s.events.repeater, (x, y), false));
    lemma_cell_map_read_after_write(s.events.repeater, (x, y), false, (x, y));
    assert(Block { kind: BlockKind::Redstone(r), texture_name: b.texture_name, ..b } == b);
}

/// A signal of 20 or more (of any type but a carried weak one) lights a
/// repeater: its signal becomes 16 and its texture a lit repeater, and the
/// signal it sends out never comes back to change it.
pub proof fn lemma_repeater_lights(s: GridState, x: usize, y: usize, input: u8, st: Option<SignalType>, b: Block, r: Redstone)
    requires
        in_grid(x as int, y as int),
        s.map[x as int][y as int] == Some(b),
        b.kind == BlockKind::Redstone(r),
        r.kind is Repeater,
        st != Some(SignalType::Weak(false)),
        input >= 20,
    ensures
        set_power_spec(s, x, y, input, st).map[x as int][y as int] == Some(
            Block { kind: BlockKind::Redstone(Redstone { signal: 16, ..r }), texture_name: TextureName::Repeater(true), ..b },
        ),
{
    let nb = Block { kind: BlockKind::Redstone(Redstone { signal: 16, ..r }), texture_name: TextureName::Repeater(true), ..b };
    let l = power_local(s, x, y, input, st);
    assert(l.0.map == grid_set(s.map, x as int, y as int, Some(nb)));
    let v = l.1->0;
    let s2 = GridState { events: ev_entity(l.0.events, (x, y), false), ..l.0 };
    assert(s2.map[x as int][y as int] == Some(nb));
    lemma_power_list_keeps_steady(s2, next_cells(s2.map, x, y, v.1), 0, v.0, v.2, power_measure(input), x as int, y as int);
}

/// A repeater event at a repeater whose countdown has reached 0 (or that
/// rests with no delay while its output disagrees with `on`) fires: it
/// schedules its update for the next delayed tick (a dark repeater lights
/// from 20, a lit one goes off from 30) and rests (countdown -1), its signal
/// unchanged for now.
pub proof fn lemma_grid_repeater_fires(
    s: GridState,
    x: usize,
    y: usize,
    on: bool,
    b: Block,
    r: Redstone,
    tick: i16,
    countdown: i16,
)
    requires
        in_grid(x as int, y as int),
        s.map[x as int][y as int] == Some(b),
        b.kind == BlockKind::Redstone(r),
        r.kind == (RedstoneKind::Repeater { tick, countdown }),
        countdown == 0 || (countdown < 0 && tick == 0 && (if on {
            r.signal == 0
        } else {
            r.signal > 0
        })),
        unique_keys(s.events.redstone),
    ensures
        cm_get(repeater_step(s, (x, y), on).events.redstone, (x, y)) == Some(
            if r.signal == 0 {
                (true, 20u8, None::<SignalType>)
            } else {
                (false, 30u8, None::<SignalType>)
            },
        ),
        repeater_step(s, (x, y), on).map[x as int][y as int] == Some(
            Block { kind: BlockKind::Redstone(Redstone { kind: RedstoneKind::Repeater { tick, countdown: -1i16 }, ..r }), ..b },
        ),
{
    let v = if r.signal == 0 {
        (true, 20u8, None::<SignalType>)
    } else {
        (false, 30u8, None::<SignalType>)
    };
    lemma_cell_map_read_after_write(s.events.redstone, (x, y), v, (x, y));
}

/// A repeater event at a repeater that is counting (or that rests with a
/// delay while its output disagrees with `on`) counts one step down and
/// schedules nothing yet: its signal and the pending delayed updates stay.
pub proof fn lemma_grid_repeater_counts_down(
    s: GridState,
    x: usize,
    y: usize,
    on: bool,
    b: Block,
    r: Redstone,
    tick: i16,
    countdown: i16,
)
    requires
        in_grid(x as int, y as int),
        s.map[x as int][y as int] == Some(b),
        b.kind == BlockKind::Redstone(r),
        r.kind == (RedstoneKind::Repeater { tick, countdown }),
        countdown > 0 || (countdown < 0 && tick > 0 && (if on {
            r.signal == 0
        } else {
            r.signal > 0
        })),
    ensures
        repeater_step(s, (x, y), on).events.redstone == s.events.redstone,
        repeater_step(s, (x, y), on).map[x as int][y as int] == Some(
            Block {
                kind: BlockKind::Redstone(
                    Redstone {
                        kind: RedstoneKind::Repeater {
                            tick,
                            countdown: if countdown > 0 {
                                (countdown - 1) as i16
                            } else {
                                (tick - 1) as i16
                            },
                        },
                        ..r
                    },
                ),
                ..b
            },
        ),
{
}

/// `c2` is `c1` after signals were only added: the same kind of cell, dust,
/// opaque blocks and mechanisms holding at least their signals, torches and
/// repeaters their signal or a lit 16.
pub open spec fn cell_raised(c1: Option<Block>, c2: Option<Block>) -> bool {
    match (c1, c2) {
        (None, None) => true,
        (Some(b1), Some(b2)) => match (b1.kind, b2.kind) {
            (BlockKind::Redstone(r1), BlockKind::Redstone(r2)) => r1.kind == r2.kind && if r1.kind == RedstoneKind::Block {
                r2.signal >= r1.signal
            } else {
                r2.signal == r1.signal || r2.signal == 16
            },
            (
                BlockKind::Opaque { strong_signal: s1, weak_signal: w1 },
                BlockKind::Opaque { strong_signal: s2, weak_signal: w2 },
            ) => s2 >= s1 && w2 >= w1,
            (BlockKind::Mechanism(m1), BlockKind::Mechanism(m2)) => m2.signal >= m1.signal,
            _ => false,
        },
        _ => false,
    }
}

/// Every cell of the grid is raised from `m1` to `m2`.
pub open spec fn map_raised(m1: GridMap, m2: GridMap) -> bool {
    forall|a: int, c: int| 0 <= a < 16 && 0 <= c < 16 ==> #[trigger] cell_raised(m1[a][c], m2[a][c])
}

proof fn lemma_cell_raised_refl(c: Option<Block>)
    ensures
        cell_raised(c, c),
{
    match c {
        Some(b) => match b.kind {
            BlockKind::Redstone(_) => {},
            BlockKind::Opaque { .. } => {},
            BlockKind::Mechanism(_) => {},
        },
        None => {},
    }
}

proof fn lemma_map_raised_refl(m: GridMap)
    ensures
        map_raised(m, m),
{
    assert forall|a: int, c: int| 0 <= a < 16 && 0 <= c < 16 implies #[trigger] cell_raised(m[a][c], m[a][c]) by {
        lemma_cell_raised_refl(m[a][c]);
    }
}

proof fn lemma_map_raised_trans(m1: GridMap, m2: GridMap, m3: GridMap)
    requires
        map_raised(m1, m2),
        map_raised(m2, m3),
    ensures
        map_raised(m1, m3),
{
    assert forall|a: int, c: int| 0 <= a < 16 && 0 <= c < 16 implies #[trigger] cell_raised(m1[a][c], m3[a][c]) by {
        assert(cell_raised(m1[a][c], m2[a][c]));
        assert(cell_raised(m2[a][c], m3[a][c]));
    }
}

proof fn lemma_power_local_raises(s: GridState, x: usize, y: usize, input: u8, st: Option<SignalType>)
    requires
        in_grid(x as int, y as int),
    ensures
        map_raised(s.map, power_local(s, x, y, input, st).0.map),
{
    lemma_map_raised_refl(s.map);
    let m2 = power_local(s, x, y, input, st).0.map;
    if m2 != s.map {
        let c = m2[x as int][y as int];
        assert(m2 == grid_set(s.map, x as int, y as int, c));
        assert(cell_raised(s.map[x as int][y as int], c));
        assert forall|a: int, b: int| 0 <= a < 16 && 0 <= b < 16 implies #[trigger] cell_raised(s.map[a][b], m2[a][b]) by {
            assert(cell_raised(s.map[a][b], s.map[a][b]));
            if a == x as int && b == y as int {
            } else if a == x as int {
                assert(m2[a][b] == s.map[a][b]);
            } else {
                assert(m2[a] == s.map[a]);
            }
        }
    }
}

/// A signal arriving at a cell, and all it sets off, never takes a signal
/// away: dust, opaque blocks and mechanisms only gain, torches and repeaters
/// only light (to 16), and no cell changes its kind.
pub proof fn lemma_power_only_raises(s: GridState, x: usize, y: usize, input: u8, st: Option<SignalType>)
    ensures
        map_raised(s.map, set_power_spec(s, x, y, input, st).map),
    decreases power_measure(input), 1int, 0int,
{
    if !in_grid(x as int, y as int) {
        lemma_map_raised_refl(s.map);
    } else {
        let l = power_local(s, x, y, input, st);
        lemma_power_local_raises(s, x, y, input, st);
        match l.1 {
            None => {},
            Some(v) => {
                let s2 = GridState { events: ev_entity(l.0.events, (x, y), false), ..l.0 };
                let cells = next_cells(s2.map, x, y, v.1);
                lemma_power_list_raises(s2, cells, 0, v.0, v.2, power_measure(input));
                lemma_map_raised_trans(s.map, s2.map, power_list(s2, cells, 0, v.0, v.2, power_measure(input)).map);
            },
        }
    }
}

/// The signal going on to a list of cells never takes a signal away either.
pub proof fn lemma_power_list_raises(
    s: GridState,
    cells: Seq<(usize, usize)>,
    i: int,
    sig: u8,
    st: Option<SignalType>,
    bound: int,
)
    ensures
        map_raised(s.map, power_list(s, cells, i, sig, st, bound).map),
    decreases bound, 0int, cells.len() - i,
{
    if i < 0 || i >= cells.len() {
        lemma_map_raised_refl(s.map);
    } else {
        let s2 = if sig > 1 && power_measure((sig - 1) as u8) < bound {
            lemma_power_only_raises(s, cells[i].0, cells[i].1, (sig - 1) as u8, st);
            set_power_spec(s, cells[i].0, cells[i].1, (sig - 1) as u8, st)
        } else {
            lemma_map_raised_refl(s.map);
            s
        };
        lemma_power_list_raises(s2, cells, i + 1, sig, st, bound);
        lemma_map_raised_trans(s.map, s2.map, power_list(s2, cells, i + 1, sig, st, bound).map);
    }
}

/// Dust reached by a stronger signal (of any type but a carried weak one)
/// takes it: afterwards it holds at least that signal.
pub proof fn lemma_dust_takes_signal(s: GridState, x: usize, y: usize, input: u8, st: Option<SignalType>, b: Block, r: Redstone)
    requires
        in_grid(x as int, y as int),
        s.map[x as int][y as int] == Some(b),
        b.kind == BlockKind::Redstone(r),
        r.kind == RedstoneKind::Block,
        st != Some(SignalType::Weak(false)),
        input > r.signal,
    ensures
        set_power_spec(s, x, y, input, st).map[x as int][y as int] matches Some(b2) && b2.kind matches BlockKind::Redstone(
            r2,
        ) && r2.signal >= input,
{
    let nb = Block { kind: BlockKind::Redstone(Redstone { signal: input, ..r }), texture_name: TextureName::RedstoneDust(true), ..b };
    let l = power_local(s, x, y, input, st);
    assert(l.0.map == grid_set(s.map, x as int, y as int, Some(nb)));
    assert(l.0.map[x as int][y as int] == Some(nb));
    match l.1 {
        None => {},
        Some(v) => {
            let s2 = GridState { events: ev_entity(l.0.events, (x, y), false), ..l.0 };
            let cells = next_cells(s2.map, x, y, v.1);
            lemma_power_list_raises(s2, cells, 0, v.0, v.2, power_measure(input));
            assert(cell_raised(s2.map[x as int][y as int], power_list(s2, cells, 0, v.0, v.2, power_measure(input)).map[x as int][y as int]));
        },
    }
}

/// What the neighbour on side `i` of `(x, y)` (Up, Right, Down, Left) sends
/// into it: `None` when that input port is closed or the side leaves the
/// grid.
pub open spec fn grid_feed(m: GridMap, x: usize, y: usize, inp: Ports, i: int) -> Option<(u8, Option<SignalType>)> {
    if i == 0 && inp[0] && x > 0 {
        Some(out_signal(m[x - 1][y as int], 2))
    } else if i == 1 && inp[1] && y + 1 < 16 {
        Some(out_signal(m[x as int][y + 1], 3))
    } else if i == 2 && inp[2] && x + 1 < 16 {
        Some(out_signal(m[x + 1][y as int], 0))
    } else if i == 3 && inp[3] && y > 0 {
        Some(out_signal(m[x as int][y - 1], 1))
    } else {
        None
    }
}

/// The strongest signal reaching a cell ([`prev_signal_of`]) is one below
/// the strongest that any open side sends (and no side sends more); when no
/// side sends more than 1 it is `(0, None)`.
pub proof fn lemma_prev_signal_is_strongest(m: GridMap, x: usize, y: usize, inp: Ports)
    requires
        in_grid(x as int, y as int),
    ensures
        forall|i: int| 0 <= i < 4 ==> (#[trigger] grid_feed(m, x, y, inp, i) matches Some(v) ==> v.0 <= prev_signal_of(
            m,
            x,
            y,
            inp,
        ).0 + 1),
        prev_signal_of(m, x, y, inp).0 > 0 ==> exists|i: int|
            0 <= i < 4 && #[trigger] grid_feed(m, x, y, inp, i) == Some(
                ((prev_signal_of(m, x, y, inp).0 + 1) as u8, prev_signal_of(m, x, y, inp).1),
            ),
        prev_signal_of(m, x, y, inp).0 == 0 ==> prev_signal_of(m, x, y, inp).1 is None,
{
    let r = prev_signal_of(m, x, y, inp);
    if r.0 > 0 {
        let k = (r.0 + 1) as u8;
        if grid_feed(m, x, y, inp, 3) == Some((k, r.1)) {
        } else if grid_feed(m, x, y, inp, 2) == Some((k, r.1)) {
        } else if grid_feed(m, x, y, inp, 1) == Some((k, r.1)) {
        } else {
            assert(grid_feed(m, x, y, inp, 0) == Some((k, r.1)));
        }
    }
}

/// With no delayed update pending, a dark torch whose feeding signal goes
/// away (from a strength below 20) is lit after the next delayed tick: its
/// signal is 16 and its texture a lit torch.
pub proof fn lemma_torch_relit_after_delay(
    s: GridState,
    x: usize,
    y: usize,
    st: Option<SignalType>,
    prev: u8,
    b: Block,
    r: Redstone,
)
    requires
        in_grid(x as int, y as int),
        s.map[x as int][y as int] == Some(b),
        b.kind == BlockKind::Redstone(r),
        r.kind == RedstoneKind::Torch,
        r.signal == 0,
        st != Some(SignalType::Weak(false)),
        prev < 20,
        s.events.redstone == Seq::<((usize, usize), (bool, u8, Option<SignalType>))>::empty(),
    ensures
        ({
            let s1 = set_power_to_0_spec(s, x, y, st, prev);
            torch_fold(
                GridState { map: s1.map, events: GridEvents { redstone: Seq::empty(), ..s1.events } },
                s1.events.redstone,
                0,
            ).map[x as int][y as int] == Some(
                Block {
                    kind: BlockKind::Redstone(Redstone { signal: 16, ..r }),
                    texture_name: TextureName::RedstoneTorch(true),
                    ..b
                },
            )
        }),
{
    let s1 = set_power_to_0_spec(s, x, y, st, prev);
    let v = (true, 0u8, None::<SignalType>);
    lemma_torch_rescheduled(s, x, y, st, prev, b, r);
    let l = zero_local(s, x, y, st, prev);
    assert(s1 == l.0);
    assert(s1.events.redstone == cm_insert(s.events.redstone, (x, y), v));
    assert(cm_insert(s.events.redstone, (x, y), v) =~= seq![((x, y), v)]);
    let entries = s1.events.redstone;
    let start = GridState { map: s1.map, events: GridEvents { redstone: Seq::empty(), ..s1.events } };
    assert(start.map[x as int][y as int] == Some(b));
    lemma_torch_lights(start, x, y, None, b, r);
    let s2 = set_power_spec(start, x, y, 0, None);
    assert(torch_fold(start, entries, 0) == torch_fold(s2, entries, 1));
    assert(torch_fold(s2, entries, 1) == s2);
}

/// The cell holds dust (a redstone block) with at least signal `k`.
pub open spec fn dust_at_least(c: Option<Block>, k: int) -> bool {
    c matches Some(b) && b.kind matches BlockKind::Redstone(r) && r.kind == RedstoneKind::Block && r.signal >= k
}

proof fn lemma_raised_dust(c1: Option<Block>, c2: Option<Block>, k: int)
    requires
        dust_at_least(c1, k),
        cell_raised(c1, c2),
    ensures
        dust_at_least(c2, k),
{
}

proof fn lemma_power_reaches_dust(s: GridState, x: usize, y: usize, input: u8, st: Option<SignalType>)
    requires
        in_grid(x as int, y as int),
        dust_at_least(s.map[x as int][y as int], 0),
        st != Some(SignalType::Weak(false)),
    ensures
        dust_at_least(set_power_spec(s, x, y, input, st).map[x as int][y as int], input as int),
{
    let c = s.map[x as int][y as int];
    let b = c->0;
    let r = b.kind->Redstone_0;
    lemma_power_only_raises(s, x, y, input, st);
    let fin = set_power_spec(s, x, y, input, st).map[x as int][y as int];
    assert(cell_raised(c, fin));
    if input > r.signal {
        lemma_dust_takes_signal(s, x, y, input, st, b, r);
    }
}

proof fn lemma_list_reaches_dust(
    s: GridState,
    cells: Seq<(usize, usize)>,
    i: int,
    sig: u8,
    st: Option<SignalType>,
    bound: int,
    j: int,
)
    requires
        0 <= i <= j < cells.len(),
        in_grid(cells[j].0 as int, cells[j].1 as int),
        dust_at_least(s.map[cells[j].0 as int][cells[j].1 as int], 0),
        sig > 1,
        power_measure((sig - 1) as u8) < bound,
        st != Some(SignalType::Weak(false)),
    ensures
        dust_at_least(power_list(s, cells, i, sig, st, bound).map[cells[j].0 as int][cells[j].1 as int], sig - 1),
    decreases j - i,
{
    let tx = cells[j].0 as int;
    let ty = cells[j].1 as int;
    let s2 = set_power_spec(s, cells[i].0, cells[i].1, (sig - 1) as u8, st);
    let fin = power_list(s, cells, i, sig, st, bound);
    assert(fin == power_list(s2, cells, i + 1, sig, st, bound));
    lemma_power_only_raises(s, cells[i].0, cells[i].1, (sig - 1) as u8, st);
    assert(cell_raised(s.map[tx][ty], s2.map[tx][ty]));
    if i < j {
        lemma_raised_dust(s.map[tx][ty], s2.map[tx][ty], 0);
        lemma_list_reaches_dust(s2, cells, i + 1, sig, st, bound, j);
    } else {
        lemma_power_reaches_dust(s, cells[j].0, cells[j].1, (sig - 1) as u8, st);
        lemma_power_list_raises(s2, cells, i + 1, sig, st, bound);
        assert(cell_raised(s2.map[tx][ty], fin.map[tx][ty]));
        lemma_raised_dust(s2.map[tx][ty], fin.map[tx][ty], sig - 1);
    }
}

proof fn lemma_next_cells_in_grid(m: GridMap, x: usize, y: usize, ports: Ports, j: int)
    requires
        in_grid(x as int, y as int),
        0 <= j < next_cells(m, x, y, ports).len(),
    ensures
        in_grid(next_cells(m, x, y, ports)[j].0 as int, next_cells(m, x, y, ports)[j].1 as int),
        next_cells(m, x, y, ports)[j] != (x, y),
{
    let a = if ports[0] && x > 0 && crate::grid::redstone::input_port_open(m[x - 1][y as int], 2) {
        seq![((x - 1) as usize, y)]
    } else {
        Seq::empty()
    };
    let b = if ports[1] && y + 1 < 16 && crate::grid::redstone::input_port_open(m[x as int][y + 1], 3) {
        seq![(x, (y + 1) as usize)]
    } else {
        Seq::empty()
    };
    let c = if ports[2] && x + 1 < 16 && crate::grid::redstone::input_port_open(m[x + 1][y as int], 0) {
        seq![((x + 1) as usize, y)]
    } else {
        Seq::empty()
    };
    let d = if ports[3] && y > 0 && crate::grid::redstone::input_port_open(m[x as int][y - 1], 1) {
        seq![(x, (y - 1) as usize)]
    } else {
        Seq::empty()
    };
    let n = next_cells(m, x, y, ports);
    assert(n == a + b + c + d);
    if j < a.len() {
        assert(n[j] == a[j]);
    } else if j < a.len() + b.len() {
        assert(n[j] == b[j - a.len()]);
    } else if j < a.len() + b.len() + c.len() {
        assert(n[j] == c[j - a.len() - b.len()]);
    } else {
        assert(n[j] == d[j - a.len() - b.len() - c.len()]);
    }
}

/// A strong signal of 2 or more reaching an opaque block passes through it:
/// every dust that the block feeds ends with at least one less.
pub proof fn lemma_strong_power_through_opaque(
    s: GridState,
    x: usize,
    y: usize,
    input: u8,
    b: Block,
    strong: u8,
    weak: u8,
    j: int,
)
    requires
        in_grid(x as int, y as int),
        s.map[x as int][y as int] == Some(b),
        b.kind == (BlockKind::Opaque { strong_signal: strong, weak_signal: weak }),
        input >= 2,
        0 <= j < next_cells(s.map, x, y, [true, true, true, true]).len(),
        dust_at_least(
            s.map[next_cells(s.map, x, y, [true, true, true, true])[j].0 as int][next_cells(
                s.map,
                x,
                y,
                [true, true, true, true],
            )[j].1 as int],
            0,
        ),
    ensures
        dust_at_least(
            set_power_spec(s, x, y, input, Some(SignalType::Strong(true))).map[next_cells(
                s.map,
                x,
                y,
                [true, true, true, true],
            )[j].0 as int][next_cells(s.map, x, y, [true, true, true, true])[j].1 as int],
            input - 1,
        ),
{
    let st = Some(SignalType::Strong(true));
    let nb = Block { kind: BlockKind::Opaque { strong_signal: if input >= strong { input } else { strong }, weak_signal: weak }, ..b };
    let l = power_local(s, x, y, input, st);
    assert(l.0.map == grid_set(s.map, x as int, y as int, Some(nb)));
    let s2 = GridState { events: ev_entity(l.0.events, (x, y), false), ..l.0 };
    assert(next_cells(s2.map, x, y, [true, true, true, true]) == next_cells(s.map, x, y, [true, true, true, true]));
    let cells = next_cells(s.map, x, y, [true, true, true, true]);
    lemma_next_cells_in_grid(s.map, x, y, [true, true, true, true], j);
    let tx = cells[j].0 as int;
    let ty = cells[j].1 as int;
    assert((tx, ty) != (x as int, y as int));
    if tx == x as int {
        assert(s2.map[tx][ty] == s.map[tx][ty]);
    } else {
        assert(s2.map[tx] == s.map[tx]);
    }
    lemma_list_reaches_dust(s2, cells, 0, input, Some(SignalType::Strong(false)), power_measure(input), j);
}

/// Dust that takes a stronger signal of 2 or more passes it on, one lower:
/// every dust that it feeds through its output ports ends with at least one
/// less than the signal.
pub proof fn lemma_dust_passes_signal(
    s: GridState,
    x: usize,
    y: usize,
    input: u8,
    st: Option<SignalType>,
    b: Block,
    r: Redstone,
    j: int,
)
    requires
        in_grid(x as int, y as int),
        s.map[x as int][y as int] == Some(b),
        b.kind == BlockKind::Redstone(r),
        r.kind == RedstoneKind::Block,
        st != Some(SignalType::Weak(false)),
        input > r.signal,
        input >= 2,
        0 <= j < next_cells(s.map, x, y, r.output_ports).len(),
        dust_at_least(
            s.map[next_cells(s.map, x, y, r.output_ports)[j].0 as int][next_cells(s.map, x, y, r.output_ports)[j].1 as int],
            0,
        ),
    ensures
        dust_at_least(
            set_power_spec(s, x, y, input, st).map[next_cells(s.map, x, y, r.output_ports)[j].0 as int][next_cells(
                s.map,
                x,
                y,
                r.output_ports,
            )[j].1 as int],
            input - 1,
        ),
{
    let nb = Block { kind: BlockKind::Redstone(Redstone { signal: input, ..r }), texture_name: TextureName::RedstoneDust(true), ..b };
    let l = power_local(s, x, y, input, st);
    assert(l.0.map == grid_set(s.map, x as int, y as int, Some(nb)));
    let s2 = GridState { events: ev_entity(l.0.events, (x, y), false), ..l.0 };
    assert(next_cells(s2.map, x, y, r.output_ports) == next_cells(s.map, x, y, r.output_ports));
    let cells = next_cells(s.map, x, y, r.output_ports);
    lemma_next_cells_in_grid(s.map, x, y, r.output_ports, j);
    let tx = cells[j].0 as int;
    let ty = cells[j].1 as int;
    if tx == x as int {
        assert(s2.map[tx][ty] == s.map[tx][ty]);
    } else {
        assert(s2.map[tx] == s.map[tx]);
    }
    lemma_list_reaches_dust(s2, cells, 0, input, Some(SignalType::Weak(true)), power_measure(input), j);
}

/// A signal reaching a mechanism above the signal it has switches it on: it
/// takes the signal, its event reads `true`, and nothing goes further.
pub proof fn lemma_mechanism_switched_on(
    s: GridState,
    x: usize,
    y: usize,
    input: u8,
    st: Option<SignalType>,
    b: Block,
    m: Mechanism,
)
    requires
        in_grid(x as int, y as int),
        s.map[x as int][y as int] == Some(b),
        b.kind == BlockKind::Mechanism(m),
        input > m.signal,
        unique_keys(s.events.mechanism),
    ensures
        cm_get(set_power_spec(s, x, y, input, st).events.mechanism, (x, y)) == Some(true),
        set_power_spec(s, x, y, input, st).map == grid_set(
            s.map,
            x as int,
            y as int,
            Some(Block { kind: BlockKind::Mechanism(Mechanism { signal: input, ..m }), ..b }),
        ),
{
    lemma_cell_map_read_after_write(s.events.mechanism, (x, y), true, (x, y));
}

/// A fall from a strength `prev` above the signal of a mechanism switches it
/// off (signal 0, its event `false`) when the mechanism had no signal, when no
/// neighbour still sends it more than 1, or when none sends it as much as the
/// signal it had (one that does powers it again at once).
pub proof fn lemma_mechanism_switched_off(
    s: GridState,
    x: usize,
    y: usize,
    st: Option<SignalType>,
    prev: u8,
    b: Block,
    m: Mechanism,
)
    requires
        in_grid(x as int, y as int),
        s.map[x as int][y as int] == Some(b),
        b.kind == BlockKind::Mechanism(m),
        prev > m.signal,
        m.signal == 0 || prev_signal_of(s.map, x, y, m.input_ports).0 == 0 || prev_signal_of(s.map, x, y, m.input_ports).0
            + 1 < m.signal,
        unique_keys(s.events.mechanism),
    ensures
        cm_get(set_power_to_0_spec(s, x, y, st, prev).events.mechanism, (x, y)) == Some(false),
        set_power_to_0_spec(s, x, y, st, prev).map == grid_set(
            s.map,
            x as int,
            y as int,
            Some(Block { kind: BlockKind::Mechanism(Mechanism { signal: 0, ..m }), ..b }),
        ),
{
    lemma_cell_map_read_after_write(s.events.mechanism, (x, y), false, (x, y));
    let l = zero_local(s, x, y, st, prev);
    let nb = Block { kind: BlockKind::Mechanism(Mechanism { signal: 0, ..m }), ..b };
    assert(l.0.map == grid_set(s.map, x as int, y as int, Some(nb)));
    if m.signal > 0 {
        let s2 = GridState { events: ev_entity(l.0.events, (x, y), false), ..l.0 };
        let cells = next_cells(s2.map, x, y, [false, false, false, false]);
        assert(cells.len() == 0);
        assert(zero_list(s2, cells, 0, None, m.signal, prev as int) == s2);
        assert(prev_signal_of(s2.map, x, y, m.input_ports) == prev_signal_of(s.map, x, y, m.input_ports)) by {
            if x > 0 {
                assert(s2.map[x - 1] == s.map[x - 1]);
            }
            if x + 1 < 16 {
                assert(s2.map[x + 1] == s.map[x + 1]);
            }
            if y > 0 {
                assert(s2.map[x as int][y - 1] == s.map[x as int][y - 1]);
            }
            if y + 1 < 16 {
                assert(s2.map[x as int][y + 1] == s.map[x as int][y + 1]);
            }
        }
    }
}

/// A repeater event at a repeater at rest whose output already agrees with
/// `on` is dropped: the repeater's counting event is gone, nothing is
/// scheduled and the cell stays as it was.
pub proof fn lemma_grid_repeater_event_dropped(
    s: GridState,
    x: usize,
    y: usize,
    on: bool,
    b: Block,
    r: Redstone,
    tick: i16,
    countdown: i16,
)
    requires
        in_grid(x as int, y as int),
        s.map[x as int][y as int] == Some(b),
        b.kind == BlockKind::Redstone(r),
        r.kind == (RedstoneKind::Repeater { tick, countdown }),
        countdown < 0,
        if on {
            r.signal > 0
        } else {
            r.signal == 0
        },
        unique_keys(s.events.repeater),
    ensures
        cm_get(repeater_step(s, (x, y), on).events.repeater, (x, y)) is None,
        repeater_step(s, (x, y), on).events.redstone == s.events.redstone,
        repeater_step(s, (x, y), on).map[x as int][y as int] == Some(b),
{
    lemma_cell_map_read_after_write(s.events.repeater, (x, y), true, (x, y));
    assert(Block { kind: BlockKind::Redstone(Redstone { kind: RedstoneKind::Repeater { tick, countdown }, ..r }), ..b } == b);
}

} // verus!
