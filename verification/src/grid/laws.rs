use vstd::prelude::*;
use crate::chunks::block::SignalType;
use crate::grid::{Block, BlockKind, GridMap, GridState, grid_set, in_grid};
use crate::grid::redstone::{
    ev_entity, next_cells, power_list, power_local, power_measure, prev_signal_of, set_power_spec,
    set_power_to_0_spec, zero_list, zero_local,
};

verus! {

/// Two cells hold the same kind of thing: both empty, or blocks that agree on
/// everything a signal never changes (movability, orientation, ports, the kind
/// of redstone, the kind of mechanism).
pub open spec fn same_shape(c1: Option<Block>, c2: Option<Block>) -> bool {
    match (c1, c2) {
        (None, None) => true,
        (Some(b1), Some(b2)) => b1.movable == b2.movable && b1.orientation == b2.orientation && match (b1.kind, b2.kind) {
            (BlockKind::Redstone(r1), BlockKind::Redstone(r2)) => r1.input_ports == r2.input_ports
                && r1.output_ports == r2.output_ports && r1.kind == r2.kind,
            (BlockKind::Opaque { .. }, BlockKind::Opaque { .. }) => true,
            (BlockKind::Mechanism(m1), BlockKind::Mechanism(m2)) => m1.kind == m2.kind && m1.input_ports
                == m2.input_ports,
            _ => false,
        },
        _ => false,
    }
}

/// Every cell of the grid keeps its shape from `m1` to `m2`.
pub open spec fn shapes_kept(m1: GridMap, m2: GridMap) -> bool {
    forall|a: int, b: int| 0 <= a < 16 && 0 <= b < 16 ==> #[trigger] same_shape(m1[a][b], m2[a][b])
}

proof fn lemma_shapes_refl(m: GridMap)
    ensures
        shapes_kept(m, m),
{
    assert forall|a: int, b: int| 0 <= a < 16 && 0 <= b < 16 implies #[trigger] same_shape(m[a][b], m[a][b]) by {
        match m[a][b] {
            Some(blk) => match blk.kind {
                BlockKind::Redstone(_) => {},
                BlockKind::Opaque { .. } => {},
                BlockKind::Mechanism(_) => {},
            },
            None => {},
        }
    }
}

proof fn lemma_shapes_trans(m1: GridMap, m2: GridMap, m3: GridMap)
    requires
        shapes_kept(m1, m2),
        shapes_kept(m2, m3),
    ensures
        shapes_kept(m1, m3),
{
    assert forall|a: int, b: int| 0 <= a < 16 && 0 <= b < 16 implies #[trigger] same_shape(m1[a][b], m3[a][b]) by {
        assert(same_shape(m1[a][b], m2[a][b]));
        assert(same_shape(m2[a][b], m3[a][b]));
    }
}

proof fn lemma_set_cell_shapes(m: GridMap, x: int, y: int, c: Option<Block>)
    requires
        0 <= x < 16,
        0 <= y < 16,
        same_shape(m[x][y], c),
    ensures
        shapes_kept(m, grid_set(m, x, y, c)),
{
    let m2 = grid_set(m, x, y, c);
    lemma_shapes_refl(m);
    assert forall|a: int, b: int| 0 <= a < 16 && 0 <= b < 16 implies #[trigger] same_shape(m[a][b], m2[a][b]) by {
        assert(same_shape(m[a][b], m[a][b]));
        if a == x && b == y {
            assert(m2[a][b] == c);
        } else if a == x {
            assert(m2[a][b] == m[a][b]);
        } else {
            assert(m2[a] == m[a]);
        }
    }
}

proof fn lemma_power_local_shapes(s: GridState, x: usize, y: usize, input: u8, st: Option<SignalType>)
    requires
        in_grid(x as int, y as int),
    ensures
        shapes_kept(s.map, power_local(s, x, y, input, st).0.map),
{
    lemma_shapes_refl(s.map);
    match s.map[x as int][y as int] {
        Some(b) => {
            let m2 = power_local(s, x, y, input, st).0.map;
            if m2 != s.map {
                let c = m2[x as int][y as int];
                assert(m2 == grid_set(s.map, x as int, y as int, c));
                lemma_set_cell_shapes(s.map, x as int, y as int, c);
            }
        },
        None => {},
    }
}

proof fn lemma_zero_local_shapes(s: GridState, x: usize, y: usize, st: Option<SignalType>, prev: u8)
    requires
        in_grid(x as int, y as int),
    ensures
        shapes_kept(s.map, zero_local(s, x, y, st, prev).0.map),
{
    lemma_shapes_refl(s.map);
    match s.map[x as int][y as int] {
        Some(b) => {
            let m2 = zero_local(s, x, y, st, prev).0.map;
            if m2 != s.map {
                let c = m2[x as int][y as int];
                assert(m2 == grid_set(s.map, x as int, y as int, c));
                lemma_set_cell_shapes(s.map, x as int, y as int, c);
            }
        },
        None => {},
    }
}

proof fn lemma_power_shapes(s: GridState, x: usize, y: usize, input: u8, st: Option<SignalType>)
    ensures
        shapes_kept(s.map, set_power_spec(s, x, y, input, st).map),
    decreases power_measure(input), 1int, 0int,
{
    if !in_grid(x as int, y as int) {
        lemma_shapes_refl(s.map);
    } else {
        let l = power_local(s, x, y, input, st);
        lemma_power_local_shapes(s, x, y, input, st);
        match l.1 {
            None => {},
            Some(v) => {
                let s2 = GridState { events: ev_entity(l.0.events, (x, y), false), ..l.0 };
                let cells = next_cells(s2.map, x, y, v.1);
                lemma_power_list_shapes(s2, cells, 0, v.0, v.2, power_measure(input));
                lemma_shapes_trans(s.map, s2.map, power_list(s2, cells, 0, v.0, v.2, power_measure(input)).map);
            },
        }
    }
}

proof fn lemma_power_list_shapes(
    s: GridState,
    cells: Seq<(usize, usize)>,
    i: int,
    sig: u8,
    st: Option<SignalType>,
    bound: int,
)
    ensures
        shapes_kept(s.map, power_list(s, cells, i, sig, st, bound).map),
    decreases bound, 0int, cells.len() - i,
{
    if i < 0 || i >= cells.len() {
        lemma_shapes_refl(s.map);
    } else {
        let s2 = if sig > 1 && power_measure((sig - 1) as u8) < bound {
            lemma_power_shapes(s, cells[i].0, cells[i].1, (sig - 1) as u8, st);
            set_power_spec(s, cells[i].0, cells[i].1, (sig - 1) as u8, st)
        } else {
            lemma_shapes_refl(s.map);
            s
        };
        lemma_power_list_shapes(s2, cells, i + 1, sig, st, bound);
        lemma_shapes_trans(s.map, s2.map, power_list(s2, cells, i + 1, sig, st, bound).map);
    }
}

proof fn lemma_zero_shapes(s: GridState, x: usize, y: usize, st: Option<SignalType>, prev: u8)
    ensures
        shapes_kept(s.map, set_power_to_0_spec(s, x, y, st, prev).map),
    decreases prev, 1int, 0int,
{
    if !in_grid(x as int, y as int) {
        lemma_shapes_refl(s.map);
    } else {
        let l = zero_local(s, x, y, st, prev);
        lemma_zero_local_shapes(s, x, y, st, prev);
        match l.1 {
            None => {},
            Some(v) => {
                let curr = v.2;
                if curr >= prev || curr == 0 {
                } else {
                    let s2 = GridState { events: ev_entity(l.0.events, (x, y), false), ..l.0 };
                    let cells = next_cells(s2.map, x, y, v.0);
                    lemma_zero_list_shapes(s2, cells, 0, v.3, curr, prev as int);
                    let s3 = zero_list(s2, cells, 0, v.3, curr, prev as int);
                    lemma_shapes_trans(s.map, s2.map, s3.map);
                    let p = prev_signal_of(s3.map, x, y, v.1);
                    if p.0 + 1 >= curr {
                        lemma_power_shapes(s3, x, y, p.0, p.1);
                        lemma_shapes_trans(s.map, s3.map, set_power_spec(s3, x, y, p.0, p.1).map);
                    }
                }
            },
        }
    }
}

proof fn lemma_zero_list_shapes(
    s: GridState,
    cells: Seq<(usize, usize)>,
    i: int,
    st: Option<SignalType>,
    curr: u8,
    bound: int,
)
    ensures
        shapes_kept(s.map, zero_list(s, cells, i, st, curr, bound).map),
    decreases bound, 0int, cells.len() - i,
{
    if i < 0 || i >= cells.len() {
        lemma_shapes_refl(s.map);
    } else {
        let s2 = if (curr as int) < bound {
            lemma_zero_shapes(s, cells[i].0, cells[i].1, st, curr);
            set_power_to_0_spec(s, cells[i].0, cells[i].1, st, curr)
        } else {
            lemma_shapes_refl(s.map);
            s
        };
        lemma_zero_list_shapes(s2, cells, i + 1, st, curr, bound);
        lemma_shapes_trans(s.map, s2.map, zero_list(s2, cells, i + 1, st, curr, bound).map);
    }
}

/// Signals never add, remove or reshape a block of the grid: after a signal
/// arrives ([`set_power_spec`]) or goes away ([`set_power_to_0_spec`]), every
/// cell that was empty is empty and every block keeps its movability,
/// orientation, ports and kind; only signals, textures and events change.
pub proof fn lemma_signals_keep_shapes(s: GridState, x: usize, y: usize, signal: u8, st: Option<SignalType>)
    ensures
        shapes_kept(s.map, set_power_spec(s, x, y, signal, st).map),
        shapes_kept(s.map, set_power_to_0_spec(s, x, y, st, signal).map),
{
    lemma_power_shapes(s, x, y, signal, st);
    lemma_zero_shapes(s, x, y, st, signal);
}

} // verus!
