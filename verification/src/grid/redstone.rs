use vstd::prelude::*;
use crate::chunks::block::{Orientation, SignalType, rotated};
use crate::grid::{
    Ports, GridMap, Block, BlockKind, Mechanism, TextureName, EventListener, GridEvents, GridState, grid_state,
    grid_set, set_cell, in_grid,
};
use crate::grid::cell_map::{cm_insert, cm_remove};
use crate::grid::{WorldMap, keys_in_grid};

verus! {

#[derive(Debug, PartialEq, Eq, Clone, Copy, Structural)]
pub enum RedstoneKind {
    Torch,
    Repeater { tick: i16, countdown: i16 },
    Block,
}

/// The redstone part of a grid block.
#[derive(Debug, PartialEq, Eq, Clone, Copy)]
pub struct Redstone {
    pub signal: u8,
    pub input_ports: Ports,
    pub output_ports: Ports,
    pub kind: RedstoneKind,
}

/// Torches and repeaters are strong sources, redstone blocks weak ones.
pub open spec fn signal_type_of(kind: RedstoneKind) -> SignalType {
    match kind {
        RedstoneKind::Torch => SignalType::Strong(true),
        RedstoneKind::Repeater { .. } => SignalType::Strong(true),
        RedstoneKind::Block => SignalType::Weak(true),
    }
}

pub fn get_signal_type(kind: RedstoneKind) -> (r: SignalType)
    ensures
        r == signal_type_of(kind),
{
    match kind {
        RedstoneKind::Torch | RedstoneKind::Repeater { .. } => SignalType::Strong(true),
        RedstoneKind::Block => SignalType::Weak(true),
    }
}

/// Turns the ports of a block placed facing `orientation`: the port at `i`
/// moves to `(i + k) % 4`, `k` the orientation's port index.
pub fn orient_port(orientation: Orientation, ports: Ports) -> (r: Ports)
    ensures
        r == rotated(orientation, ports),
{
    let shift: usize = match orientation {
        Orientation::Up => 0,
        Orientation::Right => 1,
        Orientation::Down => 2,
        Orientation::Left => 3,
    };
    let mut oriented_ports: Ports = [true; 4];
    let mut i: usize = 0;
    while i < 4
        invariant
            i <= 4,
            shift == orientation.port_idx(),
            forall|j: int| 0 <= j < i ==> #[trigger] oriented_ports[(j + shift) % 4] == ports[j],
        decreases 4 - i,
    {
        oriented_ports[(i + shift) % 4] = ports[i];
        i = i + 1;
    }
    assert(oriented_ports =~= rotated(orientation, ports)) by {
        assert(oriented_ports[(0 + shift) % 4] == ports[0]);
        assert(oriented_ports[(1 + shift) % 4] == ports[1]);
        assert(oriented_ports[(2 + shift) % 4] == ports[2]);
        assert(oriented_ports[(3 + shift) % 4] == ports[3]);
    }
    oriented_ports
}

/// The redstone part of a block placed facing `orientation`.
pub fn place_redstone(
    signal: u8,
    orientation: Orientation,
    kind: RedstoneKind,
    input_ports: Ports,
    output_ports: Ports,
) -> (r: Redstone)
    ensures
        r == (Redstone {
            signal,
            input_ports: rotated(orientation, input_ports),
            output_ports: rotated(orientation, output_ports),
            kind,
        }),
{
    Redstone {
        signal,
        input_ports: orient_port(orientation, input_ports),
        output_ports: orient_port(orientation, output_ports),
        kind,
    }
}

/// The signal a block takes when `signal` reaches it: a redstone block keeps
/// the larger of both, a torch lights to 16 when the signal is 0 and keeps its
/// signal otherwise, a repeater keeps its signal.
pub open spec fn power_update_value(kind: RedstoneKind, current_signal: u8, signal: u8) -> u8 {
    match kind {
        RedstoneKind::Block => if current_signal >= signal {
            current_signal
        } else {
            signal
        },
        RedstoneKind::Torch => if signal == 0 {
            16
        } else {
            current_signal
        },
        RedstoneKind::Repeater { .. } => current_signal,
    }
}

pub fn get_power_update_value(kind: RedstoneKind, current_signal: u8, signal: u8) -> (r: u8)
    ensures
        r == power_update_value(kind, current_signal, signal),
{
    match kind {
        RedstoneKind::Block => if current_signal >= signal {
            current_signal
        } else {
            signal
        },
        RedstoneKind::Torch => {
            if signal == 0 {
                16
            } else {
                current_signal
            }
        },
        RedstoneKind::Repeater { .. } => current_signal,
    }
}


/// The block in `b` listens on side `ind`: redstone and mechanisms by their
/// input ports, opaque blocks on every side.
pub open spec fn input_port_open(b: Option<Block>, ind: int) -> bool {
    match b {
        Some(blk) => match blk.kind {
            BlockKind::Redstone(r) => r.input_ports[ind],
            BlockKind::Opaque { .. } => true,
            BlockKind::Mechanism(m) => m.input_ports[ind],
        },
        None => false,
    }
}

fn required_input_port(blk: &Option<Block>, ind: usize) -> (r: bool)
    requires
        ind < 4,
    ensures
        r == input_port_open(*blk, ind as int),
{
    match blk {
        Some(Block { kind: BlockKind::Redstone(Redstone { input_ports, .. }), .. }) => input_ports[ind],
        Some(Block { kind: BlockKind::Opaque { .. }, .. }) => true,
        Some(Block { kind: BlockKind::Mechanism(Mechanism { input_ports, .. }), .. }) => input_ports[ind],
        None => false,
    }
}

/// The cells that the output ports of `(x, y)` feed, in port order: the
/// neighbour on an open output side, inside the grid, that listens back.
pub open spec fn next_cells(m: GridMap, x: usize, y: usize, ports: Ports) -> Seq<(usize, usize)> {
    let a = if ports[0] && x > 0 && input_port_open(m[x - 1][y as int], 2) {
        seq![((x - 1) as usize, y)]
    } else {
        Seq::empty()
    };
    let b = if ports[1] && y + 1 < 16 && input_port_open(m[x as int][y + 1], 3) {
        seq![(x, (y + 1) as usize)]
    } else {
        Seq::empty()
    };
    let c = if ports[2] && x + 1 < 16 && input_port_open(m[x + 1][y as int], 0) {
        seq![((x + 1) as usize, y)]
    } else {
        Seq::empty()
    };
    let d = if ports[3] && y > 0 && input_port_open(m[x as int][y - 1], 1) {
        seq![(x, (y - 1) as usize)]
    } else {
        Seq::empty()
    };
    a + b + c + d
}

/// Every cell of `s` is in the grid.
pub open spec fn cells_in_grid(s: Seq<(usize, usize)>) -> bool {
    forall|i: int| 0 <= i < s.len() ==> in_grid((#[trigger] s[i]).0 as int, s[i].1 as int)
}

pub fn get_next(map: &GridMap, x: usize, y: usize, output_ports: Ports) -> (r: Vec<(usize, usize)>)
    requires
        x < 16,
        y < 16,
    ensures
        r@ == next_cells(*map, x, y, output_ports),
        cells_in_grid(r@),
{
    let mut next_blk: Vec<(usize, usize)> = Vec::new();
    if output_ports[0] && x > 0 && required_input_port(&map[x - 1][y], 2) {
        next_blk.push((x - 1, y));
    }
    if output_ports[1] && y + 1 < 16 && required_input_port(&map[x][y + 1], 3) {
        next_blk.push((x, y + 1));
    }
    if output_ports[2] && x + 1 < 16 && required_input_port(&map[x + 1][y], 0) {
        next_blk.push((x + 1, y));
    }
    if output_ports[3] && y > 0 && required_input_port(&map[x][y - 1], 1) {
        next_blk.push((x, y - 1));
    }
    assert(next_blk@ =~= next_cells(*map, x, y, output_ports));
    next_blk
}

/// The signal that `b` sends through side `ind`: redstone through its open
/// output ports (with its type), an opaque block its strong signal, else its
/// weak signal (as carried types).
pub open spec fn out_signal(b: Option<Block>, ind: int) -> (u8, Option<SignalType>) {
    match b {
        Some(blk) => match blk.kind {
            BlockKind::Redstone(r) => if r.output_ports[ind] {
                (r.signal, Some(signal_type_of(r.kind)))
            } else {
                (0, None)
            },
            BlockKind::Opaque { strong_signal, weak_signal } => if strong_signal > 0 {
                (strong_signal, Some(SignalType::Strong(false)))
            } else if weak_signal > 0 {
                (weak_signal, Some(SignalType::Weak(false)))
            } else {
                (0, None)
            },
            _ => (0, None),
        },
        None => (0, None),
    }
}

fn prev_output_signal(blk: &Option<Block>, ind: usize) -> (r: (u8, Option<SignalType>))
    requires
        ind < 4,
    ensures
        r == out_signal(*blk, ind as int),
{
    match blk {
        Some(Block { kind: BlockKind::Redstone(Redstone { output_ports, signal, kind, .. }), .. }) => {
            let signal_type = Some(get_signal_type(*kind));
            if output_ports[ind] {
                (*signal, signal_type)
            } else {
                (0, None)
            }
        },
        Some(Block { kind: BlockKind::Opaque { strong_signal, weak_signal }, .. }) => {
            if *strong_signal > 0 {
                (*strong_signal, Some(SignalType::Strong(false)))
            } else if *weak_signal > 0 {
                (*weak_signal, Some(SignalType::Weak(false)))
            } else {
                (0, None)
            }
        },
        _ => (0, None),
    }
}

/// One side of `get_prev_signal`: a stronger signal replaces the best so far.
pub open spec fn prev_step(acc: (u8, Option<SignalType>), open: bool, v: (u8, Option<SignalType>)) -> (u8, Option<SignalType>) {
    if open && v.0 > acc.0 {
        v
    } else {
        acc
    }
}

/// The strongest signal that reaches `(x, y)` through its input ports (the
/// first side wins a tie), one lower, with its type; signals of at most 1
/// give `(0, None)`.
pub open spec fn prev_signal_of(m: GridMap, x: usize, y: usize, inp: Ports) -> (u8, Option<SignalType>) {
    let a0 = (1u8, None::<SignalType>);
    let a1 = prev_step(a0, inp[0] && x > 0, out_signal(m[x - 1][y as int], 2));
    let a2 = prev_step(a1, inp[1] && y + 1 < 16, out_signal(m[x as int][y + 1], 3));
    let a3 = prev_step(a2, inp[2] && x + 1 < 16, out_signal(m[x + 1][y as int], 0));
    let a4 = prev_step(a3, inp[3] && y > 0, out_signal(m[x as int][y - 1], 1));
    ((a4.0 - 1) as u8, a4.1)
}

pub fn get_prev_signal(map: &GridMap, x: usize, y: usize, input_ports: Ports) -> (r: (u8, Option<SignalType>))
    requires
        x < 16,
        y < 16,
    ensures
        r == prev_signal_of(*map, x, y, input_ports),
{
    let mut signal: u8 = 1;
    let mut signal_type: Option<SignalType> = None;
    if input_ports[0] && x > 0 {
        let (curr_signal, curr_signal_type) = prev_output_signal(&map[x - 1][y], 2);
        if curr_signal > signal {
            signal = curr_signal;
            signal_type = curr_signal_type;
        }
    }
    if input_ports[1] && y + 1 < 16 {
        let (curr_signal, curr_signal_type) = prev_output_signal(&map[x][y + 1], 3);
        if curr_signal > signal {
            signal = curr_signal;
            signal_type = curr_signal_type;
        }
    }
    if input_ports[2] && x + 1 < 16 {
        let (curr_signal, curr_signal_type) = prev_output_signal(&map[x + 1][y], 0);
        if curr_signal > signal {
            signal = curr_signal;
            signal_type = curr_signal_type;
        }
    }
    if input_ports[3] && y > 0 {
        let (curr_signal, curr_signal_type) = prev_output_signal(&map[x][y - 1], 1);
        if curr_signal > signal {
            signal = curr_signal;
            signal_type = curr_signal_type;
        }
    }
    (signal - 1, signal_type)
}

pub open spec fn ev_redstone(ev: GridEvents, k: (usize, usize), v: (bool, u8, Option<SignalType>)) -> GridEvents {
    GridEvents { redstone: cm_insert(ev.redstone, k, v), ..ev }
}

pub open spec fn ev_repeater(ev: GridEvents, k: (usize, usize), v: bool) -> GridEvents {
    GridEvents { repeater: cm_insert(ev.repeater, k, v), ..ev }
}

pub open spec fn ev_mechanism(ev: GridEvents, k: (usize, usize), v: bool) -> GridEvents {
    GridEvents { mechanism: cm_insert(ev.mechanism, k, v), ..ev }
}

pub open spec fn ev_entity(ev: GridEvents, k: (usize, usize), v: bool) -> GridEvents {
    GridEvents { entity: cm_insert(ev.entity, k, v), ..ev }
}

/// A signal `input` of type `st` reaching redstone `r` at `(x, y)`: the new
/// redstone, texture and events, and what it sends on (strength, output
/// ports, type). A torch lights with a 0 signal and otherwise is switched off
/// on a later tick; a repeater lights with a signal of 20 or more and
/// otherwise starts counting; a redstone block takes a stronger signal.
/// Nothing reaches redstone through a carried weak signal.
pub open spec fn redstone_power(
    ev: GridEvents,
    x: usize,
    y: usize,
    st: Option<SignalType>,
    r: Redstone,
    tex: TextureName,
    input: u8,
) -> (Redstone, TextureName, GridEvents, Option<(u8, Ports, Option<SignalType>)>) {
    match st {
        Some(SignalType::Weak(false)) => (r, tex, ev, None),
        _ => match r.kind {
            RedstoneKind::Torch => if input == 0 {
                (Redstone { signal: 16, ..r }, TextureName::RedstoneTorch(true), ev, Some((16, r.output_ports, Some(SignalType::Strong(true)))))
            } else {
                (r, tex, ev_redstone(ev, (x, y), (false, 20, None)), None)
            },
            RedstoneKind::Repeater { .. } => if input >= 20 {
                (Redstone { signal: 16, ..r }, TextureName::Repeater(true), ev, Some((16, r.output_ports, Some(SignalType::Strong(true)))))
            } else if input > 0 {
                (r, tex, ev_repeater(ev, (x, y), true), None)
            } else {
                (r, tex, ev, None)
            },
            RedstoneKind::Block => if input > 0 && r.signal < input {
                (
                    Redstone { signal: input, ..r },
                    TextureName::RedstoneDust(true),
                    ev,
                    if input > 1 {
                        Some((input, r.output_ports, Some(SignalType::Weak(true))))
                    } else {
                        None
                    },
                )
            } else {
                (r, tex, ev, None)
            },
        },
    }
}

fn update_redstone_signal(
    signal_type: Option<SignalType>,
    r: Redstone,
    texture_name: TextureName,
    listeners: &mut EventListener,
    input_signal: u8,
    x: usize,
    y: usize,
) -> (res: (Redstone, TextureName, Option<(u8, Ports, Option<SignalType>)>))
    ensures
        (res.0, res.1, final(listeners)@, res.2) == redstone_power(old(listeners)@, x, y, signal_type, r, texture_name, input_signal),
{
    match signal_type {
        Some(SignalType::Weak(false)) => (r, texture_name, None),
        _ => match r.kind {
            RedstoneKind::Torch => {
                if input_signal == 0 {
                    (Redstone { signal: 16, ..r }, TextureName::RedstoneTorch(true), Some((16, r.output_ports, Some(SignalType::Strong(true)))))
                } else {
                    listeners.redstone_state.insert((x, y), (false, 20, None));
                    (r, texture_name, None)
                }
            },
            RedstoneKind::Repeater { .. } => {
                if input_signal >= 20 {
                    (Redstone { signal: 16, ..r }, TextureName::Repeater(true), Some((16, r.output_ports, Some(SignalType::Strong(true)))))
                } else if input_signal > 0 {
                    listeners.repeater_state.insert((x, y), true);
                    (r, texture_name, None)
                } else {
                    (r, texture_name, None)
                }
            },
            RedstoneKind::Block => {
                if input_signal > 0 && r.signal < input_signal {
                    let out = if input_signal > 1 {
                        Some((input_signal, r.output_ports, Some(SignalType::Weak(true))))
                    } else {
                        None
                    };
                    (Redstone { signal: input_signal, ..r }, TextureName::RedstoneDust(true), out)
                } else {
                    (r, texture_name, None)
                }
            },
        },
    }
}

/// The signal at `(x, y)` going off, from a previous strength `prev`: the new
/// redstone, texture and events, with the signal the block had and its type.
/// A torch or a repeater goes off at once for a previous signal of 20 or more
/// and is otherwise scheduled; a redstone block goes off when the previous
/// signal was above its own.
pub open spec fn redstone_zero(
    ev: GridEvents,
    x: usize,
    y: usize,
    st: Option<SignalType>,
    r: Redstone,
    tex: TextureName,
    prev: u8,
) -> (Redstone, TextureName, GridEvents, Option<(u8, Option<SignalType>)>) {
    match st {
        Some(SignalType::Weak(false)) => (r, tex, ev, None),
        _ => {
            let res = Some((r.signal, Some(signal_type_of(r.kind))));
            match r.kind {
                RedstoneKind::Torch => if prev < 20 {
                    (r, tex, ev_redstone(ev, (x, y), (true, 0, None)), res)
                } else {
                    (Redstone { signal: 0, ..r }, TextureName::RedstoneTorch(false), ev, res)
                },
                RedstoneKind::Repeater { .. } => if prev < 20 {
                    (r, tex, ev_repeater(ev, (x, y), false), res)
                } else {
                    (Redstone { signal: 0, ..r }, TextureName::Repeater(false), ev, res)
                },
                RedstoneKind::Block => if prev > r.signal {
                    (Redstone { signal: 0, ..r }, TextureName::RedstoneDust(false), ev, res)
                } else {
                    (r, tex, ev, res)
                },
            }
        },
    }
}

fn update_redstone_signal_to_0(
    x: usize,
    y: usize,
    signal_type: Option<SignalType>,
    r: Redstone,
    texture_name: TextureName,
    prev_signal: u8,
    listeners: &mut EventListener,
) -> (res: (Redstone, TextureName, Option<(u8, Option<SignalType>)>))
    ensures
        (res.0, res.1, final(listeners)@, res.2) == redstone_zero(old(listeners)@, x, y, signal_type, r, texture_name, prev_signal),
{
    match signal_type {
        Some(SignalType::Weak(false)) => (r, texture_name, None),
        _ => {
            let curr_signal = r.signal;
            let res = Some((curr_signal, Some(get_signal_type(r.kind))));
            match r.kind {
                RedstoneKind::Torch => {
                    if prev_signal < 20 {
                        listeners.redstone_state.insert((x, y), (true, 0, None));
                        (r, texture_name, res)
                    } else {
                        (Redstone { signal: 0, ..r }, TextureName::RedstoneTorch(false), res)
                    }
                },
                RedstoneKind::Repeater { .. } => {
                    if prev_signal < 20 {
                        listeners.repeater_state.insert((x, y), false);
                        (r, texture_name, res)
                    } else {
                        (Redstone { signal: 0, ..r }, TextureName::Repeater(false), res)
                    }
                },
                RedstoneKind::Block => {
                    if prev_signal > curr_signal {
                        (Redstone { signal: 0, ..r }, TextureName::RedstoneDust(false), res)
                    } else {
                        (r, texture_name, res)
                    }
                },
            }
        },
    }
}


/// A signal `input` of type `st` reaching cell `(x, y)`, before it goes on:
/// the state after the cell took it, and what it sends on. Redstone goes by
/// [`redstone_power`]; an opaque block raises its strong (weak) signal for a
/// strong (weak) source and passes it on every side as a carried type; a
/// mechanism takes a stronger signal and is switched on.
pub open spec fn power_local(s: GridState, x: usize, y: usize, input: u8, st: Option<SignalType>) -> (GridState, Option<(u8, Ports, Option<SignalType>)>) {
    match s.map[x as int][y as int] {
        Some(b) => match b.kind {
            BlockKind::Redstone(r) => {
                let u = redstone_power(s.events, x, y, st, r, b.texture_name, input);
                (
                    GridState {
                        map: grid_set(s.map, x as int, y as int, Some(Block { kind: BlockKind::Redstone(u.0), texture_name: u.1, ..b })),
                        events: u.2,
                    },
                    u.3,
                )
            },
            BlockKind::Opaque { strong_signal, weak_signal } => match st {
                Some(SignalType::Strong(true)) => (
                    GridState {
                        map: grid_set(
                            s.map,
                            x as int,
                            y as int,
                            Some(Block { kind: BlockKind::Opaque { strong_signal: if input >= strong_signal { input } else { strong_signal }, weak_signal }, ..b }),
                        ),
                        ..s
                    },
                    Some((input, [true, true, true, true], Some(SignalType::Strong(false)))),
                ),
                Some(SignalType::Weak(true)) => (
                    GridState {
                        map: grid_set(
                            s.map,
                            x as int,
                            y as int,
                            Some(Block { kind: BlockKind::Opaque { strong_signal, weak_signal: if input >= weak_signal { input } else { weak_signal } }, ..b }),
                        ),
                        ..s
                    },
                    Some((input, [true, true, true, true], Some(SignalType::Weak(false)))),
                ),
                _ => (s, None),
            },
            BlockKind::Mechanism(m) => if input > m.signal {
                (
                    GridState {
                        map: grid_set(s.map, x as int, y as int, Some(Block { kind: BlockKind::Mechanism(Mechanism { signal: input, ..m }), ..b })),
                        events: ev_mechanism(s.events, (x, y), true),
                    },
                    None,
                )
            } else {
                (s, None)
            },
        },
        None => (s, None),
    }
}

/// Recursion measure of [`set_power_spec`]: a 0 signal may light a torch.
pub open spec fn power_measure(input: u8) -> int {
    if input == 0 {
        256
    } else {
        input as int
    }
}

/// The propagation of a signal `input` of type `st` arriving at `(x, y)`: the
/// cell takes it ([`power_local`]); when it sends something on, the cell is
/// marked for redrawing and each cell it feeds ([`next_cells`]) receives the
/// signal one lower, while that is above 0.
pub open spec fn set_power_spec(s: GridState, x: usize, y: usize, input: u8, st: Option<SignalType>) -> GridState
    decreases power_measure(input), 1int, 0int,
{
    if !in_grid(x as int, y as int) {
        s
    } else {
        let l = power_local(s, x, y, input, st);
        match l.1 {
            None => l.0,
            Some(v) => {
                let s2 = GridState { events: ev_entity(l.0.events, (x, y), false), ..l.0 };
                power_list(s2, next_cells(s2.map, x, y, v.1), 0, v.0, v.2, power_measure(input))
            },
        }
    }
}

/// The signal `sig` going on to the cells of `cells` from index `i` on.
pub open spec fn power_list(
    s: GridState,
    cells: Seq<(usize, usize)>,
    i: int,
    sig: u8,
    st: Option<SignalType>,
    bound: int,
) -> GridState
    decreases bound, 0int, cells.len() - i,
{
    if i < 0 || i >= cells.len() {
        s
    } else {
        let s2 = if sig > 1 && power_measure((sig - 1) as u8) < bound {
            set_power_spec(s, cells[i].0, cells[i].1, (sig - 1) as u8, st)
        } else {
            s
        };
        power_list(s2, cells, i + 1, sig, st, bound)
    }
}

fn power_local_exec(
    map: &mut GridMap,
    x: usize,
    y: usize,
    input_signal: u8,
    signal_type: Option<SignalType>,
    listeners: &mut EventListener,
) -> (values: Option<(u8, Ports, Option<SignalType>)>)
    requires
        x < 16,
        y < 16,
    ensures
        (grid_state(*final(map), *final(listeners)), values) == power_local(grid_state(*old(map), *old(listeners)), x, y, input_signal, signal_type),
{
    let blk = map[x][y];
    match blk {
        Some(b) => match b.kind {
            BlockKind::Redstone(r) => {
                let (r2, t2, res) = update_redstone_signal(signal_type, r, b.texture_name, listeners, input_signal, x, y);
                set_cell(map, x, y, Some(Block { kind: BlockKind::Redstone(r2), texture_name: t2, ..b }));
                res
            },
            BlockKind::Opaque { strong_signal, weak_signal } => match signal_type {
                Some(SignalType::Strong(true)) => {
                    let v = if input_signal >= strong_signal { input_signal } else { strong_signal };
                    set_cell(map, x, y, Some(Block { kind: BlockKind::Opaque { strong_signal: v, weak_signal }, ..b }));
                    Some((input_signal, [true, true, true, true], Some(SignalType::Strong(false))))
                },
                Some(SignalType::Weak(true)) => {
                    let v = if input_signal >= weak_signal { input_signal } else { weak_signal };
                    set_cell(map, x, y, Some(Block { kind: BlockKind::Opaque { strong_signal, weak_signal: v }, ..b }));
                    Some((input_signal, [true, true, true, true], Some(SignalType::Weak(false))))
                },
                _ => None,
            },
            BlockKind::Mechanism(m) => {
                if input_signal > m.signal {
                    listeners.mechanism_state.insert((x, y), true);
                    set_cell(map, x, y, Some(Block { kind: BlockKind::Mechanism(Mechanism { signal: input_signal, ..m }), ..b }));
                }
                None
            },
        },
        None => None,
    }
}

/// Propagates a signal `input_signal` of type `signal_type` arriving at cell
/// `(x, y)`; see [`set_power_spec`].
pub fn set_power(
    map: &mut GridMap,
    x: usize,
    y: usize,
    input_signal: u8,
    signal_type: Option<SignalType>,
    listeners: &mut EventListener,
)
    requires
        x < 16,
        y < 16,
    ensures
        grid_state(*final(map), *final(listeners)) == set_power_spec(grid_state(*old(map), *old(listeners)), x, y, input_signal, signal_type),
    decreases power_measure(input_signal),
{
    let values = power_local_exec(map, x, y, input_signal, signal_type, listeners);
    match values {
        None => {
            return;
        },
        Some((signal, output_ports, out_type)) => {
            listeners.entity_map_update.insert((x, y), false);
            let next_blocks = get_next(map, x, y, output_ports);
            let ghost s2 = grid_state(*map, *listeners);
            let ghost bound = power_measure(input_signal);
            proof {
                assert(signal > 1 ==> power_measure((signal - 1) as u8) < bound);
            }
            let mut i: usize = 0;
            while i < next_blocks.len()
                invariant
                    i <= next_blocks@.len(),
                    cells_in_grid(next_blocks@),
                    bound == power_measure(input_signal),
                    signal > 1 ==> power_measure((signal - 1) as u8) < bound,
                    power_list(s2, next_blocks@, 0, signal, out_type, bound) == power_list(
                        grid_state(*map, *listeners),
                        next_blocks@,
                        i as int,
                        signal,
                        out_type,
                        bound,
                    ),
                decreases next_blocks@.len() - i,
            {
                let (next_x, next_y) = next_blocks[i];
                if signal > 1 {
                    set_power(map, next_x, next_y, signal - 1, out_type, listeners);
                }
                i = i + 1;
            }
        },
    }
}


/// A signal of strength `prev` and type `st` going off at cell `(x, y)`: the
/// state after the cell reacted, and (output ports, input ports, the signal
/// the cell had, the type it passes on). Redstone goes by [`redstone_zero`];
/// an opaque block loses the strong (weak) signal that was below `prev`; a
/// mechanism whose signal was below `prev` is switched off.
pub open spec fn zero_local(s: GridState, x: usize, y: usize, st: Option<SignalType>, prev: u8) -> (GridState, Option<(Ports, Ports, u8, Option<SignalType>)>) {
    match s.map[x as int][y as int] {
        Some(b) => match b.kind {
            BlockKind::Redstone(r) => {
                let u = redstone_zero(s.events, x, y, st, r, b.texture_name, prev);
                (
                    GridState {
                        map: grid_set(s.map, x as int, y as int, Some(Block { kind: BlockKind::Redstone(u.0), texture_name: u.1, ..b })),
                        events: u.2,
                    },
                    match u.3 {
                        None => None,
                        Some(v) => Some((r.output_ports, r.input_ports, v.0, v.1)),
                    },
                )
            },
            BlockKind::Opaque { strong_signal, weak_signal } => match st {
                Some(SignalType::Weak(true)) => (
                    GridState {
                        map: grid_set(
                            s.map,
                            x as int,
                            y as int,
                            Some(Block { kind: BlockKind::Opaque { strong_signal, weak_signal: if prev > weak_signal { 0 } else { weak_signal } }, ..b }),
                        ),
                        ..s
                    },
                    Some(([true, true, true, true], [true, true, true, true], weak_signal, Some(SignalType::Weak(false)))),
                ),
                Some(SignalType::Strong(true)) => (
                    GridState {
                        map: grid_set(
                            s.map,
                            x as int,
                            y as int,
                            Some(Block { kind: BlockKind::Opaque { strong_signal: if prev > strong_signal { 0 } else { strong_signal }, weak_signal }, ..b }),
                        ),
                        ..s
                    },
                    Some(([true, true, true, true], [true, true, true, true], strong_signal, Some(SignalType::Strong(false)))),
                ),
                _ => (s, None),
            },
            BlockKind::Mechanism(m) => (
                if prev > m.signal {
                    GridState {
                        map: grid_set(s.map, x as int, y as int, Some(Block { kind: BlockKind::Mechanism(Mechanism { signal: 0, ..m }), ..b })),
                        events: ev_mechanism(s.events, (x, y), false),
                    }
                } else {
                    s
                },
                Some(([false, false, false, false], m.input_ports, m.signal, None)),
            ),
        },
        None => (s, None),
    }
}

/// The fall of a signal of strength `prev` and type `st` at `(x, y)`: the cell
/// reacts ([`zero_local`]); if it had a signal, below `prev`, it is marked for
/// redrawing, the fall goes on to each cell it feeds, and then the cell takes
/// again the strongest signal around it ([`prev_signal_of`]) when that is at
/// least one below what it had.
pub open spec fn set_power_to_0_spec(s: GridState, x: usize, y: usize, st: Option<SignalType>, prev: u8) -> GridState
    decreases prev, 1int, 0int,
{
    if !in_grid(x as int, y as int) {
        s
    } else {
        let l = zero_local(s, x, y, st, prev);
        match l.1 {
            None => l.0,
            Some(v) => {
                let curr = v.2;
                if curr >= prev || curr == 0 {
                    l.0
                } else {
                    let s2 = GridState { events: ev_entity(l.0.events, (x, y), false), ..l.0 };
                    let s3 = zero_list(s2, next_cells(s2.map, x, y, v.0), 0, v.3, curr, prev as int);
                    let p = prev_signal_of(s3.map, x, y, v.1);
                    if p.0 + 1 >= curr {
                        set_power_spec(s3, x, y, p.0, p.1)
                    } else {
                        s3
                    }
                }
            },
        }
    }
}

/// The fall from `curr` going on to the cells of `cells` from index `i` on.
pub open spec fn zero_list(
    s: GridState,
    cells: Seq<(usize, usize)>,
    i: int,
    st: Option<SignalType>,
    curr: u8,
    bound: int,
) -> GridState
    decreases bound, 0int, cells.len() - i,
{
    if i < 0 || i >= cells.len() {
        s
    } else {
        let s2 = if (curr as int) < bound {
            set_power_to_0_spec(s, cells[i].0, cells[i].1, st, curr)
        } else {
            s
        };
        zero_list(s2, cells, i + 1, st, curr, bound)
    }
}

fn zero_local_exec(
    map: &mut GridMap,
    x: usize,
    y: usize,
    signal_type: Option<SignalType>,
    prev_signal: u8,
    listeners: &mut EventListener,
) -> (values: Option<(Ports, Ports, u8, Option<SignalType>)>)
    requires
        x < 16,
        y < 16,
    ensures
        (grid_state(*final(map), *final(listeners)), values) == zero_local(grid_state(*old(map), *old(listeners)), x, y, signal_type, prev_signal),
{
    let blk = map[x][y];
    match blk {
        Some(b) => match b.kind {
            BlockKind::Redstone(r) => {
                let (r2, t2, res) = update_redstone_signal_to_0(x, y, signal_type, r, b.texture_name, prev_signal, listeners);
                set_cell(map, x, y, Some(Block { kind: BlockKind::Redstone(r2), texture_name: t2, ..b }));
                match res {
                    None => None,
                    Some((curr_signal, st)) => Some((r.output_ports, r.input_ports, curr_signal, st)),
                }
            },
            BlockKind::Opaque { strong_signal, weak_signal } => match signal_type {
                Some(SignalType::Weak(true)) => {
                    let curr_signal = weak_signal;
                    let v = if prev_signal > curr_signal { 0 } else { weak_signal };
                    set_cell(map, x, y, Some(Block { kind: BlockKind::Opaque { strong_signal, weak_signal: v }, ..b }));
                    Some(([true, true, true, true], [true, true, true, true], curr_signal, Some(SignalType::Weak(false))))
                },
                Some(SignalType::Strong(true)) => {
                    let curr_signal = strong_signal;
                    let v = if prev_signal > curr_signal { 0 } else { strong_signal };
                    set_cell(map, x, y, Some(Block { kind: BlockKind::Opaque { strong_signal: v, weak_signal }, ..b }));
                    Some(([true, true, true, true], [true, true, true, true], curr_signal, Some(SignalType::Strong(false))))
                },
                _ => None,
            },
            BlockKind::Mechanism(m) => {
                let curr_signal = m.signal;
                if prev_signal > curr_signal {
                    set_cell(map, x, y, Some(Block { kind: BlockKind::Mechanism(Mechanism { signal: 0, ..m }), ..b }));
                    listeners.mechanism_state.insert((x, y), false);
                }
                Some(([false, false, false, false], m.input_ports, curr_signal, None))
            },
        },
        None => None,
    }
}

/// Takes away a signal of strength `prev_signal` and type `signal_type` at
/// cell `(x, y)`; see [`set_power_to_0_spec`].
pub fn set_power_to_0(
    map: &mut GridMap,
    x: usize,
    y: usize,
    signal_type: Option<SignalType>,
    prev_signal: u8,
    listeners: &mut EventListener,
)
    requires
        x < 16,
        y < 16,
    ensures
        grid_state(*final(map), *final(listeners)) == set_power_to_0_spec(grid_state(*old(map), *old(listeners)), x, y, signal_type, prev_signal),
    decreases prev_signal,
{
    let values = zero_local_exec(map, x, y, signal_type, prev_signal, listeners);
    let (output_ports, input_ports, curr_signal, out_type) = match values {
        None => {
            return;
        },
        Some(val) => val,
    };
    if curr_signal >= prev_signal || curr_signal == 0 {
        return;
    }
    listeners.entity_map_update.insert((x, y), false);
    let next_coord = get_next(map, x, y, output_ports);
    let ghost s2 = grid_state(*map, *listeners);
    let mut i: usize = 0;
    while i < next_coord.len()
        invariant
            i <= next_coord@.len(),
            cells_in_grid(next_coord@),
            curr_signal < prev_signal,
            x < 16,
            y < 16,
            zero_list(s2, next_coord@, 0, out_type, curr_signal, prev_signal as int) == zero_list(
                grid_state(*map, *listeners),
                next_coord@,
                i as int,
                out_type,
                curr_signal,
                prev_signal as int,
            ),
        decreases next_coord@.len() - i,
    {
        let (next_x, next_y) = next_coord[i];
        set_power_to_0(map, next_x, next_y, out_type, curr_signal, listeners);
        i = i + 1;
    }
    let (prev, prev_type) = get_prev_signal(map, x, y, input_ports);
    if (prev as u16) + 1 >= (curr_signal as u16) {
        set_power(map, x, y, prev, prev_type, listeners);
    }
}


/// One repeater event of `repeater_listener` at cell `k`, switched `on` or off.
/// A repeater at rest (negative countdown) whose output already agrees with
/// `on` is done (its event removed); otherwise it starts counting from
/// `tick`. A positive countdown counts down; at 0 the repeater schedules its
/// update (lighting with a 20 signal when dark, going off from 30 when lit)
/// and rests at -1. Cells without a repeater are left alone.
pub open spec fn repeater_step(s: GridState, k: (usize, usize), on: bool) -> GridState {
    let x = k.0 as int;
    let y = k.1 as int;
    match s.map[x][y] {
        Some(b) => match b.kind {
            BlockKind::Redstone(r) => match r.kind {
                RedstoneKind::Repeater { tick, countdown } => {
                    let signal = r.signal;
                    let (c1, ev1) = if countdown < 0 {
                        if (on && signal > 0) || (!on && signal == 0) {
                            (countdown as int, GridEvents { repeater: cm_remove(s.events.repeater, k), ..s.events })
                        } else {
                            (tick as int, s.events)
                        }
                    } else {
                        (countdown as int, s.events)
                    };
                    let (c2, ev2) = if c1 > 0 {
                        (c1 - 1, ev1)
                    } else if c1 == 0 {
                        (-1, ev_redstone(ev1, k, if signal == 0 { (true, 20u8, None) } else { (false, 30u8, None) }))
                    } else {
                        (c1, ev1)
                    };
                    GridState {
                        map: grid_set(
                            s.map,
                            x,
                            y,
                            Some(Block { kind: BlockKind::Redstone(Redstone { kind: RedstoneKind::Repeater { tick, countdown: c2 as i16 }, ..r }), ..b }),
                        ),
                        events: ev2,
                    }
                },
                _ => s,
            },
            _ => s,
        },
        None => s,
    }
}

/// The repeater events of `entries` from index `i` on, in order.
pub open spec fn repeater_fold(s: GridState, entries: Seq<((usize, usize), bool)>, i: int) -> GridState
    decreases entries.len() - i,
{
    if i < 0 || i >= entries.len() {
        s
    } else {
        repeater_fold(repeater_step(s, entries[i].0, entries[i].1), entries, i + 1)
    }
}

fn repeater_step_exec(map: &mut GridMap, listeners: &mut EventListener, x: usize, y: usize, on: bool)
    requires
        x < 16,
        y < 16,
    ensures
        grid_state(*final(map), *final(listeners)) == repeater_step(grid_state(*old(map), *old(listeners)), (x, y), on),
{
    let blk = map[x][y];
    if let Some(b) = blk {
        if let BlockKind::Redstone(r) = b.kind {
            if let RedstoneKind::Repeater { tick, countdown } = r.kind {
                let signal = r.signal;
                let mut countdown = countdown;
                if countdown < 0 {
                    if (on && signal > 0) || (!on && signal == 0) {
                        listeners.repeater_state.remove((x, y));
                    } else {
                        countdown = tick;
                    }
                }
                if countdown > 0 {
                    countdown = countdown - 1;
                } else if countdown == 0 {
                    countdown = countdown - 1;
                    if signal == 0 {
                        listeners.redstone_state.insert((x, y), (true, 20, None));
                    } else {
                        listeners.redstone_state.insert((x, y), (false, 30, None));
                    }
                }
                set_cell(
                    map,
                    x,
                    y,
                    Some(Block { kind: BlockKind::Redstone(Redstone { kind: RedstoneKind::Repeater { tick, countdown }, ..r }), ..b }),
                );
            }
        }
    }
}

/// Advances every counting repeater by one tick, in the order of the events;
/// see [`repeater_step`].
pub fn repeater_listener(listeners: &mut EventListener, world_map: &mut WorldMap)
    requires
        keys_in_grid(old(listeners)@.repeater),
    ensures
        grid_state(final(world_map).0, *final(listeners)) == repeater_fold(
            grid_state(old(world_map).0, *old(listeners)),
            old(listeners)@.repeater,
            0,
        ),
{
    let repeater_listeners = listeners.repeater_state.to_vec();
    let ghost start = grid_state(world_map.0, *listeners);
    let mut i: usize = 0;
    while i < repeater_listeners.len()
        invariant
            i <= repeater_listeners@.len(),
            keys_in_grid(repeater_listeners@),
            repeater_fold(start, repeater_listeners@, 0) == repeater_fold(
                grid_state(world_map.0, *listeners),
                repeater_listeners@,
                i as int,
            ),
        decreases repeater_listeners@.len() - i,
    {
        let ((x, y), on) = repeater_listeners[i];
        repeater_step_exec(&mut world_map.0, listeners, x, y, on);
        i = i + 1;
    }
}

/// The delayed torch and repeater updates of `entries` from index `i` on:
/// each lights its cell ([`set_power_spec`]) or takes its signal away
/// ([`set_power_to_0_spec`]).
pub open spec fn torch_fold(s: GridState, entries: Seq<((usize, usize), (bool, u8, Option<SignalType>))>, i: int) -> GridState
    decreases entries.len() - i,
{
    if i < 0 || i >= entries.len() {
        s
    } else {
        let e = entries[i];
        let s2 = if e.1.0 {
            set_power_spec(s, e.0.0, e.0.1, e.1.1, e.1.2)
        } else {
            set_power_to_0_spec(s, e.0.0, e.0.1, e.1.2, e.1.1)
        };
        torch_fold(s2, entries, i + 1)
    }
}

/// Runs the delayed torch and repeater updates: the pending ones are taken
/// out of the listener and applied in order ([`torch_fold`]).
pub fn redstone_torch_delayed_listener(listeners: &mut EventListener, world_map: &mut WorldMap)
    requires
        keys_in_grid(old(listeners)@.redstone),
    ensures
        grid_state(final(world_map).0, *final(listeners)) == torch_fold(
            GridState {
                map: old(world_map).0,
                events: GridEvents { redstone: Seq::empty(), ..old(listeners)@ },
            },
            old(listeners)@.redstone,
            0,
        ),
{
    let torch_listeners = listeners.redstone_state.to_vec();
    listeners.redstone_state.clear();
    let ghost start = grid_state(world_map.0, *listeners);
    assert(start == GridState { map: old(world_map).0, events: GridEvents { redstone: Seq::empty(), ..old(listeners)@ } });
    let mut i: usize = 0;
    while i < torch_listeners.len()
        invariant
            i <= torch_listeners@.len(),
            keys_in_grid(torch_listeners@),
            torch_fold(start, torch_listeners@, 0) == torch_fold(grid_state(world_map.0, *listeners), torch_listeners@, i as int),
        decreases torch_listeners@.len() - i,
    {
        let ((x, y), (on, signal, signal_type)) = torch_listeners[i];
        if on {
            set_power(&mut world_map.0, x, y, signal, signal_type, listeners);
        } else {
            set_power_to_0(&mut world_map.0, x, y, signal_type, signal, listeners);
        }
        i = i + 1;
    }
}

} // verus!
