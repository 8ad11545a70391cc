use vstd::prelude::*;
use crate::grid::{Block, BlockKind, Mechanism, MechanismKind, TextureName};
use crate::chunks::block::Orientation;
use crate::grid::redstone::{Redstone, RedstoneKind};

verus! {

/// The sprite index of a block of the grid: a lit torch 1, a redstone block
/// its signal, a repeater `2 * tick` plus 1 when lit, an extended piston 1,
/// everything else 0.
pub open spec fn state_index(blk: Block) -> usize {
    match blk.kind {
        BlockKind::Redstone(r) => match r.kind {
            RedstoneKind::Torch => if r.signal > 0 {
                1
            } else {
                0
            },
            RedstoneKind::Block => r.signal as usize,
            RedstoneKind::Repeater { tick, .. } => (tick * 2 + if r.signal > 0 {
                1int
            } else {
                0int
            }) as usize,
        },
        BlockKind::Mechanism(m) => match m.kind {
            MechanismKind::ExtendedPiston => 1,
            MechanismKind::StickyExtendedPiston => 1,
            _ => 0,
        },
        _ => 0,
    }
}

pub fn get_state(blk: Block) -> (r: usize)
    requires
        sprite_ok(blk),
    ensures
        r == state_index(blk),
{
    match blk.kind {
        BlockKind::Redstone(Redstone { signal, kind, .. }) => {
            match kind {
                RedstoneKind::Torch => {
                    if signal > 0 {
                        1
                    } else {
                        0
                    }
                },
                RedstoneKind::Block => signal as usize,
                RedstoneKind::Repeater { tick, .. } => {
                    let col_ind: i16 = if signal > 0 {
                        1
                    } else {
                        0
                    };
                    let row_ind = tick * 2;
                    (row_ind + col_ind) as usize
                },
            }
        },
        BlockKind::Mechanism(Mechanism { kind, .. }) => {
            match kind {
                MechanismKind::ExtendedPiston | MechanismKind::StickyExtendedPiston => 1,
                _ => 0,
            }
        },
        _ => 0,
    }
}

/// Quarter turns, counter-clockwise, that draw a block facing `o`.
pub open spec fn quarter_turns(o: Orientation) -> u8 {
    match o {
        Orientation::Up => 0,
        Orientation::Right => 3,
        Orientation::Down => 2,
        Orientation::Left => 1,
    }
}

/// A repeater's delay is small enough for its sprite index.
pub open spec fn sprite_ok(blk: Block) -> bool {
    blk.kind matches BlockKind::Redstone(r) ==> (r.kind matches RedstoneKind::Repeater { tick, .. } ==> -16384
        <= tick <= 16383)
}

/// What draws a cell of the grid: its texture, the sprite index in it and the
/// quarter turns of the sprite. An empty cell draws air, unturned.
pub fn cell_sprite(cell: Option<Block>) -> (r: (TextureName, usize, u8))
    requires
        cell matches Some(b) ==> sprite_ok(b),
    ensures
        r == (match cell {
            None => (TextureName::Air, 0usize, 0u8),
            Some(b) => (b.texture_name, state_index(b), quarter_turns(b.orientation)),
        }),
{
    match cell {
        None => (TextureName::Air, 0, 0),
        Some(b) => {
            let turns: u8 = match b.orientation {
                Orientation::Up => 0,
                Orientation::Right => 3,
                Orientation::Down => 2,
                Orientation::Left => 1,
            };
            (b.texture_name, get_state(b), turns)
        },
    }
}

} // verus!
