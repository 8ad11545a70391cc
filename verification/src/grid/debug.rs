use vstd::prelude::*;
use crate::grid::{Block, BlockKind, GridMap};
use crate::grid::redstone::Redstone;

verus! {

/// The pair a cell shows when debugging: a redstone block its signal and 0,
/// an opaque block its strong and weak signals, anything else `(0, 0)`.
pub open spec fn debug_cell(c: Option<Block>) -> (u8, u8) {
    match c {
        Some(b) => match b.kind {
            BlockKind::Redstone(r) => (r.signal, 0),
            BlockKind::Opaque { strong_signal, weak_signal } => (strong_signal, weak_signal),
            _ => (0, 0),
        },
        None => (0, 0),
    }
}

/// The signals of the grid, cell by cell (see [`debug_cell`]).
pub fn debug_map(map: &GridMap) -> (r: [[(u8, u8); 16]; 16])
    ensures
        forall|x: int, y: int| 0 <= x < 16 && 0 <= y < 16 ==> #[trigger] r[x][y] == debug_cell(map[x][y]),
{
    let mut r: [[(u8, u8); 16]; 16] = [[(0, 0); 16]; 16];
    let mut x: usize = 0;
    while x < 16
        invariant
            x <= 16,
            forall|a: int, b: int| 0 <= a < x && 0 <= b < 16 ==> #[trigger] r[a][b] == debug_cell(map[a][b]),
        decreases 16 - x,
    {
        let mut new_row: [(u8, u8); 16] = [(0, 0); 16];
        let mut y: usize = 0;
        while y < 16
            invariant
                x < 16,
                y <= 16,
                forall|b: int| 0 <= b < y ==> #[trigger] new_row[b] == debug_cell(map[x as int][b]),
            decreases 16 - y,
        {
            let v: (u8, u8) = match map[x][y] {
                Some(Block { kind: BlockKind::Redstone(Redstone { signal, .. }), .. }) => (signal, 0),
                Some(Block { kind: BlockKind::Opaque { strong_signal, weak_signal }, .. }) => (strong_signal, weak_signal),
                _ => (0, 0),
            };
            new_row[y] = v;
            y = y + 1;
        }
        let ghost before = r;
        r[x] = new_row;
        assert forall|a: int, b: int| 0 <= a < x + 1 && 0 <= b < 16 implies #[trigger] r[a][b] == debug_cell(map[a][b]) by {
            if a < x {
                assert(r[a] == before[a]);
            }
        }
        x = x + 1;
    }
    r
}

} // verus!
