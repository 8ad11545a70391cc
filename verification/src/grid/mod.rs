use vstd::prelude::*;
use crate::chunks::block::{Orientation, SignalType};
use crate::grid::cell_map::CellMap;
use crate::grid::redstone::Redstone;

pub mod cell_map;
pub mod redstone;
pub mod texture;
pub mod laws;
pub mod debug;
pub mod signal_laws;

verus! {

/// Rows and columns of the grid world.
pub const MAP_SIZE: (usize, usize) = (16, 16);

/// One flag per side: Up, Right, Down, Left.
pub type Ports = [bool; 4];

/// Textures of the grid world; the flag tells whether the block is lit
/// (or extended, for pistons).
#[derive(Debug, PartialEq, Eq, Clone, Copy, Structural)]
pub enum TextureName {
    Dirt,
    RedstoneTorch(bool),
    RedstoneCross(bool),
    RedstoneDust(bool),
    Piston { extended: bool },
    StickyPiston { extended: bool },
    PistonHead,
    StickyPistonHead,
    Repeater(bool),
    Air,
}

#[derive(Debug, PartialEq, Eq, Clone, Copy, Structural)]
pub enum MechanismKind {
    Piston,
    ExtendedPiston,
    StickyPiston,
    StickyExtendedPiston,
}

/// A mechanism: what it is, the sides it listens on and the signal it receives.
#[derive(Debug, PartialEq, Eq, Clone, Copy)]
pub struct Mechanism {
    pub kind: MechanismKind,
    pub input_ports: Ports,
    pub signal: u8,
}

/// What a block of the grid is: redstone, an opaque block carrying a strong
/// and a weak signal, or a mechanism.
#[derive(Debug, PartialEq, Eq, Clone, Copy)]
pub enum BlockKind {
    Redstone(Redstone),
    Opaque { strong_signal: u8, weak_signal: u8 },
    Mechanism(Mechanism),
}

#[derive(Debug, PartialEq, Eq, Clone, Copy)]
pub struct Block {
    pub movable: bool,
    pub orientation: Orientation,
    pub texture_name: TextureName,
    pub kind: BlockKind,
}

/// The grid, indexed `[x][y]`.
pub type GridMap = [[Option<Block>; 16]; 16];

/// The world of the grid simulation.
pub struct WorldMap(pub GridMap);

/// A cell of the grid.
pub open spec fn in_grid(x: int, y: int) -> bool {
    0 <= x < 16 && 0 <= y < 16
}

/// Every key of `s` is a cell of the grid.
pub open spec fn keys_in_grid<V>(s: Seq<((usize, usize), V)>) -> bool {
    forall|i: int| 0 <= i < s.len() ==> in_grid((#[trigger] s[i]).0.0 as int, s[i].0.1 as int)
}

/// The events that the grid hands to the next tick: delayed torch and
/// repeater updates (on/off, signal, type), repeaters counting, mechanisms to
/// switch, cells to redraw (`true` when the texture changed).
#[derive(Debug)]
pub struct EventListener {
    pub redstone_state: CellMap<(bool, u8, Option<SignalType>)>,
    pub repeater_state: CellMap<bool>,
    pub mechanism_state: CellMap<bool>,
    pub entity_map_update: CellMap<bool>,
}

/// The entries of the event maps of an [`EventListener`], in order.
pub struct GridEvents {
    pub redstone: Seq<((usize, usize), (bool, u8, Option<SignalType>))>,
    pub repeater: Seq<((usize, usize), bool)>,
    pub mechanism: Seq<((usize, usize), bool)>,
    pub entity: Seq<((usize, usize), bool)>,
}

impl View for EventListener {
    type V = GridEvents;

    open spec fn view(&self) -> GridEvents {
        GridEvents {
            redstone: self.redstone_state@,
            repeater: self.repeater_state@,
            mechanism: self.mechanism_state@,
            entity: self.entity_map_update@,
        }
    }
}

impl EventListener {
    pub fn new() -> (r: EventListener)
        ensures
            r@.redstone == Seq::<((usize, usize), (bool, u8, Option<SignalType>))>::empty(),
            r@.repeater == Seq::<((usize, usize), bool)>::empty(),
            r@.mechanism == Seq::<((usize, usize), bool)>::empty(),
            r@.entity == Seq::<((usize, usize), bool)>::empty(),
    {
        EventListener {
            redstone_state: CellMap::new(),
            repeater_state: CellMap::new(),
            mechanism_state: CellMap::new(),
            entity_map_update: CellMap::new(),
        }
    }
}

/// The state that the grid simulation reads and changes.
pub struct GridState {
    pub map: GridMap,
    pub events: GridEvents,
}

pub open spec fn grid_state(map: GridMap, listeners: EventListener) -> GridState {
    GridState { map, events: listeners@ }
}

/// `m` with cell `(x, y)` set to `b`.
pub open spec fn grid_set(m: GridMap, x: int, y: int, b: Option<Block>) -> GridMap {
    vstd::array::spec_array_update(m, x, vstd::array::spec_array_update(m[x], y, b))
}

/// Writes `b` at cell `(x, y)`.
pub fn set_cell(map: &mut GridMap, x: usize, y: usize, b: Option<Block>)
    requires
        x < 16,
        y < 16,
    ensures
        *final(map) == grid_set(*old(map), x as int, y as int, b),
{
    map[x][y] = b;
    assert(map[x as int] =~= vstd::array::spec_array_update(old(map)[x as int], y as int, b));
    assert(*map =~= grid_set(*old(map), x as int, y as int, b));
}

} // verus!
