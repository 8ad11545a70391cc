use vstd::prelude::*;
use crate::texture::TextureName;

pub mod redstone;
pub mod mechanism;

verus! {

/// A block of the world, with its redstone and mechanism parts.
#[derive(Debug, PartialEq, Eq, Clone, Copy)]
pub struct Block {
    pub movable: bool,
    pub sticky: bool,
    pub orientation: Orientation,
    pub texture_name: TextureName,
    pub symmetric: bool,
    pub redstone: Option<Redstone>,
    pub mechanism: Option<MechanismKind>,
}

/// The redstone state of a block: its signal and its four ports
/// (indexed Up, Right, Down, Left).
#[derive(Debug, PartialEq, Eq, Clone, Copy)]
pub struct Redstone {
    pub signal: u8,
    pub signal_type: Option<SignalType>,
    pub is_redstone_component: bool,
    pub kind: Option<RedstoneKind>,
    pub signal_type_port_mapping: [Option<SignalType>; 4],
    pub input_ports: [bool; 4],
    pub output_ports: [bool; 4],
}

#[derive(Debug, PartialEq, Eq, Clone, Copy, Structural)]
pub enum MechanismKind {
    RedstoneTorch,
    Repeater { countdown: i8, tick: i8 },
    Piston { extended: bool, sticky: bool },
    Observer,
    Lever,
    Button,
    Comparator { mode: ComparatorModes },
}

#[derive(Debug, PartialEq, Eq, Clone, Copy, Structural)]
pub enum ComparatorModes {
    Subtract,
    Compare,
}

#[derive(Debug, PartialEq, Eq, Clone, Copy, Structural)]
pub enum RedstoneKind {
    Mechanism,
    Dust,
    Block,
}

/// A signal is strong or weak; the flag tells whether the block is the
/// source of the signal (`true`) or only carries it (`false`).
#[derive(Debug, PartialEq, Eq, Clone, Copy, Hash, Structural)]
pub enum SignalType {
    Strong(bool),
    Weak(bool),
}

#[derive(Debug, PartialEq, Eq, Clone, Copy, Hash, Structural)]
pub enum Orientation {
    Up,
    Right,
    Down,
    Left,
}

/// Marker for the entities that draw blocks.
#[derive(Debug, Clone, Copy)]
pub struct BlockComponent;

/// `ports` turned clockwise by the port index of `o`: the port at `i` moves
/// to `(i + k) % 4`.
pub open spec fn rotated<T>(o: Orientation, ports: [T; 4]) -> [T; 4] {
    let k = o.port_idx();
    [ports[(4 - k) % 4], ports[(5 - k) % 4], ports[(6 - k) % 4], ports[(7 - k) % 4]]
}

/// The orientation whose port index is `idx` (0 Up, 1 Right, 2 Down, 3 Left).
pub open spec fn orientation_of_idx(idx: int) -> Orientation {
    if idx == 0 {
        Orientation::Up
    } else if idx == 1 {
        Orientation::Right
    } else if idx == 2 {
        Orientation::Down
    } else {
        Orientation::Left
    }
}

impl Orientation {
    /// Port index of the orientation.
    pub open spec fn port_idx(self) -> int {
        match self {
            Orientation::Up => 0,
            Orientation::Right => 1,
            Orientation::Down => 2,
            Orientation::Left => 3,
        }
    }

    /// The neighbouring coordinate in this direction: Up decreases x,
    /// Down increases x, Right increases y, Left decreases y.
    pub open spec fn next_coord(self, x: int, y: int) -> (int, int) {
        match self {
            Orientation::Up => (x - 1, y),
            Orientation::Right => (x, y + 1),
            Orientation::Down => (x + 1, y),
            Orientation::Left => (x, y - 1),
        }
    }

    /// The neighbouring coordinate fits in `i128`.
    pub open spec fn can_step(self, x: i128, y: i128) -> bool {
        let (nx, ny) = self.next_coord(x as int, y as int);
        i128::MIN <= nx <= i128::MAX && i128::MIN <= ny <= i128::MAX
    }

    pub open spec fn opposing(self) -> Orientation {
        match self {
            Orientation::Up => Orientation::Down,
            Orientation::Right => Orientation::Left,
            Orientation::Down => Orientation::Up,
            Orientation::Left => Orientation::Right,
        }
    }

    pub fn to_port_idx(&self) -> (r: usize)
        ensures
            r == self.port_idx(),
            r < 4,
    {
        match self {
            Orientation::Up => 0,
            Orientation::Right => 1,
            Orientation::Down => 2,
            Orientation::Left => 3,
        }
    }

    pub fn get_next_coord(&self, x: i128, y: i128) -> (r: (i128, i128))
        requires
            self.can_step(x, y),
        ensures
            (r.0 as int, r.1 as int) == self.next_coord(x as int, y as int),
    {
        match self {
            Orientation::Up => (x - 1, y),
            Orientation::Right => (x, y + 1),
            Orientation::Down => (x + 1, y),
            Orientation::Left => (x, y - 1),
        }
    }

    pub fn get_opposing(&self) -> (r: Orientation)
        ensures
            r == self.opposing(),
    {
        match self {
            Orientation::Up => Orientation::Down,
            Orientation::Right => Orientation::Left,
            Orientation::Down => Orientation::Up,
            Orientation::Left => Orientation::Right,
        }
    }

    /// The orientation of port `idx`; an index of 4 or more is refused.
    pub fn port_idx_to_orientation(idx: usize) -> (r: Orientation)
        requires
            idx < 4,
        ensures
            r == orientation_of_idx(idx as int),
            r.port_idx() == idx,
    {
        if idx == 0 {
            Orientation::Up
        } else if idx == 1 {
            Orientation::Right
        } else if idx == 2 {
            Orientation::Down
        } else {
            Orientation::Left
        }
    }

    /// Rotates the four ports clockwise by the orientation's port index:
    /// the port at index `i` moves to index `(i + k) % 4`.
    pub fn rotate_ports<T: Copy>(&self, ports: [T; 4]) -> (r: [T; 4])
        ensures
            forall|i: int| 0 <= i < 4 ==> #[trigger] r[(i + self.port_idx()) % 4] == ports[i],
            r == rotated(*self, ports),
    {
        let k = self.to_port_idx();
        let mut oriented_ports = ports;
        oriented_ports[k % 4] = ports[0];
        oriented_ports[(1 + k) % 4] = ports[1];
        oriented_ports[(2 + k) % 4] = ports[2];
        oriented_ports[(3 + k) % 4] = ports[3];
        assert(oriented_ports =~= rotated(*self, ports));
        oriented_ports
    }

    /// The four orientations in port order.
    pub fn iter() -> (r: [Orientation; 4])
        ensures
            forall|i: int| 0 <= i < 4 ==> #[trigger] r[i] == orientation_of_idx(i),
    {
        [Orientation::Up, Orientation::Right, Orientation::Down, Orientation::Left]
    }
}

/// Opens (`on`) or closes the output port of `redstone` that faces `orientation`.
pub fn toggle_port(redstone: &mut Redstone, orientation: Orientation, on: bool)
    ensures
        *final(redstone) == (Redstone {
            output_ports: vstd::array::spec_array_update(
                old(redstone).output_ports,
                orientation.port_idx(),
                on,
            ),
            ..*old(redstone)
        }),
{
    let idx = orientation.to_port_idx();
    redstone.output_ports[idx] = on;
    assert(redstone.output_ports =~= vstd::array::spec_array_update(
        old(redstone).output_ports,
        orientation.port_idx(),
        on,
    ));
}

/// Going one step and then one step in the opposing direction returns to the
/// start; opposing twice is the identity; port index and orientation agree.
pub proof fn lemma_orientation_round_trip(o: Orientation, x: int, y: int)
    ensures
        o.opposing().opposing() == o,
        o.opposing() != o,
        ({
            let (nx, ny) = o.next_coord(x, y);
            o.opposing().next_coord(nx, ny) == (x, y)
        }),
        orientation_of_idx(o.port_idx()) == o,
        0 <= o.port_idx() < 4,
        o.opposing().port_idx() == (o.port_idx() + 2) % 4,
{
}

/// Turning ports is a rotation: facing Up leaves them as they are, the port
/// that faced Up ends up facing `o`, two turns add up their port indices, and
/// four quarter turns bring every port back.
pub proof fn lemma_rotation_laws<T>(a: Orientation, b: Orientation, p: [T; 4])
    ensures
        rotated(Orientation::Up, p) == p,
        rotated(a, p)[a.port_idx()] == p[0],
        rotated(a, rotated(b, p)) == rotated(orientation_of_idx((a.port_idx() + b.port_idx()) % 4), p),
        rotated(Orientation::Right, rotated(Orientation::Right, rotated(Orientation::Right, rotated(Orientation::Right, p))))
            == p,
{
    assert(rotated(Orientation::Up, p) =~= p);
    assert(rotated(a, rotated(b, p)) =~= rotated(orientation_of_idx((a.port_idx() + b.port_idx()) % 4), p));
    let r1 = rotated(Orientation::Right, p);
    let r2 = rotated(Orientation::Right, r1);
    let r3 = rotated(Orientation::Right, r2);
    assert(rotated(Orientation::Right, r3) =~= p);
}

} // verus!
