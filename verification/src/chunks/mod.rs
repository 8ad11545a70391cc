use vstd::prelude::*;
use vstd::array::{spec_array_update, spec_array_fill_for_copy_type};
use crate::texture::TextureName;
use crate::chunks::block::{Block, Redstone, Orientation, SignalType, MechanismKind, orientation_of_idx, rotated};
use crate::chunks::block::redstone::{
    SimState, sim_state, propagate, update_dust, max_prev, dec_signal, interior, margin_ok, reach,
    lemma_in_play_coords, lemma_within_step, lemma_calc_bound, propagate_signal_at, update_dust_ports, get_max_prev,
    sig_ok_at, keeps_ok,
};
use crate::chunks::bounds::{
    cell_ok, lemma_keeps_ok_set, lemma_keeps_ok_with_chunk, lemma_keeps_ok_trans, lemma_keeps_ok_refl,
    lemma_place_keeps_ok, lemma_destroy_keeps_ok, lemma_destroy_ports_keeps_ok,
};
use crate::chunks::events::{EventListeners, EventsModel, PropagationQueue, events_update_entity, events_turn_on, events_remove_mechanism};

pub mod block;
pub mod events;
pub mod laws;
pub mod bounds;
pub mod signal_laws;
pub mod piston_laws;

verus! {

pub const CHUNK_SIZE: (i128, i128) = (16, 16);

/// The blocks of a chunk, indexed `[u][v]`.
pub type ChunkMap = [[Option<Block>; 16]; 16];

/// The drawing entities of a chunk, as entity identifiers, indexed `[u][v]`.
pub type EntityMap = [[Option<u64>; 16]; 16];

/// A 16 x 16 square of the world.
#[derive(Debug, Clone, Copy)]
pub struct Chunk {
    pub map: ChunkMap,
    pub entity_map: EntityMap,
}

/// A chunk with no block and no entity.
pub open spec fn empty_chunk() -> Chunk {
    Chunk {
        map: spec_array_fill_for_copy_type(spec_array_fill_for_copy_type(None)),
        entity_map: spec_array_fill_for_copy_type(spec_array_fill_for_copy_type(None)),
    }
}

impl Chunk {
    pub fn new() -> (c: Chunk)
        ensures
            c == empty_chunk(),
    {
        Chunk { map: [[None; 16]; 16], entity_map: [[None; 16]; 16] }
    }

    /// Which cells of the chunk hold a block: 1 for a block, 0 for none, row
    /// by row.
    pub fn occupancy(&self) -> (r: [[u8; 16]; 16])
        ensures
            forall|u: int, v: int| 0 <= u < 16 && 0 <= v < 16 ==> #[trigger] r[u][v] == (if self.map[u][v] is Some {
                1u8
            } else {
                0u8
            }),
    {
        let mut r: [[u8; 16]; 16] = [[0; 16]; 16];
        let mut u: usize = 0;
        while u < 16
            invariant
                u <= 16,
                forall|a: int, b: int| 0 <= a < u && 0 <= b < 16 ==> #[trigger] r[a][b] == (if self.map[a][b] is Some {
                    1u8
                } else {
                    0u8
                }),
            decreases 16 - u,
        {
            let mut row: [u8; 16] = [0; 16];
            let mut v: usize = 0;
            while v < 16
                invariant
                    v <= 16,
                    u < 16,
                    forall|b: int| 0 <= b < v ==> #[trigger] row[b] == (if self.map[u as int][b] is Some {
                        1u8
                    } else {
                        0u8
                    }),
                decreases 16 - v,
            {
                if self.map[u][v].is_some() {
                    row[v] = 1;
                } else {
                    row[v] = 0;
                }
                v = v + 1;
            }
            let ghost before = r;
            r[u] = row;
            assert forall|a: int, b: int| 0 <= a < u + 1 && 0 <= b < 16 implies #[trigger] r[a][b] == (if self.map[a][b] is Some {
                1u8
            } else {
                0u8
            }) by {
                if a < u {
                    assert(r[a] == before[a]);
                }
            }
            u = u + 1;
        }
        r
    }
}

/// Chunks by chunk coordinate, held in the hash map of `bevy`.
#[verifier::external_body]
pub struct ChunkTable {
    table: bevy::utils::HashMap<(i128, i128), Chunk>,
}

/// The chunks that a [`ChunkTable`] holds, by chunk coordinate.
pub uninterp spec fn chunk_table_contents(table: ChunkTable) -> Map<(i128, i128), Chunk>;

impl ChunkTable {
    /// `HashMap::default` of bevy's hash map: an empty map.
    #[verifier::external_body]
    pub fn new() -> (table: ChunkTable)
        ensures
            chunk_table_contents(table) =~= Map::empty(),
    {
        ChunkTable { table: bevy::utils::HashMap::default() }
    }

    /// `HashMap::get`: the chunk stored under `key`, if any.
    #[verifier::external_body]
    pub fn get(&self, key: &(i128, i128)) -> (r: Option<&Chunk>)
        ensures
            r is Some <==> chunk_table_contents(*self).contains_key(*key),
            r is Some ==> *r->0 == chunk_table_contents(*self)[*key],
    {
        self.table.get(key)
    }

    /// `HashMap::insert`: stores `chunk` under `key`, replacing what was there.
    #[verifier::external_body]
    pub fn insert(&mut self, key: (i128, i128), chunk: Chunk)
        ensures
            chunk_table_contents(*final(self)) == chunk_table_contents(*old(self)).insert(key, chunk),
    {
        self.table.insert(key, chunk);
    }

    /// `HashMap::keys`: every chunk coordinate of the table once, in an order
    /// that the hash map chooses (nothing is claimed about the order).
    #[verifier::external_body]
    pub fn keys(&self) -> (r: Vec<(i128, i128)>)
        ensures
            r@.to_set() == chunk_table_contents(*self).dom(),
            r@.no_duplicates(),
    {
        self.table.keys().copied().collect()
    }

    /// `HashMap::remove`: takes out the chunk stored under `key`, if any.
    #[verifier::external_body]
    pub fn remove(&mut self, key: &(i128, i128)) -> (r: Option<Chunk>)
        ensures
            chunk_table_contents(*final(self)) == chunk_table_contents(*old(self)).remove(*key),
            r is Some <==> chunk_table_contents(*old(self)).contains_key(*key),
            r is Some ==> r->0 == chunk_table_contents(*old(self))[*key],
    {
        self.table.remove(key)
    }
}

/// The block that each texture stands for, held in the hash map of `bevy`.
#[verifier::external_body]
pub struct BlockCatalog {
    table: bevy::utils::HashMap<TextureName, Block>,
}

/// The blocks that a [`BlockCatalog`] holds, by texture.
pub uninterp spec fn block_catalog_contents(catalog: BlockCatalog) -> Map<TextureName, Block>;

impl BlockCatalog {
    /// `HashMap::default` of bevy's hash map: an empty map.
    #[verifier::external_body]
    pub fn new() -> (catalog: BlockCatalog)
        ensures
            block_catalog_contents(catalog) =~= Map::empty(),
    {
        BlockCatalog { table: bevy::utils::HashMap::default() }
    }

    /// `HashMap::get`: the block stored under `texture`, if any.
    #[verifier::external_body]
    pub fn get(&self, texture: &TextureName) -> (r: Option<&Block>)
        ensures
            r is Some <==> block_catalog_contents(*self).contains_key(*texture),
            r is Some ==> *r->0 == block_catalog_contents(*self)[*texture],
    {
        self.table.get(texture)
    }

    /// `HashMap::insert`: stores `blk` under `texture`, replacing what was there.
    #[verifier::external_body]
    pub fn insert(&mut self, texture: TextureName, blk: Block)
        ensures
            block_catalog_contents(*final(self)) == block_catalog_contents(*old(self)).insert(texture, blk),
    {
        self.table.insert(texture, blk);
    }
}

/// The world as chunk coordinate to chunk.
pub type World = Map<(i128, i128), Chunk>;

/// The coordinate of the chunk that holds world position `(x, y)` (floor division).
pub open spec fn chunk_key(x: i128, y: i128) -> (i128, i128) {
    ((x as int / 16) as i128, (y as int / 16) as i128)
}

/// The row and column of `(x, y)` inside its chunk (Euclidean remainder).
pub open spec fn cell_u(x: i128) -> int {
    x as int % 16
}

/// `w` with an empty chunk added at chunk coordinate `k` when none is there.
pub open spec fn with_chunk_at(w: World, k: (i128, i128)) -> World {
    if w.contains_key(k) {
        w
    } else {
        w.insert(k, empty_chunk())
    }
}

/// `w` with the chunk of world position `(x, y)` present.
pub open spec fn with_chunk(w: World, x: i128, y: i128) -> World {
    with_chunk_at(w, chunk_key(x, y))
}

/// The cell at `(x, y)`: `None` when its chunk does not exist.
pub open spec fn maybe_block_at(w: World, x: i128, y: i128) -> Option<Option<Block>> {
    let k = chunk_key(x, y);
    if w.contains_key(k) {
        Some(w[k].map[cell_u(x)][cell_u(y)])
    } else {
        None
    }
}

/// The block at `(x, y)`, with a missing chunk read as empty.
pub open spec fn block_at(w: World, x: i128, y: i128) -> Option<Block> {
    match maybe_block_at(w, x, y) {
        Some(b) => b,
        None => None,
    }
}

/// `w` with the cell at `(x, y)` set to `b`, its chunk created if missing.
pub open spec fn set_block_at(w: World, x: i128, y: i128, b: Option<Block>) -> World {
    let w1 = with_chunk(w, x, y);
    let k = chunk_key(x, y);
    let c = w1[k];
    w1.insert(
        k,
        Chunk {
            map: spec_array_update(c.map, cell_u(x), spec_array_update(c.map[cell_u(x)], cell_u(y), b)),
            ..c
        },
    )
}

/// The entity identifier drawn at `(x, y)`, with a missing chunk read as none.
pub open spec fn entity_at(w: World, x: i128, y: i128) -> Option<u64> {
    let k = chunk_key(x, y);
    if w.contains_key(k) {
        w[k].entity_map[cell_u(x)][cell_u(y)]
    } else {
        None
    }
}

/// `w` with the entity at `(x, y)` set to `e`, its chunk created if missing.
pub open spec fn set_entity_at(w: World, x: i128, y: i128, e: Option<u64>) -> World {
    let w1 = with_chunk(w, x, y);
    let k = chunk_key(x, y);
    let c = w1[k];
    w1.insert(
        k,
        Chunk {
            entity_map: spec_array_update(c.entity_map, cell_u(x), spec_array_update(c.entity_map[cell_u(x)], cell_u(y), e)),
            ..c
        },
    )
}

/// A chunk holds no block.
pub open spec fn chunk_is_empty(c: Chunk) -> bool {
    forall|u: int, v: int| 0 <= u < 16 && 0 <= v < 16 ==> (#[trigger] c.map[u][v]) is None
}

/// The world: chunks by chunk coordinate.
pub struct Chunks(pub ChunkTable);

impl View for Chunks {
    type V = World;

    open spec fn view(&self) -> World {
        chunk_table_contents(self.0)
    }
}

impl Chunks {
    pub fn new() -> (c: Chunks)
        ensures
            c@ == Map::<(i128, i128), Chunk>::empty(),
    {
        Chunks(ChunkTable::new())
    }

    /// Splits a world position into its chunk coordinate (floor division by 16)
    /// and its place inside the chunk (Euclidean remainder).
    pub fn from_world_coord(x: i128, y: i128) -> (r: ((i128, i128), (usize, usize)))
        ensures
            r.0 == chunk_key(x, y),
            r.1.0 as int == cell_u(x),
            r.1.1 as int == cell_u(y),
            r.1.0 < 16,
            r.1.1 < 16,
    {
        let chunk_x = x.checked_div_euclid(16).unwrap();
        let chunk_y = y.checked_div_euclid(16).unwrap();
        let u = x.checked_rem_euclid(16).unwrap();
        let v = y.checked_rem_euclid(16).unwrap();
        ((chunk_x, chunk_y), (u as usize, v as usize))
    }

    /// The chunk that holds `(x, y)`, if it exists.
    /// The coordinates of every chunk, each once, in no particular order.
    pub fn chunk_coords(&self) -> (r: Vec<(i128, i128)>)
        ensures
            r@.to_set() == self@.dom(),
            r@.no_duplicates(),
    {
        self.0.keys()
    }

    pub fn get_chunk(&self, x: i128, y: i128) -> (r: Option<&Chunk>)
        ensures
            r is Some <==> self@.contains_key(chunk_key(x, y)),
            r is Some ==> *r->0 == self@[chunk_key(x, y)],
    {
        let ((chunk_x, chunk_y), _) = Chunks::from_world_coord(x, y);
        self.0.get(&(chunk_x, chunk_y))
    }

    /// Removes the chunk that holds `(x, y)` when it holds no block.
    pub fn delete_chunk(&mut self, x: i128, y: i128)
        ensures
            final(self)@ == (if old(self)@.contains_key(chunk_key(x, y)) && chunk_is_empty(
                old(self)@[chunk_key(x, y)],
            ) {
                old(self)@.remove(chunk_key(x, y))
            } else {
                old(self)@
            }),
    {
        let ((chunk_x, chunk_y), _) = Chunks::from_world_coord(x, y);
        let chunk = self.0.get(&(chunk_x, chunk_y));
        if let Some(chk) = chunk {
            let mut u: usize = 0;
            while u < 16
                invariant
                    u <= 16,
                    self@.contains_key(chunk_key(x, y)),
                    *chk == self@[chunk_key(x, y)],
                    forall|a: int, b: int| 0 <= a < u && 0 <= b < 16 ==> (#[trigger] chk.map[a][b]) is None,
                decreases 16 - u,
            {
                let mut v: usize = 0;
                while v < 16
                    invariant
                        u < 16,
                        v <= 16,
                        self@.contains_key(chunk_key(x, y)),
                        *chk == self@[chunk_key(x, y)],
                        forall|a: int, b: int| 0 <= a < u && 0 <= b < 16 ==> (#[trigger] chk.map[a][b]) is None,
                        forall|b: int| 0 <= b < v ==> (#[trigger] chk.map[u as int][b]) is None,
                    decreases 16 - v,
                {
                    if chk.map[u][v].is_some() {
                        assert(!chunk_is_empty(self@[chunk_key(x, y)]));
                        return;
                    }
                    v = v + 1;
                }
                u = u + 1;
            }
            self.0.remove(&(chunk_x, chunk_y));
        }
    }

    /// Adds an empty chunk at chunk coordinate `(chunk_x, chunk_y)` when none is there.
    pub fn create_chunk_at(&mut self, chunk_x: i128, chunk_y: i128)
        ensures
            final(self)@ == with_chunk_at(old(self)@, (chunk_x, chunk_y)),
    {
        let chunk = self.0.get(&(chunk_x, chunk_y));
        if chunk.is_none() {
            self.0.insert((chunk_x, chunk_y), Chunk::new());
        }
    }

    /// Adds an empty chunk where `(x, y)` lies when none is there.
    pub fn create_chunk_at_world(&mut self, x: i128, y: i128)
        ensures
            final(self)@ == with_chunk(old(self)@, x, y),
    {
        let ((chunk_x, chunk_y), _) = Chunks::from_world_coord(x, y);
        self.create_chunk_at(chunk_x, chunk_y);
    }

    /// The block at `(x, y)`; the chunk is created first when missing.
    pub fn get_block(&mut self, x: i128, y: i128) -> (r: Option<Block>)
        ensures
            final(self)@ == with_chunk(old(self)@, x, y),
            r == block_at(old(self)@, x, y),
    {
        self.create_chunk_at_world(x, y);
        let (chunk_coord, (u, v)) = Chunks::from_world_coord(x, y);
        let chunk = self.0.get(&chunk_coord);
        match chunk {
            Some(chk) => chk.map[u][v],
            None => None,
        }
    }

    /// Writes `blk` at `(x, y)`; the chunk is created first when missing.
    pub fn set_block(&mut self, x: i128, y: i128, blk: Option<Block>)
        ensures
            final(self)@ == set_block_at(old(self)@, x, y, blk),
    {
        self.create_chunk_at_world(x, y);
        let (chunk_coord, (u, v)) = Chunks::from_world_coord(x, y);
        let ghost w1 = self@;
        let taken = self.0.remove(&chunk_coord);
        match taken {
            Some(chk) => {
                let mut chk = chk;
                let ghost c0 = chk;
                chk.map[u][v] = blk;
                assert(chk.map[u as int] =~= spec_array_update(c0.map[u as int], v as int, blk));
                assert(chk.map =~= spec_array_update(c0.map, u as int, spec_array_update(c0.map[u as int], v as int, blk)));
                self.0.insert(chunk_coord, chk);
                assert(self@ =~= set_block_at(old(self)@, x, y, blk));
            },
            None => {},
        }
    }

    /// The block at `(x, y)`, without creating anything.
    pub fn get_block_ref(&self, x: i128, y: i128) -> (r: Option<&Block>)
        ensures
            r is Some <==> block_at(self@, x, y) is Some,
            r is Some ==> *r->0 == block_at(self@, x, y)->0,
    {
        let (chunk_coord, (u, v)) = Chunks::from_world_coord(x, y);
        let chunk = self.0.get(&chunk_coord);
        if let Some(chk) = chunk {
            if let Some(blk) = &chk.map[u][v] {
                return Some(blk);
            } else {
                return None;
            }
        } else {
            return None;
        }
    }

    /// The cell at `(x, y)` when its chunk exists.
    pub fn get_maybe_block(&self, x: i128, y: i128) -> (r: Option<Option<Block>>)
        ensures
            r == maybe_block_at(self@, x, y),
    {
        let (chunk_coord, (u, v)) = Chunks::from_world_coord(x, y);
        let chunk = self.0.get(&chunk_coord);
        if let Some(chk) = chunk {
            Some(chk.map[u][v])
        } else {
            None
        }
    }

    /// The entity drawn at `(x, y)`; the chunk is created first when missing.
    pub fn get_entity(&mut self, x: i128, y: i128) -> (r: Option<u64>)
        ensures
            final(self)@ == with_chunk(old(self)@, x, y),
            r == entity_at(old(self)@, x, y),
    {
        self.create_chunk_at_world(x, y);
        let (chunk_coord, (u, v)) = Chunks::from_world_coord(x, y);
        let chunk = self.0.get(&chunk_coord);
        match chunk {
            Some(chk) => chk.entity_map[u][v],
            None => None,
        }
    }

    /// Records the entity drawn at `(x, y)`; the chunk is created first when missing.
    pub fn set_entity(&mut self, x: i128, y: i128, entity: Option<u64>)
        ensures
            final(self)@ == set_entity_at(old(self)@, x, y, entity),
    {
        self.create_chunk_at_world(x, y);
        let (chunk_coord, (u, v)) = Chunks::from_world_coord(x, y);
        let taken = self.0.remove(&chunk_coord);
        match taken {
            Some(chk) => {
                let mut chk = chk;
                let ghost c0 = chk;
                chk.entity_map[u][v] = entity;
                assert(chk.entity_map[u as int] =~= spec_array_update(c0.entity_map[u as int], v as int, entity));
                assert(chk.entity_map =~= spec_array_update(c0.entity_map, u as int, spec_array_update(c0.entity_map[u as int], v as int, entity)));
                self.0.insert(chunk_coord, chk);
                assert(self@ =~= set_entity_at(old(self)@, x, y, entity));
            },
            None => {},
        }
    }
}


/// A neighbour of `(x, y)` that observes it: it holds an observer.
pub open spec fn is_observer_at(w: World, x: i128, y: i128) -> bool {
    match block_at(w, x, y) {
        Some(b) => b.mechanism == Some(MechanismKind::Observer),
        None => false,
    }
}

/// The events after alerting the neighbours of `(x, y)` from side `idx` on:
/// each neighbouring observer is switched on.
pub open spec fn alert_from(ev: EventsModel, w: World, x: i128, y: i128, idx: int) -> EventsModel
    decreases 4 - idx,
{
    if idx < 0 || idx >= 4 {
        ev
    } else {
        let (nx, ny) = orientation_of_idx(idx).next_coord(x as int, y as int);
        let ev2 = if is_observer_at(w, nx as i128, ny as i128) {
            events_turn_on(ev, nx as i128, ny as i128, false)
        } else {
            ev
        };
        alert_from(ev2, w, x, y, idx + 1)
    }
}

/// Tells the neighbours of `(x, y)` that it changed: each neighbouring
/// observer is switched on.
pub fn alert_neighbours(x: i128, y: i128, chunks: &Chunks, listeners: &mut EventListeners)
    requires
        interior(x, y),
    ensures
        final(listeners)@ == alert_from(old(listeners)@, chunks@, x, y, 0),
{
    let mut idx: usize = 0;
    while idx < 4
        invariant
            idx <= 4,
            interior(x, y),
            alert_from(old(listeners)@, chunks@, x, y, 0) == alert_from(listeners@, chunks@, x, y, idx as int),
        decreases 4 - idx,
    {
        let o = Orientation::port_idx_to_orientation(idx);
        let (nx, ny) = o.get_next_coord(x, y);
        let observer = match chunks.get_block_ref(nx, ny) {
            Some(b) => match b.mechanism {
                Some(MechanismKind::Observer) => true,
                _ => false,
            },
            None => false,
        };
        if observer {
            listeners.turn_mechanism_on(nx, ny, false);
        }
        idx = idx + 1;
    }
}

/// The block placed for `blk` facing `orientation`: the catalogue's block of
/// its texture, with `blk`'s mechanism, facing Up when `blk` is symmetric,
/// and with its redstone ports turned to face that way.
pub open spec fn placed_block(blk: Block, orientation: Orientation, catalog: Map<TextureName, Block>) -> Block {
    let base = Block { mechanism: blk.mechanism, ..catalog[blk.texture_name] };
    let o = if blk.symmetric {
        Orientation::Up
    } else {
        orientation
    };
    let redstone = match base.redstone {
        Some(r) => Some(
            Redstone {
                input_ports: rotated(o, r.input_ports),
                output_ports: rotated(o, r.output_ports),
                signal_type_port_mapping: rotated(o, r.signal_type_port_mapping),
                ..r
            },
        ),
        None => None,
    };
    Block { orientation: o, redstone, ..base }
}

/// The signal type of a block that is a source.
pub open spec fn is_source(t: Option<SignalType>) -> bool {
    t == Some(SignalType::Strong(true)) || t == Some(SignalType::Weak(true))
}

/// The four neighbours of `(x, y)` from side `idx` on: each one's dust is
/// reconnected ([`update_dust`]), it is marked for redrawing and the
/// neighbours of `(x, y)` are alerted.
pub open spec fn neighbours_update(s: SimState, x: i128, y: i128, idx: int) -> SimState
    decreases 4 - idx,
{
    if idx < 0 || idx >= 4 {
        s
    } else {
        let (nx, ny) = orientation_of_idx(idx).next_coord(x as int, y as int);
        let s1 = update_dust(s, nx as i128, ny as i128);
        let s2 = SimState {
            events: alert_from(events_update_entity(s1.events, nx as i128, ny as i128), s1.world, x, y, 0),
            ..s1
        };
        neighbours_update(s2, x, y, idx + 1)
    }
}

/// Placing `blk` at `(x, y)`: refused (`false`) when a block is already there
/// (the chunk is still created). Otherwise the step counter restarts at 0,
/// the [`placed_block`] is written, a source reconnects the dust at and
/// around it, the block takes the strongest signal around it
/// ([`max_prev`]), it is marked for redrawing and its neighbours are alerted.
pub open spec fn place_spec(
    s: SimState,
    blk: Block,
    orientation: Orientation,
    x: i128,
    y: i128,
    catalog: Map<TextureName, Block>,
) -> (SimState, bool) {
    let w0 = with_chunk(s.world, x, y);
    if block_at(s.world, x, y) is Some {
        (SimState { world: w0, ..s }, false)
    } else {
        let nb = placed_block(blk, orientation, catalog);
        let s1 = SimState { world: set_block_at(w0, x, y, Some(nb)), calculations: 0, ..s };
        let s2 = match nb.redstone {
            None => s1,
            Some(rs) => {
                let sa = if is_source(rs.signal_type) {
                    neighbours_update(update_dust(s1, x, y), x, y, 0)
                } else {
                    s1
                };
                let mp = max_prev(sa.world, x, y);
                propagate(sa, x, y, mp.0, dec_signal(mp.1), mp.1, mp.2)
            },
        };
        (SimState { events: alert_from(events_update_entity(s2.events, x, y), s2.world, x, y, 0), ..s2 }, true)
    }
}

/// The four neighbours of `(x, y)` hold no signal of 255, so that
/// reconnecting their dust stays within `u8`.
pub open spec fn neighbours_ok(w: World, x: i128, y: i128) -> bool {
    &&& sig_ok_at(w, (x - 1) as i128, y)
    &&& sig_ok_at(w, x, (y + 1) as i128)
    &&& sig_ok_at(w, (x + 1) as i128, y)
    &&& sig_ok_at(w, x, (y - 1) as i128)
}

/// Placing `b` at `(x, y)` stays within `u8`: its signal is below 255 and,
/// when it is a source, so are the signals of its neighbours.
pub open spec fn place_ok(w: World, x: i128, y: i128, b: Block) -> bool {
    &&& cell_ok(Some(b))
    &&& (b.redstone matches Some(r) && is_source(r.signal_type) ==> neighbours_ok(w, x, y))
}

/// Destroying the block at `(x, y)` stays within `u8`: when it is a source,
/// the signals of its neighbours are below 255.
pub open spec fn destroy_ok(w: World, x: i128, y: i128) -> bool {
    match block_at(w, x, y) {
        Some(b) => b.redstone matches Some(r) && is_source(r.signal_type) ==> neighbours_ok(w, x, y),
        None => true,
    }
}

proof fn lemma_neighbours_ok_kept(w1: World, w2: World, x: i128, y: i128)
    requires
        neighbours_ok(w1, x, y),
        keeps_ok(w1, w2),
    ensures
        neighbours_ok(w2, x, y),
{
}

/// Bound on the step counter in the middle of `place` and `destroy`.
pub open spec fn small_calc(c: int) -> bool {
    0 <= c <= 300_000
}

fn update_neighbours(
    chunks: &mut Chunks,
    x: i128,
    y: i128,
    listeners: &mut EventListeners,
    propagation_queue: &mut PropagationQueue,
    calculations: &mut u32,
)
    requires
        margin_ok(x, y, reach() + 1),
        *old(calculations) <= 100_000,
        neighbours_ok(old(chunks)@, x, y),
    ensures
        sim_state(*final(chunks), *final(listeners), *final(propagation_queue), *final(calculations))
            == neighbours_update(sim_state(*old(chunks), *old(listeners), *old(propagation_queue), *old(calculations)), x, y, 0),
        *final(calculations) <= *old(calculations) + 60_024,
        keeps_ok(old(chunks)@, final(chunks)@),
{
    let ghost c0 = *calculations as int;
    let mut idx: usize = 0;
    while idx < 4
        invariant
            idx <= 4,
            margin_ok(x, y, reach() + 1),
            c0 <= 100_000,
            *calculations <= (if c0 > 60000 { c0 } else { 60000 }) + 6 * idx,
            neighbours_update(sim_state(*old(chunks), *old(listeners), *old(propagation_queue), *old(calculations)), x, y, 0)
                == neighbours_update(sim_state(*chunks, *listeners, *propagation_queue, *calculations), x, y, idx as int),
            keeps_ok(old(chunks)@, chunks@),
            neighbours_ok(chunks@, x, y),
        decreases 4 - idx,
    {
        let o = Orientation::port_idx_to_orientation(idx);
        proof {
            lemma_in_play_coords(x, y, o, 0);
        }
        let (next_x, next_y) = o.get_next_coord(x, y);
        proof {
            lemma_within_step(x, y, o, reach() + 1);
        }
        let ghost wb = chunks@;
        proof {
            assert(sig_ok_at(wb, next_x, next_y));
        }
        update_dust_ports(chunks, next_x, next_y, listeners, propagation_queue, calculations);
        proof {
            lemma_keeps_ok_trans(old(chunks)@, wb, chunks@);
            lemma_neighbours_ok_kept(wb, chunks@, x, y);
        }
        listeners.update_entity(next_x, next_y);
        alert_neighbours(x, y, chunks, listeners);
        idx = idx + 1;
    }
}

/// Places `blk` at `(x, y)` facing `orientation`; see [`place_spec`]. The
/// catalogue must hold the block of `blk`'s texture, and on an empty cell
/// [`place_ok`] must hold for it.
pub fn place(
    chunks: &mut Chunks,
    blk: Block,
    orientation: Orientation,
    x: i128,
    y: i128,
    listeners: &mut EventListeners,
    propagation_queue: &mut PropagationQueue,
    calculations: &mut u32,
    texture_to_block_map: &BlockCatalog,
) -> (placed: bool)
    requires
        margin_ok(x, y, reach() + 1),
        block_at(old(chunks)@, x, y) is None ==> block_catalog_contents(*texture_to_block_map).contains_key(
            blk.texture_name,
        ),
        block_at(old(chunks)@, x, y) is None ==> place_ok(
            old(chunks)@,
            x,
            y,
            block_catalog_contents(*texture_to_block_map)[blk.texture_name],
        ),
    ensures
        (sim_state(*final(chunks), *final(listeners), *final(propagation_queue), *final(calculations)), placed)
            == place_spec(
            sim_state(*old(chunks), *old(listeners), *old(propagation_queue), *old(calculations)),
            blk,
            orientation,
            x,
            y,
            block_catalog_contents(*texture_to_block_map),
        ),
        small_calc(*final(calculations) as int) || !placed,
        keeps_ok(old(chunks)@, final(chunks)@),
{
    let ghost w0 = chunks@;
    let ghost cat = block_catalog_contents(*texture_to_block_map);
    proof {
        let s0 = sim_state(*chunks, *listeners, *propagation_queue, *calculations);
        lemma_keeps_ok_with_chunk(w0, x, y);
        if block_at(w0, x, y) is None {
            lemma_place_keeps_ok(s0, blk, orientation, x, y, cat);
        }
    }
    let curr = chunks.get_block(x, y);
    if curr.is_some() {
        return false;
    }
    let mut blk_clone = *texture_to_block_map.get(&blk.texture_name).unwrap();
    blk_clone.mechanism = blk.mechanism;
    *calculations = 0;
    let mut orientation = orientation;
    if blk.symmetric {
        orientation = Orientation::Up;
    }
    let redstone = if let Some(redstone) = blk_clone.redstone {
        Some(
            Redstone {
                input_ports: orientation.rotate_ports(redstone.input_ports),
                output_ports: orientation.rotate_ports(redstone.output_ports),
                signal_type_port_mapping: orientation.rotate_ports(redstone.signal_type_port_mapping),
                ..redstone
            },
        )
    } else {
        None
    };
    let ghost wc = chunks@;
    chunks.set_block(x, y, Some(Block { orientation, redstone, ..blk_clone }));
    proof {
        lemma_in_play_coords(x, y, Orientation::Up, 0);
        assert(cell_ok(Some(cat[blk.texture_name])));
        assert(cell_ok(Some(Block { orientation, redstone, ..blk_clone })));
        lemma_keeps_ok_set(wc, x, y, Some(Block { orientation, redstone, ..blk_clone }));
        lemma_keeps_ok_trans(w0, wc, chunks@);
        crate::chunks::laws::lemma_read_after_write(wc, x, y, Some(Block { orientation, redstone, ..blk_clone }), x, y);
        assert(sig_ok_at(chunks@, x, y));
    }
    if let Some(rs) = redstone {
        let source = match rs.signal_type {
            Some(SignalType::Strong(true)) | Some(SignalType::Weak(true)) => true,
            _ => false,
        };
        let ghost w1 = chunks@;
        if source {
            proof {
                lemma_neighbours_ok_kept(w0, w1, x, y);
            }
            update_dust_ports(chunks, x, y, listeners, propagation_queue, calculations);
            proof {
                lemma_neighbours_ok_kept(w1, chunks@, x, y);
            }
            let ghost w2 = chunks@;
            update_neighbours(chunks, x, y, listeners, propagation_queue, calculations);
            proof {
                lemma_keeps_ok_trans(w1, w2, chunks@);
            }
        } else {
            proof {
                lemma_keeps_ok_refl(w1);
            }
        }
        proof {
            assert(sig_ok_at(w1, x, y));
            assert(sig_ok_at(chunks@, x, y));
        }
        let prev_redstone = get_max_prev(chunks, x, y);
        let (from_port, previous_signal, prev_signal_type) = prev_redstone;
        let transmitted_signal = if previous_signal > 0 {
            previous_signal - 1
        } else {
            0
        };
        proof {
            lemma_in_play_coords(x, y, Orientation::Up, *calculations as int);
            lemma_calc_bound(*calculations as int);
        }
        propagate_signal_at(
            chunks,
            x,
            y,
            from_port,
            transmitted_signal,
            previous_signal,
            prev_signal_type,
            listeners,
            propagation_queue,
            calculations,
        );
    }
    listeners.update_entity(x, y);
    alert_neighbours(x, y, chunks, listeners);
    true
}

/// The signal that left `(x, y)` through each open output port from `idx` on
/// is taken away: a 0 signal propagates to the neighbour, which it enters
/// through the opposing port.
pub open spec fn destroy_ports(
    s: SimState,
    x: i128,
    y: i128,
    idx: int,
    ports: [bool; 4],
    signal: u8,
    signal_type: Option<SignalType>,
) -> SimState
    decreases 4 - idx,
{
    if idx < 0 || idx >= 4 {
        s
    } else {
        let s1 = if ports[idx] {
            let o = orientation_of_idx(idx);
            let (nx, ny) = o.next_coord(x as int, y as int);
            propagate(s, nx as i128, ny as i128, Some(o.opposing()), 0, signal, signal_type)
        } else {
            s
        };
        destroy_ports(s1, x, y, idx + 1, ports, signal, signal_type)
    }
}

/// Destroying the block at `(x, y)`: nothing changes but the step counter
/// (restarted at 0) when the chunk does not exist. Otherwise the cell is
/// emptied, marked for redrawing and its neighbours alerted; a redstone block
/// takes its signal away from the neighbours it fed ([`destroy_ports`]) and,
/// when it was a source, the dust around it is reconnected. Pending events of
/// a mechanism there are dropped.
pub open spec fn destroy_spec(s: SimState, x: i128, y: i128) -> SimState {
    let s0 = SimState { calculations: 0, ..s };
    let s1 = match maybe_block_at(s.world, x, y) {
        None => s0,
        Some(cell) => {
            let w1 = set_block_at(s.world, x, y, None);
            let ev1 = alert_from(events_update_entity(s.events, x, y), w1, x, y, 0);
            let sb = SimState { world: w1, events: ev1, ..s0 };
            match cell {
                Some(b) => match b.redstone {
                    Some(r) => {
                        let sa = destroy_ports(sb, x, y, 0, r.output_ports, r.signal, r.signal_type);
                        if is_source(r.signal_type) {
                            neighbours_update(sa, x, y, 0)
                        } else {
                            sa
                        }
                    },
                    None => sb,
                },
                None => sb,
            }
        },
    };
    SimState { events: events_remove_mechanism(s1.events, x, y), ..s1 }
}

/// Destroys the block at `(x, y)`; see [`destroy_spec`]. Always `true`.
/// [`destroy_ok`] must hold.
pub fn destroy(
    chunks: &mut Chunks,
    x: i128,
    y: i128,
    listeners: &mut EventListeners,
    propagation_queue: &mut PropagationQueue,
    calculations: &mut u32,
) -> (r: bool)
    requires
        margin_ok(x, y, reach() + 1),
        destroy_ok(old(chunks)@, x, y),
    ensures
        r,
        sim_state(*final(chunks), *final(listeners), *final(propagation_queue), *final(calculations))
            == destroy_spec(sim_state(*old(chunks), *old(listeners), *old(propagation_queue), *old(calculations)), x, y),
        small_calc(*final(calculations) as int),
        keeps_ok(old(chunks)@, final(chunks)@),
{
    let ghost w0 = chunks@;
    proof {
        lemma_destroy_keeps_ok(sim_state(*chunks, *listeners, *propagation_queue, *calculations), x, y);
    }
    let curr_blk = chunks.get_maybe_block(x, y);
    *calculations = 0;
    proof {
        lemma_in_play_coords(x, y, Orientation::Up, 0);
    }
    if let Some(cell) = curr_blk {
        chunks.set_block(x, y, None);
        listeners.update_entity(x, y);
        alert_neighbours(x, y, chunks, listeners);
        if let Some(Block { redstone: Some(r), .. }) = cell {
            let curr_output_ports = r.output_ports;
            let curr_signal = r.signal;
            let curr_signal_type = r.signal_type;
            let ghost sb = sim_state(*chunks, *listeners, *propagation_queue, *calculations);
            let mut idx: usize = 0;
            while idx < 4
                invariant
                    idx <= 4,
                    margin_ok(x, y, reach() + 1),
                    *calculations <= 60000 + idx,
                    destroy_ports(sb, x, y, 0, curr_output_ports, curr_signal, curr_signal_type)
                        == destroy_ports(sim_state(*chunks, *listeners, *propagation_queue, *calculations), x, y, idx as int, curr_output_ports, curr_signal, curr_signal_type),
                decreases 4 - idx,
            {
                if curr_output_ports[idx] {
                    let output_port_orientation = Orientation::port_idx_to_orientation(idx);
                    proof {
                        lemma_in_play_coords(x, y, output_port_orientation, *calculations as int);
                        lemma_calc_bound(*calculations as int);
                    }
                    let (next_x, next_y) = output_port_orientation.get_next_coord(x, y);
                    let input_port_orientation = output_port_orientation.get_opposing();
                    propagate_signal_at(
                        chunks,
                        next_x,
                        next_y,
                        Some(input_port_orientation),
                        0,
                        curr_signal,
                        curr_signal_type,
                        listeners,
                        propagation_queue,
                        calculations,
                    );
                }
                idx = idx + 1;
            }
            let source = match curr_signal_type {
                Some(SignalType::Strong(true)) | Some(SignalType::Weak(true)) => true,
                _ => false,
            };
            if source {
                proof {
                    lemma_keeps_ok_set(w0, x, y, None);
                    lemma_destroy_ports_keeps_ok(sb, x, y, 0, curr_output_ports, curr_signal, curr_signal_type);
                    lemma_keeps_ok_trans(w0, sb.world, chunks@);
                    lemma_neighbours_ok_kept(w0, chunks@, x, y);
                }
                update_neighbours(chunks, x, y, listeners, propagation_queue, calculations);
            }
        }
    }
    listeners.remove_mechanism(x, y);
    true
}

} // verus!
