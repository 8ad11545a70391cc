use redstone_rust::chunks::block::{Block, Orientation};
use redstone_rust::chunks::{Chunk, ChunkTable, Chunks, CHUNK_SIZE};
use redstone_rust::texture::TextureName;

fn dirt() -> Block {
    Block {
        movable: true,
        sticky: false,
        orientation: Orientation::Up,
        texture_name: TextureName::Dirt,
        symmetric: true,
        redstone: None,
        mechanism: None,
    }
}

#[test]
fn chunk_size_is_sixteen() {
    assert_eq!(CHUNK_SIZE, (16, 16));
}

#[test]
fn world_coord_positive() {
    assert_eq!(Chunks::from_world_coord(0, 0), ((0, 0), (0, 0)));
    assert_eq!(Chunks::from_world_coord(15, 16), ((0, 1), (15, 0)));
    assert_eq!(Chunks::from_world_coord(35, 7), ((2, 0), (3, 7)));
}

#[test]
fn world_coord_negative_uses_euclidean_division() {
    assert_eq!(Chunks::from_world_coord(-1, -1), ((-1, -1), (15, 15)));
    assert_eq!(Chunks::from_world_coord(-16, -17), ((-1, -2), (0, 15)));
    assert_eq!(Chunks::from_world_coord(-33, 5), ((-3, 0), (15, 5)));
}

#[test]
fn world_coord_split_recombines() {
    for x in -40i128..40 {
        let ((cx, _), (u, _)) = Chunks::from_world_coord(x, 0);
        assert_eq!(cx * 16 + u as i128, x);
        assert!(u < 16);
    }
}

#[test]
fn chunk_table_get_insert_remove() {
    let mut table = ChunkTable::new();
    assert!(table.get(&(1, 2)).is_none());
    let mut chunk = Chunk::new();
    chunk.map[3][4] = Some(dirt());
    table.insert((1, 2), chunk);
    let got = table.get(&(1, 2)).unwrap();
    assert_eq!(got.map[3][4], Some(dirt()));
    assert_eq!(got.map[4][3], None);
    assert!(table.get(&(2, 1)).is_none());
    table.insert((1, 2), Chunk::new());
    assert_eq!(table.get(&(1, 2)).unwrap().map[3][4], None);
    let removed = table.remove(&(1, 2));
    assert!(removed.is_some());
    assert!(table.get(&(1, 2)).is_none());
    assert!(table.remove(&(1, 2)).is_none());
}

#[test]
fn new_chunk_is_empty() {
    let c = Chunk::new();
    for u in 0..16 {
        for v in 0..16 {
            assert_eq!(c.map[u][v], None);
            assert_eq!(c.entity_map[u][v], None);
        }
    }
}

#[test]
fn get_block_creates_chunk() {
    let mut chunks = Chunks::new();
    assert!(chunks.get_chunk(5, 5).is_none());
    assert_eq!(chunks.get_block(5, 5), None);
    assert!(chunks.get_chunk(5, 5).is_some());
    assert!(chunks.get_chunk(0, 15).is_some());
    assert!(chunks.get_chunk(16, 0).is_none());
}

#[test]
fn block_read_after_write() {
    let mut chunks = Chunks::new();
    chunks.set_block(-20, 3, Some(dirt()));
    assert_eq!(chunks.get_block(-20, 3), Some(dirt()));
    assert_eq!(chunks.get_block_ref(-20, 3), Some(&dirt()));
    assert_eq!(chunks.get_maybe_block(-20, 3), Some(Some(dirt())));
    assert_eq!(chunks.get_block(-20, 4), None);
    assert_eq!(chunks.get_block(-21, 3), None);
    let ((cx, cy), (u, v)) = Chunks::from_world_coord(-20, 3);
    assert_eq!(chunks.0.get(&(cx, cy)).unwrap().map[u][v], Some(dirt()));
    chunks.set_block(-20, 3, None);
    assert_eq!(chunks.get_block(-20, 3), None);
}

#[test]
fn maybe_block_tells_missing_chunk_apart() {
    let mut chunks = Chunks::new();
    assert_eq!(chunks.get_maybe_block(100, 100), None);
    assert_eq!(chunks.get_block_ref(100, 100), None);
    chunks.create_chunk_at_world(100, 100);
    assert_eq!(chunks.get_maybe_block(100, 100), Some(None));
    assert_eq!(chunks.get_maybe_block(96, 111), Some(None));
}

#[test]
fn create_chunk_keeps_existing_chunk() {
    let mut chunks = Chunks::new();
    chunks.set_block(1, 1, Some(dirt()));
    chunks.create_chunk_at(0, 0);
    chunks.create_chunk_at_world(2, 2);
    assert_eq!(chunks.get_block(1, 1), Some(dirt()));
}

#[test]
fn delete_chunk_only_when_empty() {
    let mut chunks = Chunks::new();
    chunks.set_block(17, 17, Some(dirt()));
    chunks.delete_chunk(20, 20);
    assert!(chunks.get_chunk(17, 17).is_some());
    assert_eq!(chunks.get_block(17, 17), Some(dirt()));
    chunks.set_block(17, 17, None);
    chunks.delete_chunk(20, 20);
    assert!(chunks.get_chunk(17, 17).is_none());
    chunks.delete_chunk(1000, 1000);
    assert!(chunks.get_chunk(1000, 1000).is_none());
}

#[test]
fn entity_read_after_write() {
    let mut chunks = Chunks::new();
    assert_eq!(chunks.get_entity(-1, -1), None);
    chunks.set_entity(-1, -1, Some(42));
    assert_eq!(chunks.get_entity(-1, -1), Some(42));
    assert_eq!(chunks.get_entity(-1, -2), None);
    assert_eq!(chunks.get_block(-1, -1), None);
    chunks.set_entity(-1, -1, None);
    assert_eq!(chunks.get_entity(-1, -1), None);
}

#[test]
fn occupancy_marks_blocks() {
    let mut c = Chunk::new();
    c.map[0][3] = Some(dirt());
    c.map[15][15] = Some(dirt());
    let occ = c.occupancy();
    assert_eq!(occ[0][3], 1);
    assert_eq!(occ[15][15], 1);
    assert_eq!(occ[0][4], 0);
    assert_eq!(occ.iter().flatten().filter(|v| **v == 1).count(), 2);
}

#[test]
fn chunk_coords_lists_each_chunk_once() {
    let mut chunks = Chunks::new();
    assert!(chunks.chunk_coords().is_empty());
    chunks.create_chunk_at(0, 0);
    chunks.create_chunk_at(-1, 2);
    chunks.create_chunk_at_world(5, 5);
    let mut keys = chunks.chunk_coords();
    keys.sort();
    assert_eq!(keys, vec![(-1, 2), (0, 0)]);
}
