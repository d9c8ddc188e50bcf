use blockworld::blocks::{dropped_item, get_block_id, get_chunk_from_block};
use blockworld::chunk::{Chunk, ChunkFields};
use blockworld::items::Item;
use blockworld::packets::{chunk_payload, map_chunk, pre_chunk};
use blockworld::storage::StoreError;
use std::collections::HashMap;

fn sample(x: i32, z: i32) -> Chunk {
    Chunk {
        chunk_x: x,
        chunk_z: z,
        terrain_populated: true,
        last_update: u64::MAX - 5,
        blocks: (0..32768).map(|i: u32| (i % 251) as u8).collect(),
        data: vec![1, 255],
        block_light: vec![128],
        sky_light: vec![127, 0],
        height_map: vec![],
    }
}

fn gzip(name: &str, value: nbt::Value) -> Vec<u8> {
    let mut blob = nbt::Blob::new();
    blob.insert(name, value).unwrap();
    let mut bytes = Vec::new();
    blob.to_gzip_writer(&mut bytes).unwrap();
    bytes
}

/// A gzip file that holds the bytes as they are.
fn stored(bytes: &[u8]) -> Vec<u8> {
    let mut crc: u32 = !0;
    for &byte in bytes {
        crc ^= byte as u32;
        for _ in 0..8 {
            crc = if crc & 1 == 1 { crc >> 1 ^ 0xedb8_8320 } else { crc >> 1 };
        }
    }
    let len = bytes.len() as u16;
    let mut file = vec![0x1f, 0x8b, 8, 0, 0, 0, 0, 0, 0, 255, 1];
    file.extend_from_slice(&len.to_le_bytes());
    file.extend_from_slice(&(!len).to_le_bytes());
    file.extend_from_slice(bytes);
    file.extend_from_slice(&(!crc).to_le_bytes());
    file.extend_from_slice(&(len as u32).to_le_bytes());
    file
}

fn level_fields() -> HashMap<String, nbt::Value> {
    let mut fields = HashMap::new();
    fields.insert("TerrainPopulated".to_string(), nbt::Value::Byte(1));
    fields.insert("LastUpdate".to_string(), nbt::Value::Long(-2));
    fields.insert("Blocks".to_string(), nbt::Value::ByteArray(vec![1, -1, -128]));
    fields.insert("Data".to_string(), nbt::Value::ByteArray(vec![2]));
    fields.insert("BlockLight".to_string(), nbt::Value::ByteArray(vec![]));
    fields.insert("SkyLight".to_string(), nbt::Value::ByteArray(vec![3, 4]));
    fields.insert("HeightMap".to_string(), nbt::Value::ByteArray(vec![64]));
    fields
}

#[test]
fn blocks_are_stored_in_columns() {
    let chunk = sample(0, 0);
    assert_eq!(chunk.get_block(0, 0, 0), Some(0));
    assert_eq!(chunk.get_block(0, 5, 0), Some(5));
    assert_eq!(chunk.get_block(0, 0, 1), Some(128));
    assert_eq!(chunk.get_block(1, 0, 0), Some((2048 % 251) as u8));
    assert_eq!(chunk.get_block(15, 127, 15), Some((32767 % 251) as u8));
}

#[test]
fn blocks_outside_are_none() {
    let mut chunk = sample(0, 0);
    assert_eq!(chunk.get_block(16, 0, 0), None);
    assert_eq!(chunk.set_block(16, 0, 0, 9), None);
    assert_eq!(chunk.blocks, sample(0, 0).blocks);
    chunk.blocks.clear();
    assert_eq!(chunk.get_block(0, 0, 0), None);
}

#[test]
fn set_block_returns_the_old_block() {
    let mut chunk = sample(0, 0);
    assert_eq!(chunk.set_block(1, 2, 3, 200), Some(((2 + 3 * 128 + 2048) % 251) as u8));
    assert_eq!(chunk.get_block(1, 2, 3), Some(200));
    assert_eq!(chunk.set_block(1, 2, 3, 7), Some(200));
}

#[test]
fn set_block_changes_one_block_and_can_be_undone() {
    let mut chunk = sample(0, 0);
    let old = chunk.set_block(3, 70, 4, 77).unwrap();
    let changed: Vec<usize> =
        (0..32768).filter(|&i| chunk.blocks[i] != sample(0, 0).blocks[i]).collect();
    assert_eq!(changed, vec![70 + 4 * 128 + 3 * 2048]);
    chunk.set_block(3, 70, 4, old);
    assert_eq!(chunk.blocks, sample(0, 0).blocks);
}

#[test]
fn duplicates_are_equal() {
    let chunk = sample(-9, 12);
    assert_eq!(format!("{:?}", chunk.duplicate()), format!("{chunk:?}"));
}

#[test]
fn chunk_files() {
    let path = Chunk::load_path(70, -1);
    assert_eq!(path.outer, "6");
    assert_eq!(path.inner, "1r");
    assert_eq!(path.file, "c.70.-1.dat");
}

#[test]
fn chunks_are_saved_where_they_are_loaded_from() {
    for (x, z) in [(0, 0), (63, 17), (64, 0), (-1, 5), (i32::MIN, i32::MAX)] {
        let (load, save) = (Chunk::load_path(x, z), sample(x, z).save_path());
        assert_eq!((load.outer, load.inner, load.file), (save.outer, save.inner, save.file));
    }
}

#[test]
fn chunk_files_differ() {
    let mut names = std::collections::HashSet::new();
    for x in -12..12 {
        for z in -12..12 {
            assert!(names.insert(Chunk::load_path(x, z).file));
        }
    }
}

#[test]
fn load_reads_the_level() {
    let bytes = gzip("Level", nbt::Value::Compound(level_fields()));
    let chunk = Chunk::load(&bytes, 4, -7).unwrap();
    assert_eq!((chunk.chunk_x, chunk.chunk_z), (4, -7));
    assert!(chunk.terrain_populated);
    assert_eq!(chunk.last_update, u64::MAX - 1);
    assert_eq!(chunk.blocks, vec![1, 255, 128]);
    assert_eq!(chunk.data, vec![2]);
    assert_eq!(chunk.block_light, Vec::<u8>::new());
    assert_eq!(chunk.sky_light, vec![3, 4]);
    assert_eq!(chunk.height_map, vec![64]);
}

#[test]
fn load_takes_integers_of_any_type() {
    let mut fields = level_fields();
    fields.insert("TerrainPopulated".to_string(), nbt::Value::Int(0));
    fields.insert("LastUpdate".to_string(), nbt::Value::Short(300));
    fields.insert("Blocks".to_string(), nbt::Value::IntArray(vec![256, 257, -1]));
    let bytes = gzip("Level", nbt::Value::Compound(fields));
    let chunk = Chunk::load(&bytes, 0, 0).unwrap();
    assert!(!chunk.terrain_populated);
    assert_eq!(chunk.last_update, 300);
    assert_eq!(chunk.blocks, vec![0, 1, 255]);
}

#[test]
fn load_refuses_other_bytes() {
    assert!(matches!(Chunk::load(b"not gzip", 0, 0), Err(StoreError::Nbt(_))));
    assert!(matches!(Chunk::load(b"", 0, 0), Err(StoreError::Nbt(_))));
    assert!(matches!(Chunk::try_load(b"not gzip", 0, 0), Err(StoreError::Nbt(_))));
}

#[test]
fn load_needs_a_level() {
    let bytes = gzip("Other", nbt::Value::Compound(level_fields()));
    assert!(matches!(Chunk::try_load(&bytes, 0, 0), Err(StoreError::Missing)));
}

#[test]
fn load_needs_every_field() {
    let names = [
        "TerrainPopulated",
        "LastUpdate",
        "Blocks",
        "Data",
        "BlockLight",
        "SkyLight",
        "HeightMap",
    ];
    for name in names {
        let mut fields = level_fields();
        fields.remove(name);
        let bytes = gzip("Level", nbt::Value::Compound(fields));
        assert!(matches!(Chunk::try_load(&bytes, 0, 0), Err(StoreError::Malformed)));
        let mut fields = level_fields();
        fields.insert(name.to_string(), nbt::Value::String("text".to_string()));
        let bytes = gzip("Level", nbt::Value::Compound(fields));
        assert!(matches!(Chunk::try_load(&bytes, 0, 0), Err(StoreError::Malformed)));
    }
    let bytes = gzip("Level", nbt::Value::Int(7));
    assert!(matches!(Chunk::try_load(&bytes, 0, 0), Err(StoreError::Malformed)));
}

#[test]
fn load_takes_levels_of_limited_depth() {
    let nested = |depth: usize| {
        let mut value = nbt::Value::Compound(HashMap::new());
        for _ in 1..depth {
            let mut fields = HashMap::new();
            fields.insert("a".to_string(), value);
            value = nbt::Value::Compound(fields);
        }
        gzip("Level", value)
    };
    assert!(matches!(Chunk::try_load(&nested(1), 0, 0), Err(StoreError::Malformed)));
    assert!(matches!(Chunk::try_load(&nested(127), 0, 0), Err(StoreError::Malformed)));
    assert!(matches!(Chunk::try_load(&nested(128), 0, 0), Err(StoreError::Json(_))));
}

#[test]
fn load_takes_arrays_of_limited_depth() {
    let nested = |depth: usize| {
        let mut value = nbt::Value::ByteArray(vec![1, 2]);
        for _ in 1..depth {
            let mut fields = HashMap::new();
            fields.insert("a".to_string(), value);
            value = nbt::Value::Compound(fields);
        }
        gzip("Level", value)
    };
    assert!(matches!(Chunk::try_load(&nested(127), 0, 0), Err(StoreError::Malformed)));
    assert!(matches!(Chunk::try_load(&nested(128), 0, 0), Err(StoreError::Json(_))));
}

#[test]
fn load_refuses_negative_lengths() {
    let mut bytes = Vec::new();
    let mut blob = nbt::Blob::new();
    blob.insert("Level", nbt::Value::Compound(level_fields())).unwrap();
    blob.to_writer(&mut bytes).unwrap();
    let at = bytes.windows(8).position(|w| w == b"SkyLight").unwrap() + 8;
    assert_eq!(bytes[at..at + 4], [0, 0, 0, 2]);
    bytes[at] = 255;
    assert!(matches!(Chunk::load(&stored(&bytes), 0, 0), Err(StoreError::Nbt(_))));
    bytes[at] = 0;
    assert!(Chunk::load(&stored(&bytes), 0, 0).is_ok());
}

#[test]
fn saved_chunk_has_the_fields_of_the_chunk() {
    let chunk = sample(3, 4);
    let bytes = chunk.save().unwrap();
    let blob = nbt::Blob::from_gzip_reader(&mut &bytes[..]).unwrap();
    let fields = match blob.get("Level") {
        Some(nbt::Value::Compound(fields)) => fields,
        other => panic!("{other:?}"),
    };
    assert_eq!(fields.len(), 7);
    assert_eq!(fields["TerrainPopulated"], nbt::Value::Byte(1));
    assert_eq!(fields["LastUpdate"], nbt::Value::Long(-6));
    assert_eq!(fields["Data"], nbt::Value::ByteArray(vec![1, -1]));
    assert_eq!(fields["BlockLight"], nbt::Value::ByteArray(vec![-128]));
    assert_eq!(fields["SkyLight"], nbt::Value::ByteArray(vec![127, 0]));
    assert_eq!(fields["HeightMap"], nbt::Value::ByteArray(vec![]));
    let blocks: Vec<i8> = chunk.blocks.iter().map(|&b| b as i8).collect();
    assert_eq!(fields["Blocks"], nbt::Value::ByteArray(blocks));
}

#[test]
fn saved_chunk_is_loaded() {
    for (x, z) in [(3, 4), (-3, 200)] {
        let mut chunk = sample(x, z);
        chunk.set_block(3, 70, 4, 77);
        let read = Chunk::load(&chunk.save().unwrap(), x, z).unwrap();
        assert_eq!(format!("{read:?}"), format!("{chunk:?}"));
        assert_eq!(read.get_block(3, 70, 4), Some(77));
        let tried = Chunk::try_load(&chunk.save().unwrap(), x, z).unwrap();
        assert_eq!(format!("{tried:?}"), format!("{chunk:?}"));
    }
}

#[test]
fn chunk_fields_must_be_complete() {
    let fields = || ChunkFields {
        terrain_populated: Some(2),
        last_update: Some(9),
        blocks: Some(vec![Some(0x1ff), Some(-1)]),
        data: Some(vec![]),
        block_light: Some(vec![]),
        sky_light: Some(vec![]),
        height_map: Some(vec![Some(i64::MIN)]),
    };
    let chunk = Chunk::from_fields(1, 2, &fields()).unwrap();
    assert!(chunk.terrain_populated);
    assert_eq!(chunk.last_update, 9);
    assert_eq!(chunk.blocks, vec![255, 255]);
    assert_eq!(chunk.height_map, vec![0]);
    assert!(Chunk::from_fields(1, 2, &ChunkFields { last_update: None, ..fields() }).is_none());
    assert!(Chunk::from_fields(1, 2, &ChunkFields { data: None, ..fields() }).is_none());
    let odd = ChunkFields { data: Some(vec![Some(1), None]), ..fields() };
    assert!(Chunk::from_fields(1, 2, &odd).is_none());
}

#[test]
fn chunk_of_a_block() {
    let chunks = [sample(0, 0), sample(-1, 2), sample(1, 0)];
    let at = |x, z| get_chunk_from_block(&chunks, x, z).map(|c| (c.chunk_x, c.chunk_z));
    assert_eq!(at(0, 0), Some((0, 0)));
    assert_eq!(at(15, 15), Some((0, 0)));
    assert_eq!(at(16, 0), Some((1, 0)));
    assert_eq!(at(-1, 32), Some((-1, 2)));
    assert_eq!(at(-16, 47), Some((-1, 2)));
    assert_eq!(at(-17, 47), None);
}

#[test]
fn block_ids_by_world_coordinates() {
    let chunks = [sample(0, 0), sample(-1, -1)];
    assert_eq!(get_block_id(&chunks, 0, 5, 0), Some(5));
    assert_eq!(get_block_id(&chunks, -16, 7, -16), Some(7));
    assert_eq!(get_block_id(&chunks, -1, 127, -1), Some((32767 % 251) as u8 as i8));
    assert_eq!(get_block_id(&chunks, 1, 0, 1), Some(((128 + 2048) % 251) as u8 as i8));
    assert_eq!(get_block_id(&chunks, 16, 0, 0), None);
    assert_eq!(get_block_id(&chunks, 0, -1, 0), None);
    let local = chunks[1].get_block(13, 9, 14).unwrap() as i8;
    assert_eq!(get_block_id(&chunks, -3, 9, -2), Some(local));
}

#[test]
fn broken_blocks_drop_themselves() {
    let chunks = [sample(0, 0)];
    let item = Item { item_type: 5, count: 1, life: 0 };
    assert_eq!(dropped_item(&chunks, 0, 5, 0), Some(item));
    assert_eq!(dropped_item(&chunks, 100, 5, 0), None);
}

#[test]
fn chunk_packets() {
    let chunk = sample(-2, 3);
    let before = pre_chunk(&chunk);
    assert_eq!((before.x, before.z, before.mode), (-2, 3, true));
    let payload = chunk_payload(&chunk);
    assert_eq!(payload.len(), 32768 + 2 + 1 + 2);
    assert_eq!(payload[32768..], [1, 255, 128, 127, 0]);
    let packet = map_chunk(&chunk, vec![9, 8, 7]);
    assert_eq!((packet.x, packet.y, packet.z), (-32, 0, 48));
    assert_eq!((packet.size_x, packet.size_y, packet.size_z), (15, 127, 15));
    assert_eq!(packet.compressed_size, 3);
    assert_eq!(packet.compressed_data, vec![9, 8, 7]);
    assert_eq!(before.encode(), vec![0x32, 255, 255, 255, 254, 0, 0, 0, 3, 1]);
    assert_eq!(packet.encode(), vec![
        0x33, 255, 255, 255, 224, 0, 0, 0, 0, 0, 48, 15, 127, 15, 0, 0, 0, 3, 9, 8, 7
    ]);
}
