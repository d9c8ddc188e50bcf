use blockworld::chunk::Chunk;
use blockworld::nbt_data::{
    byte_field, bytes_field, int_field, long_field, read_nbt_bool, read_nbt_byte,
    read_nbt_byte_array, read_nbt_i32, read_nbt_i64, FieldError, NbtField,
};
use blockworld::storage::StoreError;
use blockworld::world::{
    chunk_key, save_copy, Level, LevelFields, SavedChunk, UnloadError, World,
};
use std::collections::HashMap;
use std::sync::Arc;

fn chunk(x: i32, z: i32) -> Chunk {
    Chunk {
        chunk_x: x,
        chunk_z: z,
        terrain_populated: false,
        last_update: 0,
        blocks: vec![1, 2, 3],
        data: vec![],
        block_light: vec![],
        sky_light: vec![],
        height_map: vec![],
    }
}

fn gzip(name: &str, fields: HashMap<String, nbt::Value>) -> Vec<u8> {
    let mut blob = nbt::Blob::new();
    blob.insert(name, nbt::Value::Compound(fields)).unwrap();
    let mut bytes = Vec::new();
    blob.to_gzip_writer(&mut bytes).unwrap();
    bytes
}

fn level_tags() -> HashMap<String, nbt::Value> {
    let mut fields = HashMap::new();
    fields.insert("RandomSeed".to_string(), nbt::Value::Long(-5123456789));
    fields.insert("SpawnX".to_string(), nbt::Value::Int(-1));
    fields.insert("SpawnY".to_string(), nbt::Value::Long(0x1_0000_0005));
    fields.insert("SpawnZ".to_string(), nbt::Value::Int(i32::MAX));
    fields.insert("Time".to_string(), nbt::Value::Long(24000));
    fields.insert("SizeOnDisk".to_string(), nbt::Value::Long(0));
    fields.insert("LastPlayed".to_string(), nbt::Value::Long(i64::MAX));
    fields
}

fn world() -> World {
    World::open(&gzip("Data", level_tags())).unwrap()
}

fn compound(bytes: &[u8], name: &'static str) -> HashMap<String, nbt::Value> {
    let blob = nbt::Blob::from_gzip_reader(&mut &bytes[..]).unwrap();
    match blob.get(name) {
        Some(nbt::Value::Compound(fields)) => fields.clone(),
        other => panic!("{other:?}"),
    }
}

#[test]
fn open_reads_the_level() {
    let world = world();
    assert_eq!(world.get_spawn(), [-1, 5, i32::MAX]);
    assert!(world.get_chunk(0, 0).is_none());
    let fields = compound(&world.close(0, 0).unwrap(), "Data");
    assert_eq!(fields["RandomSeed"], nbt::Value::Long(-5123456789));
    assert_eq!(fields["Time"], nbt::Value::Long(24000));
}

#[test]
fn open_refuses_other_files() {
    assert!(matches!(World::open(b"no level"), Err(StoreError::Nbt(_))));
    assert!(matches!(World::try_open(b"no level"), Err(StoreError::Nbt(_))));
    let other = gzip("Level", level_tags());
    assert!(matches!(World::try_open(&other), Err(StoreError::Missing)));
    for name in level_tags().keys() {
        let mut fields = level_tags();
        fields.remove(name);
        assert!(matches!(World::try_open(&gzip("Data", fields)), Err(StoreError::Malformed)));
    }
    let mut fields = level_tags();
    fields.insert("Time".to_string(), nbt::Value::Long(-1));
    assert!(matches!(World::try_open(&gzip("Data", fields)), Err(StoreError::Malformed)));
}

#[test]
fn open_takes_limited_depth() {
    let nested = |depth: usize| {
        let mut fields = level_tags();
        let mut value = nbt::Value::Byte(0);
        for _ in 1..depth {
            let mut inner = HashMap::new();
            inner.insert("a".to_string(), value);
            value = nbt::Value::Compound(inner);
        }
        fields.insert("Extra".to_string(), value);
        gzip("Data", fields)
    };
    assert!(World::open(&nested(127)).is_ok());
    assert!(World::try_open(&nested(127)).is_ok());
    assert!(matches!(World::try_open(&nested(128)), Err(StoreError::Json(_))));
}

#[test]
fn closed_world_opens_again() {
    let bytes = world().close(98765, 1_700_000_000).unwrap();
    let opened = World::open(&bytes).unwrap();
    assert_eq!(opened.get_spawn(), [-1, 5, i32::MAX]);
    let again = opened.close(98765, 1_700_000_000).unwrap();
    assert_eq!(compound(&again, "Data"), compound(&bytes, "Data"));
}

#[test]
fn world_with_huge_numbers_does_not_open_again() {
    let bytes = world().close(u64::MAX, 0).unwrap();
    assert!(matches!(World::try_open(&bytes), Err(StoreError::Malformed)));
    let bytes = world().close(i64::MAX as u64, 0).unwrap();
    assert!(World::open(&bytes).is_ok());
}

#[test]
fn closed_world_has_the_fields_of_the_level() {
    let fields = compound(&world().close(70_000, 300).unwrap(), "Data");
    assert_eq!(fields.len(), 7);
    assert_eq!(fields["RandomSeed"], nbt::Value::Long(-5123456789));
    assert_eq!(fields["SpawnX"], nbt::Value::Int(-1));
    assert_eq!(fields["SpawnY"], nbt::Value::Int(5));
    assert_eq!(fields["SpawnZ"], nbt::Value::Int(i32::MAX));
    assert_eq!(fields["Time"], nbt::Value::Long(24000));
    assert_eq!(fields["SizeOnDisk"], nbt::Value::Long(70_000));
    assert_eq!(fields["LastPlayed"], nbt::Value::Long(300));
}

#[test]
fn numbers_of_a_closed_world_are_read_narrowed() {
    let bytes = world().close(70_000, 300).unwrap();
    let blob: nbt::Blob = nbt::from_gzip_reader(&bytes[..]).unwrap();
    match blob.get("Data") {
        Some(nbt::Value::Compound(fields)) => {
            assert_eq!(fields["SpawnX"], nbt::Value::Byte(-1));
            assert_eq!(fields["LastPlayed"], nbt::Value::Short(300));
            assert_eq!(fields["SizeOnDisk"], nbt::Value::Int(70_000));
            assert_eq!(fields["RandomSeed"], nbt::Value::Long(-5123456789));
        },
        other => panic!("{other:?}"),
    }
}

#[test]
fn level_fields_must_be_complete() {
    let fields = LevelFields {
        seed: Some(1),
        spawn_x: Some(-1),
        spawn_y: Some(0x1_ffff_ffff),
        spawn_z: Some(3),
        time: Some(4),
        size_on_disk: Some(5),
        last_played: Some(u64::MAX),
    };
    let level = Level::from_fields(fields).unwrap();
    assert_eq!(level.spawn, [-1, -1, 3]);
    assert_eq!(level.last_played, u64::MAX);
    assert!(Level::from_fields(LevelFields { seed: None, ..fields }).is_none());
    assert!(Level::from_fields(LevelFields { spawn_z: None, ..fields }).is_none());
    assert!(Level::from_fields(LevelFields { time: None, ..fields }).is_none());
}

#[test]
fn chunk_keys_are_the_coordinates() {
    assert_eq!(chunk_key(0, 0), 0);
    assert_eq!(chunk_key(1, 2), 0x1_0000_0002);
    assert_eq!(chunk_key(-1, 0), 0xffff_ffff_0000_0000);
    assert_eq!(chunk_key(0, -1), 0xffff_ffff);
    assert_eq!(chunk_key(i32::MIN, i32::MAX), 0x8000_0000_7fff_ffff);
}

#[test]
fn chunk_keys_differ() {
    let mut keys = std::collections::HashSet::new();
    for x in -20..20 {
        for z in (-20..20).chain([-32767, 32767]) {
            assert!(keys.insert(chunk_key(x, z)));
        }
    }
}

#[test]
fn every_chunk_is_found_at_its_own_coordinates() {
    let mut world = world();
    world.insert_chunk(0, -32767, chunk(0, -32767));
    assert!(world.get_chunk(1, -32767).is_none());
    world.insert_chunk(1, -32767, chunk(1, -32767));
    for x in [0, 1] {
        let found = world.get_chunk(x, -32767).unwrap();
        assert_eq!(found.try_lock().unwrap().chunk_x, x);
    }
}

/// Loads what was saved, from the file that the chunk at the given coordinates is loaded from.
fn load(saved: &SavedChunk, x: i32, z: i32) -> Chunk {
    let path = Chunk::load_path(x, z);
    assert_eq!(path.outer, saved.path.outer);
    assert_eq!(path.inner, saved.path.inner);
    assert_eq!(path.file, saved.path.file);
    Chunk::load(&saved.bytes, x, z).unwrap()
}

#[test]
fn chunks_are_kept_and_unloaded() {
    let mut world = world();
    assert!(world.get_chunk(1, 2).is_none());
    let shared = world.insert_chunk(1, 2, chunk(1, 2));
    assert_eq!(shared.try_lock().unwrap().blocks, vec![1, 2, 3]);
    world.insert_chunk(1, 3, chunk(1, 3));
    assert!(Arc::ptr_eq(&world.get_chunk(1, 2).unwrap(), &shared));
    let saved = world.unload_chunk(1, 2).unwrap();
    assert_eq!(saved.path.file, "c.1.2.dat");
    assert!(world.get_chunk(1, 2).is_none());
    assert!(matches!(world.unload_chunk(1, 2), Err(UnloadError::NotLoaded)));
    assert_eq!(world.get_chunk(1, 3).unwrap().try_lock().unwrap().chunk_z, 3);
}

#[test]
fn edits_come_back_after_unloading() {
    for (x, z) in [(1, 2), (-1, 70), (64, -32767)] {
        let mut world = world();
        let shared = world.insert_chunk(x, z, chunk(x, z));
        assert_eq!(shared.try_lock().unwrap().set_block(0, 1, 0, 99), Some(2));
        let edited = shared.try_lock().unwrap().duplicate();
        let loaded = load(&world.unload_chunk(x, z).unwrap(), x, z);
        assert_eq!(loaded.get_block(0, 1, 0), Some(99));
        assert_eq!(format!("{loaded:?}"), format!("{edited:?}"));
        world.insert_chunk(x, z, loaded);
        let found = world.get_chunk(x, z).unwrap();
        assert_eq!(found.try_lock().unwrap().get_block(0, 1, 0), Some(99));
    }
}

#[test]
fn loaded_chunks_are_kept_and_errors_passed_on() {
    let mut world = world();
    let failed = Chunk::try_load(b"no chunk", 1, 2);
    assert!(matches!(world.keep_loaded(1, 2, failed), Err(StoreError::Nbt(_))));
    assert!(world.get_chunk(1, 2).is_none());
    let loaded = Chunk::try_load(&chunk(1, 2).save().unwrap(), 1, 2);
    let kept = world.keep_loaded(1, 2, loaded).unwrap();
    assert_eq!(kept.try_lock().unwrap().blocks, vec![1, 2, 3]);
    assert!(Arc::ptr_eq(&world.get_chunk(1, 2).unwrap(), &kept));
}

#[test]
fn chunks_in_use_stay() {
    let mut world = world();
    world.insert_chunk(1, 2, chunk(1, 2));
    let in_use = world.get_chunk(1, 2).unwrap();
    let guard = in_use.try_lock().unwrap();
    assert!(matches!(world.unload_chunk(1, 2), Err(UnloadError::InUse(_))));
    drop(guard);
    assert!(Arc::ptr_eq(&world.get_chunk(1, 2).unwrap(), &in_use));
    assert!(world.unload_chunk(1, 2).is_ok());
    assert!(world.get_chunk(1, 2).is_none());
}

#[test]
fn copies_are_saved() {
    let saved = save_copy(Ok(chunk(5, 6))).unwrap();
    assert_eq!(format!("{:?}", load(&saved, 5, 6)), format!("{:?}", chunk(5, 6)));
    let mutex = tokio::sync::Mutex::new(());
    let guard = mutex.try_lock().unwrap();
    let in_use = mutex.try_lock().map(|_| chunk(0, 0));
    assert!(matches!(save_copy(in_use), Err(UnloadError::InUse(_))));
    drop(guard);
}

fn fields() -> nbt::Blob {
    let mut blob = nbt::Blob::new();
    blob.insert("long", 1_i64 << 40).unwrap();
    blob.insert("int", -70_000_i32).unwrap();
    blob.insert("byte", -3_i8).unwrap();
    blob.insert("one", 1_i8).unwrap();
    blob.insert("zero", 0_i8).unwrap();
    blob.insert("bytes", nbt::Value::ByteArray(vec![1, -1, -128])).unwrap();
    blob.insert("text", "abc".to_string()).unwrap();
    blob
}

#[test]
fn fields_of_the_right_type() {
    let blob = fields();
    assert_eq!(read_nbt_i64(&blob, "long"), Ok(1 << 40));
    assert_eq!(read_nbt_i32(&blob, "int"), Ok(-70_000));
    assert_eq!(read_nbt_byte(&blob, "byte"), Ok(-3));
    assert_eq!(read_nbt_bool(&blob, "byte"), Ok(false));
    assert_eq!(read_nbt_bool(&blob, "one"), Ok(true));
    assert_eq!(read_nbt_bool(&blob, "zero"), Ok(false));
    assert_eq!(read_nbt_byte_array(&blob, "bytes"), Ok(vec![1, 255, 128]));
}

#[test]
fn fields_of_another_type() {
    let blob = fields();
    assert_eq!(read_nbt_i64(&blob, "int"), Err(FieldError::WrongType));
    assert_eq!(read_nbt_i32(&blob, "long"), Err(FieldError::WrongType));
    assert_eq!(read_nbt_byte(&blob, "text"), Err(FieldError::WrongType));
    assert_eq!(read_nbt_bool(&blob, "int"), Err(FieldError::WrongType));
    assert_eq!(read_nbt_byte_array(&blob, "byte"), Err(FieldError::WrongType));
    assert_eq!(FieldError::WrongType.message(), "Field has wrong type!");
}

#[test]
fn fields_that_are_missing() {
    let blob = fields();
    assert_eq!(read_nbt_i64(&blob, "x"), Err(FieldError::Missing));
    assert_eq!(read_nbt_i32(&blob, "x"), Err(FieldError::Missing));
    assert_eq!(read_nbt_byte(&blob, "x"), Err(FieldError::Missing));
    assert_eq!(read_nbt_bool(&blob, "x"), Err(FieldError::Missing));
    assert_eq!(read_nbt_byte_array(&blob, "x"), Err(FieldError::Missing));
    assert_eq!(FieldError::Missing.message(), "Field does not exist!");
}

#[test]
fn fields_that_were_looked_up() {
    assert_eq!(long_field(Some(Some(NbtField::Long(5)))), Ok(5));
    assert_eq!(long_field(Some(None)), Err(FieldError::WrongType));
    assert_eq!(long_field(None), Err(FieldError::Missing));
    assert_eq!(int_field(Some(Some(NbtField::Int(5)))), Ok(5));
    assert_eq!(int_field(Some(Some(NbtField::Long(5)))), Err(FieldError::WrongType));
    assert_eq!(byte_field(Some(Some(NbtField::Byte(5)))), Ok(5));
    assert_eq!(byte_field(None), Err(FieldError::Missing));
    assert_eq!(bytes_field(Some(Some(NbtField::ByteArray(vec![-2])))), Ok(vec![254]));
    assert_eq!(bytes_field(Some(Some(NbtField::Byte(5)))), Err(FieldError::WrongType));
}
