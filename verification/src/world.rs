//! Worlds: the data of a level, and the chunks that are in memory.
use crate::chunk::{chunk_fits, chunk_in_file, law_saved_chunk_is_loaded, load_path, saved_tags};
use crate::chunk::{Chunk, ChunkPath, ChunkView};
use crate::json::{item_i64, item_u64, json_fields, json_i64, json_u64, JsonItem};
use crate::nbt_data::{
    compound_tags, gzip_tags, json_fields_of, narrowed_compounds, nested_within, no_tags,
    typed_gzip_tags, NbtField, Tag,
};
use crate::storage::{
    add_field, compound_fits, file_tags, read_compound, single_compound, write_compound,
    StoreError,
};
use std::collections::HashMap;
use std::sync::Arc;
use tokio::sync::{Mutex, TryLockError};
use vstd::prelude::*;

verus! {

broadcast use vstd::std_specs::hash::group_hash_axioms;

/// `tokio::sync::Mutex`: a value that several tasks take turns to use.
#[verifier::external_type_specification]
#[verifier::external_body]
#[verifier::reject_recursive_types(T)]
pub struct ExMutex<T: ?Sized>(Mutex<T>);

/// The chunk that a mutex was made around.
pub uninterp spec fn first_chunk(mutex: Mutex<Chunk>) -> ChunkView;

/// `tokio::sync::Mutex::new`: a mutex around the chunk. What the mutex holds once others have
/// had a turn is left open.
#[verifier::external_body]
fn share(chunk: Chunk) -> (r: Arc<Mutex<Chunk>>)
    ensures
        first_chunk(*r) == chunk@,
{
    Arc::new(Mutex::new(chunk))
}

/// `tokio::sync::TryLockError`: a mutex is in use.
#[verifier::external_type_specification]
#[verifier::external_body]
pub struct ExTryLockError(TryLockError);

/// Whether a mutex held the chunk when it was looked into.
pub uninterp spec fn held(mutex: Mutex<Chunk>, chunk: ChunkView) -> bool;

/// Whether a mutex was in use when it was to be looked into.
pub uninterp spec fn found_in_use(mutex: Mutex<Chunk>) -> bool;

/// `tokio::sync::Mutex::try_lock`: a copy of the chunk that the mutex holds at the moment, unless
/// it is in use. Which chunk that is, and whether it is in use, depends on other tasks and is not
/// stated.
#[verifier::external_body]
fn try_copy(mutex: &Mutex<Chunk>) -> (r: Result<Chunk, TryLockError>)
    ensures
        r matches Ok(chunk) ==> held(*mutex, chunk@),
        r is Err ==> found_in_use(*mutex),
{
    mutex.try_lock().map(|chunk| chunk.duplicate())
}

/// The data of a level.
#[derive(Debug)]
pub struct Level {
    pub seed: i64,
    pub spawn: [i32; 3],
    pub time: u64,
    pub size_on_disk: u64,
    pub last_played: u64,
}

/// What a level's data are.
#[verifier::ext_equal]
pub ghost struct LevelView {
    pub seed: i64,
    pub spawn: Seq<i32>,
    pub time: u64,
    pub size_on_disk: u64,
    pub last_played: u64,
}

impl View for Level {
    type V = LevelView;

    open spec fn view(&self) -> LevelView {
        LevelView {
            seed: self.seed,
            spawn: self.spawn@,
            time: self.time,
            size_on_disk: self.size_on_disk,
            last_played: self.last_played,
        }
    }
}

/// The numbers from which a level is made, as they were found: `None` for what is missing or is
/// no integer of the type.
#[derive(Debug, Clone, Copy)]
pub struct LevelFields {
    pub seed: Option<i64>,
    pub spawn_x: Option<i64>,
    pub spawn_y: Option<i64>,
    pub spawn_z: Option<i64>,
    pub time: Option<u64>,
    pub size_on_disk: Option<u64>,
    pub last_played: Option<u64>,
}

/// The level that the given numbers make up, if none is missing. Of the spawn coordinates the
/// low 32 bits count.
pub open spec fn level_from(fields: LevelFields) -> Option<LevelView> {
    match (
        fields.seed,
        fields.spawn_x,
        fields.spawn_y,
        fields.spawn_z,
        fields.time,
        fields.size_on_disk,
        fields.last_played,
    ) {
        (
            Some(seed),
            Some(x),
            Some(y),
            Some(z),
            Some(time),
            Some(size_on_disk),
            Some(last_played),
        ) => Some(
            LevelView {
                seed,
                spawn: seq![x as i32, y as i32, z as i32],
                time,
                size_on_disk,
                last_played,
            },
        ),
        _ => None,
    }
}

/// The numbers that a JSON object has for a level.
pub open spec fn level_fields(fields: Map<Seq<char>, JsonItem>) -> LevelFields {
    LevelFields {
        seed: item_i64(fields, "RandomSeed"@),
        spawn_x: item_i64(fields, "SpawnX"@),
        spawn_y: item_i64(fields, "SpawnY"@),
        spawn_z: item_i64(fields, "SpawnZ"@),
        time: item_u64(fields, "Time"@),
        size_on_disk: item_u64(fields, "SizeOnDisk"@),
        last_played: item_u64(fields, "LastPlayed"@),
    }
}

/// The level that the fields of a JSON object describe, if none is missing.
pub open spec fn level_of(fields: Map<Seq<char>, JsonItem>) -> Option<LevelView> {
    level_from(level_fields(fields))
}

/// The level that a file holds, if it holds one.
pub open spec fn level_in_file(bytes: Seq<u8>) -> Option<LevelView> {
    match gzip_tags(bytes) {
        Some(tags) => if tags.contains_key("Data"@) && nested_within(tags["Data"@], 127) {
            level_of(json_fields_of(tags["Data"@]))
        } else {
            None
        },
        None => None,
    }
}

/// The fields that a level is stored as when the world is closed at the time `now`, with files
/// of the given total size.
pub open spec fn closed_fields(level: LevelView, size: u64, now: u64) -> Map<Seq<char>, Tag> {
    no_tags().insert("RandomSeed"@, Tag::Long(level.seed)).insert(
        "SpawnX"@,
        Tag::Int(level.spawn[0]),
    ).insert("SpawnY"@, Tag::Int(level.spawn[1])).insert("SpawnZ"@, Tag::Int(level.spawn[2])).insert(
        "Time"@,
        Tag::Long(level.time as i64),
    ).insert("SizeOnDisk"@, Tag::Long(size as i64)).insert("LastPlayed"@, Tag::Long(now as i64))
}

/// The root tags of the file that a level is stored as.
pub open spec fn closed_tags(level: LevelView, size: u64, now: u64) -> Map<Seq<char>, Tag> {
    narrowed_compounds(single_compound("Data"@, closed_fields(level, size, now)))
}

/// The names of a level's fields differ.
proof fn reveal_level_names()
    ensures
        "RandomSeed"@.len() == 10,
        "SpawnX"@.len() == 6,
        "SpawnY"@.len() == 6,
        "SpawnZ"@.len() == 6,
        "Time"@.len() == 4,
        "SizeOnDisk"@.len() == 10,
        "LastPlayed"@.len() == 10,
        "Data"@.len() == 4,
        "RandomSeed"@[0] == 'R',
        "SizeOnDisk"@[0] == 'S',
        "LastPlayed"@[0] == 'L',
        "SpawnX"@[5] == 'X',
        "SpawnY"@[5] == 'Y',
        "SpawnZ"@[5] == 'Z',
{
    reveal_strlit("RandomSeed");
    reveal_strlit("SpawnX");
    reveal_strlit("SpawnY");
    reveal_strlit("SpawnZ");
    reveal_strlit("Time");
    reveal_strlit("SizeOnDisk");
    reveal_strlit("LastPlayed");
    reveal_strlit("Data");
}

impl Level {
    /// Makes a level of the numbers that were found, or `None` if one is missing.
    pub fn from_fields(fields: LevelFields) -> (r: Option<Level>)
        ensures
            r is Some <==> level_from(fields) is Some,
            r matches Some(level) ==> level_from(fields) == Some(level@),
            r is Some <==> fields.seed is Some && fields.spawn_x is Some && fields.spawn_y is Some
                && fields.spawn_z is Some && fields.time is Some && fields.size_on_disk is Some
                && fields.last_played is Some,
            r matches Some(level) ==> {
                &&& Some(level.seed) == fields.seed
                &&& Some(level.time) == fields.time
                &&& Some(level.size_on_disk) == fields.size_on_disk
                &&& Some(level.last_played) == fields.last_played
            },
    {
        match (fields.seed, fields.spawn_x, fields.spawn_y, fields.spawn_z) {
            (Some(seed), Some(x), Some(y), Some(z)) => {
                match (fields.time, fields.size_on_disk, fields.last_played) {
                    (Some(time), Some(size_on_disk), Some(last_played)) => {
                        let level: Level = Level {
                            seed,
                            spawn: [x as i32, y as i32, z as i32],
                            time,
                            size_on_disk,
                            last_played,
                        };
                        assert(level.spawn@ =~= seq![x as i32, y as i32, z as i32]);
                        Some(level)
                    },
                    _ => None,
                }
            },
            _ => None,
        }
    }
}

/// Looks up the numbers of a level in a JSON object.
fn find_level_fields(data: &serde_json::Value) -> (r: LevelFields)
    ensures
        r == level_fields(json_fields(*data)),
{
    LevelFields {
        seed: json_i64(data, "RandomSeed"),
        spawn_x: json_i64(data, "SpawnX"),
        spawn_y: json_i64(data, "SpawnY"),
        spawn_z: json_i64(data, "SpawnZ"),
        time: json_u64(data, "Time"),
        size_on_disk: json_u64(data, "SizeOnDisk"),
        last_played: json_u64(data, "LastPlayed"),
    }
}

/// The key under which the chunk at the given coordinates is kept: the bits of `x`, then those
/// of `z`.
pub open spec fn key_of(x: i32, z: i32) -> u64 {
    ((x as u32 as u64) * 0x1_0000_0000 + z as u32 as u64) as u64
}

/// Computes the key under which the chunk at the given coordinates is kept.
pub fn chunk_key(x: i32, z: i32) -> (r: u64)
    ensures
        r == key_of(x, z),
{
    (x as u32 as u64) * 0x1_0000_0000 + z as u32 as u64
}

/// A world: its level, and those of its chunks that are in memory. Every chunk is kept under the
/// key of its coordinates.
pub struct World {
    level: Level,
    chunks: HashMap<u64, Arc<Mutex<Chunk>>>,
}

/// What a world holds.
#[verifier::ext_equal]
pub ghost struct WorldView {
    pub level: LevelView,
    pub chunks: Map<u64, Arc<Mutex<Chunk>>>,
}

impl View for World {
    type V = WorldView;

    closed spec fn view(&self) -> WorldView {
        WorldView { level: self.level@, chunks: self.chunks@ }
    }
}

/// Whether a mutex was made around the chunk at the given coordinates.
pub open spec fn is_chunk_at(chunk: Arc<Mutex<Chunk>>, x: i32, z: i32) -> bool {
    first_chunk(*chunk).chunk_x == x && first_chunk(*chunk).chunk_z == z
}

impl WorldView {
    /// Whether every chunk is kept under the key of its coordinates.
    pub open spec fn wf(self) -> bool {
        forall|x: i32, z: i32| #[trigger]
            self.chunks.contains_key(key_of(x, z)) ==> is_chunk_at(self.chunks[key_of(x, z)], x, z)
    }
}

/// A chunk that was unloaded: where its file is, and the bytes that have to be written there.
#[derive(Debug)]
pub struct SavedChunk {
    pub path: ChunkPath,
    pub bytes: Vec<u8>,
}

/// Why a chunk could not be unloaded.
#[derive(Debug)]
pub enum UnloadError {
    /// It is not in memory.
    NotLoaded,
    /// It is in use.
    InUse(TryLockError),
    /// It could not be made into a file.
    Store(StoreError),
}

/// Whether these are the file of a chunk and its bytes. Nothing is said of the bytes of a chunk
/// with arrays that are too long to be stored.
pub open spec fn is_saved(saved: SavedChunk, chunk: ChunkView) -> bool {
    &&& saved.path@ == load_path(chunk.chunk_x, chunk.chunk_z)
    &&& chunk_fits(chunk) ==> file_tags(saved.bytes@) == Some(saved_tags(chunk))
}

/// The chunk that is kept for the given coordinates, if there is one.
pub open spec fn chunk_in(
    chunks: Map<u64, Arc<Mutex<Chunk>>>,
    x: i32,
    z: i32,
) -> Option<Arc<Mutex<Chunk>>> {
    if chunks.contains_key(key_of(x, z)) {
        Some(chunks[key_of(x, z)])
    } else {
        None
    }
}

/// What can be done with a copy of a chunk that is to be unloaded: it is made into a file. There
/// is no copy if the chunk is in use.
pub fn save_copy(copy: Result<Chunk, TryLockError>) -> (r: Result<SavedChunk, UnloadError>)
    ensures
        match copy {
            Ok(copy) => {
                &&& r matches Ok(saved) ==> is_saved(saved, copy@)
                &&& r matches Err(e) ==> e is Store && !chunk_fits(copy@)
            },
            Err(e) => r == Err::<SavedChunk, UnloadError>(UnloadError::InUse(e)),
        },
{
    match copy {
        Ok(copy) => match copy.save() {
            Ok(bytes) => Ok(SavedChunk { path: copy.save_path(), bytes }),
            Err(e) => Err(UnloadError::Store(e)),
        },
        Err(e) => Err(UnloadError::InUse(e)),
    }
}

impl World {
    #[verifier::type_invariant]
    spec fn well_kept(self) -> bool {
        self@.wf()
    }

    /// Opens a world, given the bytes of its `level.dat`. No chunk is in memory yet. If the bytes
    /// are a gzip-compressed NBT file at all, the level has to be in it; `try_open` takes any
    /// bytes.
    pub fn open(bytes: &[u8]) -> (r: Result<World, StoreError>)
        requires
            gzip_tags(bytes@) is Some ==> level_in_file(bytes@) is Some,
        ensures
            match gzip_tags(bytes@) {
                None => r matches Err(StoreError::Nbt(_)),
                Some(_) => {
                    &&& r is Ok
                    &&& level_in_file(bytes@) == Some(r->Ok_0@.level)
                    &&& r->Ok_0@.chunks == Map::<u64, Arc<Mutex<Chunk>>>::empty()
                },
            },
    {
        match read_compound(bytes, "Data") {
            Ok(data) => match Level::from_fields(find_level_fields(&data)) {
                Some(level) => Ok(
                    World { level, chunks: HashMap::with_capacity(u16::MAX as usize) },
                ),
                None => Err(StoreError::Malformed),
            },
            Err(e) => Err(e),
        }
    }

    /// Opens a world, given the bytes of its `level.dat`, after finding out whether the level is
    /// there.
    pub fn try_open(bytes: &[u8]) -> (r: Result<World, StoreError>)
        ensures
            r is Ok <==> level_in_file(bytes@) is Some,
            match gzip_tags(bytes@) {
                None => r matches Err(StoreError::Nbt(_)),
                Some(tags) => if tags.contains_key("Data"@) {
                    let data = tags["Data"@];
                    if nested_within(data, 127) {
                        match level_of(json_fields_of(data)) {
                            Some(level) => {
                                &&& r is Ok
                                &&& r->Ok_0@.level == level
                                &&& r->Ok_0@.chunks == Map::<u64, Arc<Mutex<Chunk>>>::empty()
                            },
                            None => r matches Err(StoreError::Malformed),
                        }
                    } else {
                        r matches Err(StoreError::Json(_))
                    }
                } else {
                    r matches Err(StoreError::Missing)
                },
            },
    {
        match read_compound(bytes, "Data") {
            Ok(data) => {
                if Level::from_fields(find_level_fields(&data)).is_none() {
                    return Err(StoreError::Malformed);
                }
            },
            Err(e) => return Err(e),
        }
        World::open(bytes)
    }

    /// Closes the world: makes the bytes of its `level.dat`, given the size of its files and the
    /// time in seconds.
    pub fn close(self, size: u64, now: u64) -> (r: Result<Vec<u8>, StoreError>)
        ensures
            r is Ok,
            typed_gzip_tags(r->Ok_0@) == Some(
                single_compound("Data"@, closed_fields(self@.level, size, now)),
            ),
            gzip_tags(r->Ok_0@) == Some(closed_tags(self@.level, size, now)),
    {
        let mut fields: Vec<(&'static str, NbtField)> = Vec::new();
        assert(compound_tags(fields@) =~= no_tags());
        add_field(&mut fields, "RandomSeed", NbtField::Long(self.level.seed));
        add_field(&mut fields, "SpawnX", NbtField::Int(self.level.spawn[0]));
        add_field(&mut fields, "SpawnY", NbtField::Int(self.level.spawn[1]));
        add_field(&mut fields, "SpawnZ", NbtField::Int(self.level.spawn[2]));
        add_field(&mut fields, "Time", NbtField::Long(self.level.time as i64));
        add_field(&mut fields, "SizeOnDisk", NbtField::Long(size as i64));
        add_field(&mut fields, "LastPlayed", NbtField::Long(now as i64));
        proof {
            assert(compound_tags(fields@) == closed_fields(self.level@, size, now));
            reveal_level_names();
            assert(compound_fits("Data"@, closed_fields(self.level@, size, now)));
        }
        write_compound("Data", fields)
    }

    /// Returns the chunk at the given coordinates if it is in memory. If it is not, it has to be
    /// loaded and handed to `keep_loaded`.
    pub fn get_chunk(&self, x: i32, z: i32) -> (r: Option<Arc<Mutex<Chunk>>>)
        ensures
            r == chunk_in(self@.chunks, x, z),
            r matches Some(chunk) ==> is_chunk_at(chunk, x, z),
    {
        proof {
            use_type_invariant(self);
        }
        let key: u64 = chunk_key(x, z);
        match self.chunks.get(&key) {
            Some(chunk) => Some(chunk.clone()),
            None => None,
        }
    }

    /// Keeps a chunk that was loaded for the given coordinates, and returns it for use.
    pub fn insert_chunk(&mut self, x: i32, z: i32, chunk: Chunk) -> (r: Arc<Mutex<Chunk>>)
        requires
            chunk.chunk_x == x,
            chunk.chunk_z == z,
        ensures
            first_chunk(*r) == chunk@,
            final(self)@.wf(),
            final(self)@.chunks == old(self)@.chunks.insert(key_of(x, z), r),
            final(self)@.level == old(self)@.level,
    {
        proof {
            use_type_invariant(&*self);
        }
        let shared: Arc<Mutex<Chunk>> = share(chunk);
        let mut chunks: HashMap<u64, Arc<Mutex<Chunk>>> = HashMap::new();
        std::mem::swap(&mut chunks, &mut self.chunks);
        chunks.insert(chunk_key(x, z), shared.clone());
        proof {
            lemma_insert_keeps_wf(old(self)@, x, z, shared);
        }
        self.chunks = chunks;
        shared
    }

    /// Goes on with what came of loading the chunk at the given coordinates: a chunk is kept and
    /// returned for use, an error is passed on and nothing is kept.
    pub fn keep_loaded(&mut self, x: i32, z: i32, loaded: Result<Chunk, StoreError>) -> (r: Result<
        Arc<Mutex<Chunk>>,
        StoreError,
    >)
        requires
            loaded matches Ok(chunk) ==> chunk.chunk_x == x && chunk.chunk_z == z,
        ensures
            match loaded {
                Ok(chunk) => {
                    &&& r is Ok
                    &&& first_chunk(*(r->Ok_0)) == chunk@
                    &&& final(self)@.wf()
                    &&& final(self)@.chunks == old(self)@.chunks.insert(key_of(x, z), r->Ok_0)
                    &&& final(self)@.level == old(self)@.level
                },
                Err(e) => r == Err::<Arc<Mutex<Chunk>>, StoreError>(e) && final(self)@ == old(
                    self,
                )@,
            },
    {
        match loaded {
            Ok(chunk) => Ok(self.insert_chunk(x, z, chunk)),
            Err(e) => Err(e),
        }
    }

    /// Unloads the chunk at the given coordinates, and returns what has to be written to disk. A
    /// chunk that is in use stays in memory.
    pub fn unload_chunk(&mut self, x: i32, z: i32) -> (r: Result<SavedChunk, UnloadError>)
        ensures
            final(self)@.wf(),
            final(self)@.level == old(self)@.level,
            match chunk_in(old(self)@.chunks, x, z) {
                None => r matches Err(UnloadError::NotLoaded) && final(self)@ == old(self)@,
                Some(mutex) => match r {
                    Ok(saved) => {
                        &&& final(self)@.chunks == old(self)@.chunks.remove(key_of(x, z))
                        &&& exists|chunk: ChunkView| #[trigger]
                            held(*mutex, chunk) && is_saved(saved, chunk)
                    },
                    Err(UnloadError::InUse(_)) => {
                        &&& final(self)@ == old(self)@
                        &&& found_in_use(*mutex)
                    },
                    Err(e) => {
                        &&& e is Store
                        &&& final(self)@.chunks == old(self)@.chunks.remove(key_of(x, z))
                        &&& exists|chunk: ChunkView| #[trigger]
                            held(*mutex, chunk) && !chunk_fits(chunk)
                    },
                },
            },
    {
        proof {
            use_type_invariant(&*self);
        }
        let chunk: Arc<Mutex<Chunk>> = match self.get_chunk(x, z) {
            Some(chunk) => chunk,
            None => return Err(UnloadError::NotLoaded),
        };
        let copy: Result<Chunk, TryLockError> = try_copy(&chunk);
        let saved: Result<SavedChunk, UnloadError> = save_copy(copy);
        match saved {
            Err(UnloadError::InUse(e)) => Err(UnloadError::InUse(e)),
            _ => {
                let mut chunks: HashMap<u64, Arc<Mutex<Chunk>>> = HashMap::new();
                std::mem::swap(&mut chunks, &mut self.chunks);
                let key: u64 = chunk_key(x, z);
                chunks.remove(&key);
                self.chunks = chunks;
                saved
            },
        }
    }

    /// The spawn position.
    pub fn get_spawn(&self) -> (r: [i32; 3])
        ensures
            r@ == self@.level.spawn,
    {
        self.level.spawn
    }
}

/// Different coordinates have different keys.
pub proof fn law_keys_differ(x1: i32, z1: i32, x2: i32, z2: i32)
    requires
        key_of(x1, z1) == key_of(x2, z2),
    ensures
        x1 == x2,
        z1 == z2,
{
    assert(x1 as u32 == x2 as u32 ==> x1 == x2) by (bit_vector);
    assert(z1 as u32 == z2 as u32 ==> z1 == z2) by (bit_vector);
}

/// A chunk may be added under the key of its coordinates.
proof fn lemma_insert_keeps_wf(world: WorldView, x: i32, z: i32, chunk: Arc<Mutex<Chunk>>)
    requires
        world.wf(),
        is_chunk_at(chunk, x, z),
    ensures
        (WorldView { chunks: world.chunks.insert(key_of(x, z), chunk), ..world }).wf(),
{
    let chunks = world.chunks.insert(key_of(x, z), chunk);
    assert forall|x2: i32, z2: i32| #[trigger]
        chunks.contains_key(key_of(x2, z2)) implies is_chunk_at(
        chunks[key_of(x2, z2)],
        x2,
        z2,
    ) by {
        if key_of(x2, z2) == key_of(x, z) {
            law_keys_differ(x2, z2, x, z);
        } else {
            assert(world.chunks.contains_key(key_of(x2, z2)));
        }
    }
}

/// Opening what `close` wrote gives back the level, with the size and the time that `close` was
/// given, unless one of these numbers or the level's time does not fit in an `i64`: then the
/// level cannot be read.
pub proof fn law_close_then_open(level: LevelView, size: u64, now: u64)
    requires
        level.spawn.len() == 3,
    ensures
        closed_tags(level, size, now).contains_key("Data"@),
        nested_within(closed_tags(level, size, now)["Data"@], 127),
        level_of(json_fields_of(closed_tags(level, size, now)["Data"@])) == if level.time
            <= i64::MAX && size <= i64::MAX && now <= i64::MAX {
            Some(LevelView { size_on_disk: size, last_played: now, ..level })
        } else {
            None
        },
{
    reveal_level_names();
    let time = level.time;
    assert(time > i64::MAX ==> (time as i64) < 0) by (bit_vector);
    assert(size > i64::MAX ==> (size as i64) < 0) by (bit_vector);
    assert(now > i64::MAX ==> (now as i64) < 0) by (bit_vector);
    let data = closed_tags(level, size, now)["Data"@];
    assert forall|name: Seq<char>| #[trigger]
        data->Compound_0.contains_key(name) implies nested_within(data->Compound_0[name], 126) by {
        reveal_with_fuel(nested_within, 2);
    }
    let fields = json_fields_of(data);
    let found = level_fields(fields);
    assert(found.seed == Some(level.seed));
    assert(found.spawn_x == Some(level.spawn[0] as i64));
    assert(found.spawn_y == Some(level.spawn[1] as i64));
    assert(found.spawn_z == Some(level.spawn[2] as i64));
    assert(seq![level.spawn[0], level.spawn[1], level.spawn[2]] =~= level.spawn);
}

/// A file that `close` wrote can be opened, and holds the level, with the size and the time that
/// `close` was given, unless one of these numbers or the level's time does not fit in an `i64`.
pub proof fn law_closed_world_is_opened(bytes: Seq<u8>, level: LevelView, size: u64, now: u64)
    requires
        level.spawn.len() == 3,
        level.time <= i64::MAX,
        size <= i64::MAX,
        now <= i64::MAX,
        gzip_tags(bytes) == Some(closed_tags(level, size, now)),
    ensures
        level_in_file(bytes) == Some(LevelView { size_on_disk: size, last_played: now, ..level }),
{
    law_close_then_open(level, size, now);
}

/// `get_chunk` finds a chunk that was inserted for the same coordinates.
pub proof fn law_inserted_chunk_is_found(
    chunks: Map<u64, Arc<Mutex<Chunk>>>,
    x: i32,
    z: i32,
    chunk: Arc<Mutex<Chunk>>,
)
    ensures
        chunk_in(chunks.insert(key_of(x, z), chunk), x, z) == Some(chunk),
{
}

/// Inserting or unloading a chunk leaves the chunks at all other coordinates as they were.
pub proof fn law_other_chunks_stay(
    chunks: Map<u64, Arc<Mutex<Chunk>>>,
    x: i32,
    z: i32,
    chunk: Arc<Mutex<Chunk>>,
    x2: i32,
    z2: i32,
)
    requires
        (x, z) != (x2, z2),
    ensures
        chunk_in(chunks.insert(key_of(x, z), chunk), x2, z2) == chunk_in(chunks, x2, z2),
        chunk_in(chunks.remove(key_of(x, z)), x2, z2) == chunk_in(chunks, x2, z2),
{
    if key_of(x, z) == key_of(x2, z2) {
        law_keys_differ(x, z, x2, z2);
    }
}

/// A chunk that was unloaded is no longer in memory.
pub proof fn law_unloaded_chunk_is_gone(chunks: Map<u64, Arc<Mutex<Chunk>>>, x: i32, z: i32)
    ensures
        chunk_in(chunks.remove(key_of(x, z)), x, z) is None,
{
}

/// What was unloaded is what is loaded next: the file that `unload_chunk` gives is the one that
/// the chunk is loaded from, and loading its bytes gives back the chunk.
pub proof fn law_unloaded_chunk_is_loaded(saved: SavedChunk, chunk: ChunkView)
    requires
        chunk_fits(chunk),
        is_saved(saved, chunk),
    ensures
        saved.path@ == load_path(chunk.chunk_x, chunk.chunk_z),
        chunk_in_file(saved.bytes@, chunk.chunk_x, chunk.chunk_z) == Some(chunk),
{
    law_saved_chunk_is_loaded(saved.bytes@, chunk);
}

/// A level is read from the seven numbers of its compound, each into the part of its own name, and
/// there is none if one of them is not there. Spawn coordinates are taken modulo 2^32.
pub proof fn law_level_is_read_from_its_fields(fields: Map<Seq<char>, JsonItem>)
    ensures
        level_of(fields) is Some <==> item_i64(fields, "RandomSeed"@) is Some && item_i64(
            fields,
            "SpawnX"@,
        ) is Some && item_i64(fields, "SpawnY"@) is Some && item_i64(fields, "SpawnZ"@) is Some
            && item_u64(fields, "Time"@) is Some && item_u64(fields, "SizeOnDisk"@) is Some
            && item_u64(fields, "LastPlayed"@) is Some,
        level_of(fields) matches Some(level) ==> {
            &&& Some(level.seed) == item_i64(fields, "RandomSeed"@)
            &&& Some(level.time) == item_u64(fields, "Time"@)
            &&& Some(level.size_on_disk) == item_u64(fields, "SizeOnDisk"@)
            &&& Some(level.last_played) == item_u64(fields, "LastPlayed"@)
            &&& level.spawn.len() == 3
            &&& (level.spawn[0] - item_i64(fields, "SpawnX"@)->0) % 0x1_0000_0000 == 0
            &&& (level.spawn[1] - item_i64(fields, "SpawnY"@)->0) % 0x1_0000_0000 == 0
            &&& (level.spawn[2] - item_i64(fields, "SpawnZ"@)->0) % 0x1_0000_0000 == 0
        },
{
    if level_of(fields) is Some {
        let (x, y, z) = (
            item_i64(fields, "SpawnX"@)->0,
            item_i64(fields, "SpawnY"@)->0,
            item_i64(fields, "SpawnZ"@)->0,
        );
        lemma_low_bits(x);
        lemma_low_bits(y);
        lemma_low_bits(z);
    }
}

/// The low 32 bits of a number are the number up to a multiple of 2^32.
proof fn lemma_low_bits(n: i64)
    ensures
        (n as i32 - n) % 0x1_0000_0000 == 0,
{
    assert(((n as i32) as int - n as int) % 0x1_0000_0000 == 0) by (bit_vector);
}

/// A level is stored as a compound of seven numbers, each holding the part of its name; the size
/// and the time are those that `close` was given.
pub proof fn law_level_is_stored_as_its_fields(
    level: LevelView,
    size: u64,
    now: u64,
    name: Seq<char>,
)
    ensures
        ({
            let fields = closed_fields(level, size, now);
            &&& fields.contains_key(name) <==> name == "RandomSeed"@ || name == "SpawnX"@ || name
                == "SpawnY"@ || name == "SpawnZ"@ || name == "Time"@ || name == "SizeOnDisk"@
                || name == "LastPlayed"@
            &&& fields["RandomSeed"@] == Tag::Long(level.seed)
            &&& fields["SpawnX"@] == Tag::Int(level.spawn[0])
            &&& fields["SpawnY"@] == Tag::Int(level.spawn[1])
            &&& fields["SpawnZ"@] == Tag::Int(level.spawn[2])
            &&& fields["Time"@] matches Tag::Long(n) && (n - level.time) % 0x1_0000_0000_0000_0000
                == 0
            &&& fields["SizeOnDisk"@] matches Tag::Long(n) && (n - size) % 0x1_0000_0000_0000_0000
                == 0
            &&& fields["LastPlayed"@] matches Tag::Long(n) && (n - now) % 0x1_0000_0000_0000_0000
                == 0
        }),
{
    reveal_level_names();
    lemma_all_bits(level.time);
    lemma_all_bits(size);
    lemma_all_bits(now);
}

/// The same bits as a signed number are the number up to a multiple of 2^64.
proof fn lemma_all_bits(n: u64)
    ensures
        (n as i64 - n) % 0x1_0000_0000_0000_0000 == 0,
{
    assert(((n as i64) as int - n as int) % 0x1_0000_0000_0000_0000 == 0) by (bit_vector);
}

/// The view of a level holds its fields.
pub proof fn law_level_says_its_fields(level: Level)
    ensures
        level@.seed == level.seed,
        level@.spawn == level.spawn@,
        level@.time == level.time,
        level@.size_on_disk == level.size_on_disk,
        level@.last_played == level.last_played,
{
}

/// No chunk is found where none is kept.
pub proof fn law_no_chunk_is_found(x: i32, z: i32)
    ensures
        chunk_in(Map::empty(), x, z) is None,
{
}

/// A chunk's key is made up of the bits of its coordinates.
pub proof fn law_key_of(x: i32, z: i32)
    ensures
        key_of(x, z) / 0x1_0000_0000 == x as u32,
        key_of(x, z) % 0x1_0000_0000 == z as u32,
{
}

} // verus!
