//! Chunks: columns of 16 by 16 by 128 blocks, and how they are stored.
use crate::json::{item_array, item_i64, json_array, json_fields, json_i64, JsonItem};
use crate::nbt_data::{
    compound_tags, json_fields_of, nested_within, no_tags, signed_bytes, to_signed, NbtField, Tag,
};
use crate::storage::{
    add_field, compound_fits, file_tags, read_typed_compound, single_compound, write_compound,
    StoreError,
};
use crate::utils::{
    base36_digits, base36_from_i64, base36_text, base36_value, decimal_from_i32, decimal_text,
    law_decimal_injective, law_numeral, lemma_decimal_characters, lemma_numeral_value,
    numeral_value,
};
use vstd::prelude::*;

verus! {

/// A chunk. The blocks of a column lie next to each other, columns follow in the direction of
/// `z`, then of `x`.
#[derive(Debug)]
pub struct Chunk {
    pub chunk_x: i32,
    pub chunk_z: i32,
    pub terrain_populated: bool,
    pub last_update: u64,
    pub blocks: Vec<u8>,
    pub data: Vec<u8>,
    pub block_light: Vec<u8>,
    pub sky_light: Vec<u8>,
    pub height_map: Vec<u8>,
}

/// What a chunk holds.
#[verifier::ext_equal]
pub ghost struct ChunkView {
    pub chunk_x: i32,
    pub chunk_z: i32,
    pub terrain_populated: bool,
    pub last_update: u64,
    pub blocks: Seq<u8>,
    pub data: Seq<u8>,
    pub block_light: Seq<u8>,
    pub sky_light: Seq<u8>,
    pub height_map: Seq<u8>,
}

impl View for Chunk {
    type V = ChunkView;

    open spec fn view(&self) -> ChunkView {
        ChunkView {
            chunk_x: self.chunk_x,
            chunk_z: self.chunk_z,
            terrain_populated: self.terrain_populated,
            last_update: self.last_update,
            blocks: self.blocks@,
            data: self.data@,
            block_light: self.block_light@,
            sky_light: self.sky_light@,
            height_map: self.height_map@,
        }
    }
}

/// Where the block at chunk-local coordinates lies among the blocks of a chunk.
pub open spec fn block_index(x: u8, y: u8, z: u8) -> int {
    y + z * 128 + x * 2048
}

impl ChunkView {
    /// The block at chunk-local coordinates, if the chunk has one there.
    pub open spec fn block_at(self, x: u8, y: u8, z: u8) -> Option<u8> {
        if block_index(x, y, z) < self.blocks.len() {
            Some(self.blocks[block_index(x, y, z)])
        } else {
            None
        }
    }

    /// The chunk with another block at chunk-local coordinates, where it has one.
    pub open spec fn with_block(self, x: u8, y: u8, z: u8, block_id: u8) -> ChunkView {
        if block_index(x, y, z) < self.blocks.len() {
            ChunkView { blocks: self.blocks.update(block_index(x, y, z), block_id), ..self }
        } else {
            self
        }
    }
}

/// The position of a block of given chunk-local coordinates.
fn index_of(x: u8, y: u8, z: u8) -> (r: usize)
    ensures
        r == block_index(x, y, z),
{
    y as usize + z as usize * 128 + x as usize * 2048
}

impl Chunk {
    /// Copies the chunk.
    pub fn duplicate(&self) -> (r: Chunk)
        ensures
            r@ == self@,
            r.chunk_x == self.chunk_x,
            r.chunk_z == self.chunk_z,
            r.terrain_populated == self.terrain_populated,
            r.last_update == self.last_update,
            r.blocks@ == self.blocks@,
            r.data@ == self.data@,
            r.block_light@ == self.block_light@,
            r.sky_light@ == self.sky_light@,
            r.height_map@ == self.height_map@,
    {
        let r: Chunk = Chunk {
            chunk_x: self.chunk_x,
            chunk_z: self.chunk_z,
            terrain_populated: self.terrain_populated,
            last_update: self.last_update,
            blocks: self.blocks.clone(),
            data: self.data.clone(),
            block_light: self.block_light.clone(),
            sky_light: self.sky_light.clone(),
            height_map: self.height_map.clone(),
        };
        assert(r@ =~= self@);
        r
    }

    /// Returns the block id at the given chunk-local coordinates, or `None` if they lie outside
    /// the chunk's blocks.
    pub fn get_block(&self, x: u8, y: u8, z: u8) -> (r: Option<u8>)
        ensures
            r == self@.block_at(x, y, z),
            r == if x * 2048 + z * 128 + y < self.blocks@.len() {
                Some(self.blocks@[x * 2048 + z * 128 + y])
            } else {
                None
            },
    {
        let index: usize = index_of(x, y, z);
        if index < self.blocks.len() {
            Some(self.blocks[index])
        } else {
            None
        }
    }

    /// Overwrites the block id at the given chunk-local coordinates and returns the old one, or
    /// `None` (and changes nothing) if they lie outside the chunk's blocks.
    pub fn set_block(&mut self, x: u8, y: u8, z: u8, block_id: u8) -> (r: Option<u8>)
        ensures
            r == old(self)@.block_at(x, y, z),
            final(self)@ == old(self)@.with_block(x, y, z, block_id),
            x * 2048 + z * 128 + y < old(self).blocks@.len() ==> {
                &&& r == Some(old(self).blocks@[x * 2048 + z * 128 + y])
                &&& final(self).blocks@ == old(self).blocks@.update(
                    x * 2048 + z * 128 + y,
                    block_id,
                )
            },
            x * 2048 + z * 128 + y >= old(self).blocks@.len() ==> r is None && final(self).blocks@
                == old(self).blocks@,
            final(self).chunk_x == old(self).chunk_x,
            final(self).chunk_z == old(self).chunk_z,
            final(self).terrain_populated == old(self).terrain_populated,
            final(self).last_update == old(self).last_update,
            final(self).data@ == old(self).data@,
            final(self).block_light@ == old(self).block_light@,
            final(self).sky_light@ == old(self).sky_light@,
            final(self).height_map@ == old(self).height_map@,
    {
        let index: usize = index_of(x, y, z);
        if index < self.blocks.len() {
            let previous: u8 = self.blocks[index];
            self.blocks.set(index, block_id);
            Some(previous)
        } else {
            None
        }
    }
}

/// `get_block` returns what the last `set_block` at the same place wrote.
pub proof fn law_get_after_set(chunk: ChunkView, x: u8, y: u8, z: u8, block_id: u8)
    requires
        chunk.block_at(x, y, z) is Some,
    ensures
        chunk.with_block(x, y, z, block_id).block_at(x, y, z) == Some(block_id),
{
}

/// `set_block` leaves every other block of the chunk as it was.
pub proof fn law_set_changes_one_block(
    chunk: ChunkView,
    x: u8,
    y: u8,
    z: u8,
    block_id: u8,
    x2: u8,
    y2: u8,
    z2: u8,
)
    requires
        y < 128,
        z < 16,
        y2 < 128,
        z2 < 16,
        (x, y, z) != (x2, y2, z2),
    ensures
        chunk.with_block(x, y, z, block_id).block_at(x2, y2, z2) == chunk.block_at(x2, y2, z2),
{
}

/// Writing back the block that `set_block` returned restores the chunk.
pub proof fn law_set_back_restores(chunk: ChunkView, x: u8, y: u8, z: u8, block_id: u8)
    requires
        chunk.block_at(x, y, z) is Some,
    ensures
        chunk.with_block(x, y, z, block_id).with_block(x, y, z, chunk.block_at(x, y, z)->0)
            == chunk,
{
    assert(chunk.with_block(x, y, z, block_id).with_block(x, y, z, chunk.block_at(x, y, z)->0).blocks
        =~= chunk.blocks);
}

/// The file of a chunk: its directory, the directory in that, and its name.
#[derive(Debug)]
pub struct ChunkPath {
    pub outer: String,
    pub inner: String,
    pub file: String,
}

impl View for ChunkPath {
    type V = (Seq<char>, Seq<char>, Seq<char>);

    open spec fn view(&self) -> (Seq<char>, Seq<char>, Seq<char>) {
        (self.outer@, self.inner@, self.file@)
    }
}

/// The name of a chunk's file.
pub open spec fn chunk_file_name(x: i32, z: i32) -> Seq<char> {
    "c."@ + decimal_text(x as int) + "."@ + decimal_text(z as int) + ".dat"@
}

/// Where a chunk is loaded from and saved to: the directories are the base-36 numerals of the
/// coordinates modulo 64.
pub open spec fn load_path(x: i32, z: i32) -> (Seq<char>, Seq<char>, Seq<char>) {
    (base36_text(x as int % 64), base36_text(z as int % 64), chunk_file_name(x, z))
}

/// The name of a chunk's file.
fn file_name(x: i32, z: i32) -> (r: String)
    ensures
        r@ == chunk_file_name(x, z),
{
    let mut name: String = "c.".to_owned();
    name.append(decimal_from_i32(x).as_str());
    name.append(".");
    name.append(decimal_from_i32(z).as_str());
    name.append(".dat");
    name
}

/// The remainder of a coordinate modulo 64.
fn region(coordinate: i32) -> (r: i64)
    ensures
        r == coordinate as int % 64,
{
    assert(((coordinate as u8) % 64) as int == coordinate % 64) by (bit_vector);
    (coordinate as u8 % 64) as i64
}

/// The numbers and arrays from which a chunk is made, as they were found: `None` for what is
/// missing or has another type.
#[derive(Debug)]
pub struct ChunkFields {
    pub terrain_populated: Option<i64>,
    pub last_update: Option<i64>,
    pub blocks: Option<Vec<Option<i64>>>,
    pub data: Option<Vec<Option<i64>>>,
    pub block_light: Option<Vec<Option<i64>>>,
    pub sky_light: Option<Vec<Option<i64>>>,
    pub height_map: Option<Vec<Option<i64>>>,
}

/// The elements of an array that was found.
pub open spec fn elements(items: Option<Vec<Option<i64>>>) -> Option<Seq<Option<i64>>> {
    match items {
        Some(items) => Some(items@),
        None => None,
    }
}

/// An array as bytes, if all its elements are integers: the low eight bits of each.
pub open spec fn bytes_of(items: Option<Seq<Option<i64>>>) -> Option<Seq<u8>> {
    match items {
        Some(items) => if forall|i: int| 0 <= i < items.len() ==> #[trigger] items[i] is Some {
            Some(Seq::new(items.len(), |i: int| items[i]->0 as u8))
        } else {
            None
        },
        None => None,
    }
}

/// The chunk that the given numbers and arrays make up, if none is missing.
pub open spec fn chunk_from(
    x: i32,
    z: i32,
    terrain_populated: Option<i64>,
    last_update: Option<i64>,
    blocks: Option<Seq<u8>>,
    data: Option<Seq<u8>>,
    block_light: Option<Seq<u8>>,
    sky_light: Option<Seq<u8>>,
    height_map: Option<Seq<u8>>,
) -> Option<ChunkView> {
    match (terrain_populated, last_update, blocks, data, block_light, sky_light, height_map) {
        (
            Some(terrain_populated),
            Some(last_update),
            Some(blocks),
            Some(data),
            Some(block_light),
            Some(sky_light),
            Some(height_map),
        ) => Some(
            ChunkView {
                chunk_x: x,
                chunk_z: z,
                terrain_populated: terrain_populated != 0,
                last_update: last_update as u64,
                blocks,
                data,
                block_light,
                sky_light,
                height_map,
            },
        ),
        _ => None,
    }
}

/// The chunk that the fields of a JSON object describe, if none is missing.
pub open spec fn chunk_of(fields: Map<Seq<char>, JsonItem>, x: i32, z: i32) -> Option<ChunkView> {
    chunk_from(
        x,
        z,
        item_i64(fields, "TerrainPopulated"@),
        item_i64(fields, "LastUpdate"@),
        bytes_of(item_array(fields, "Blocks"@)),
        bytes_of(item_array(fields, "Data"@)),
        bytes_of(item_array(fields, "BlockLight"@)),
        bytes_of(item_array(fields, "SkyLight"@)),
        bytes_of(item_array(fields, "HeightMap"@)),
    )
}

/// The fields that a chunk is saved as.
pub open spec fn saved_fields(chunk: ChunkView) -> Map<Seq<char>, Tag> {
    no_tags().insert(
        "TerrainPopulated"@,
        Tag::Byte(
            if chunk.terrain_populated {
                1
            } else {
                0
            },
        ),
    ).insert("LastUpdate"@, Tag::Long(chunk.last_update as i64)).insert(
        "Blocks"@,
        Tag::ByteArray(signed_bytes(chunk.blocks)),
    ).insert("Data"@, Tag::ByteArray(signed_bytes(chunk.data))).insert(
        "BlockLight"@,
        Tag::ByteArray(signed_bytes(chunk.block_light)),
    ).insert("SkyLight"@, Tag::ByteArray(signed_bytes(chunk.sky_light))).insert(
        "HeightMap"@,
        Tag::ByteArray(signed_bytes(chunk.height_map)),
    )
}

/// The root tags of the file that a chunk is saved as.
pub open spec fn saved_tags(chunk: ChunkView) -> Map<Seq<char>, Tag> {
    single_compound("Level"@, saved_fields(chunk))
}

/// The chunk that a file holds for the given coordinates, if it holds one.
pub open spec fn chunk_in_file(bytes: Seq<u8>, x: i32, z: i32) -> Option<ChunkView> {
    match file_tags(bytes) {
        Some(tags) => if tags.contains_key("Level"@) && nested_within(tags["Level"@], 127) {
            chunk_of(json_fields_of(tags["Level"@]), x, z)
        } else {
            None
        },
        None => None,
    }
}

/// Whether every array of the chunk has a length that can be stored.
pub open spec fn chunk_fits(chunk: ChunkView) -> bool {
    &&& chunk.blocks.len() <= i32::MAX
    &&& chunk.data.len() <= i32::MAX
    &&& chunk.block_light.len() <= i32::MAX
    &&& chunk.sky_light.len() <= i32::MAX
    &&& chunk.height_map.len() <= i32::MAX
}

/// Takes the low eight bits of each element, if all are there.
fn to_bytes(items: &Option<Vec<Option<i64>>>) -> (r: Option<Vec<u8>>)
    ensures
        r is Some <==> bytes_of(elements(*items)) is Some,
        r matches Some(bytes) ==> bytes_of(elements(*items)) == Some(bytes@),
{
    let found: &Vec<Option<i64>> = match items {
        Some(found) => found,
        None => return None,
    };
    let mut bytes: Vec<u8> = Vec::new();
    for i in 0..found.len()
        invariant
            elements(*items) == Some(found@),
            bytes@.len() == i,
            forall|j: int|
                0 <= j < i ==> #[trigger] found@[j] is Some && bytes@[j] == found@[j]->0 as u8,
    {
        match found[i] {
            Some(n) => bytes.push(n as u8),
            None => {
                assert(found@[i as int] is None);
                return None;
            },
        }
    }
    assert(bytes@ =~= bytes_of(Some(found@))->0);
    Some(bytes)
}

/// Looks up the fields of a chunk in a JSON object.
fn find_chunk_fields(level: &serde_json::Value) -> (r: ChunkFields)
    ensures
        r.terrain_populated == item_i64(json_fields(*level), "TerrainPopulated"@),
        r.last_update == item_i64(json_fields(*level), "LastUpdate"@),
        elements(r.blocks) == item_array(json_fields(*level), "Blocks"@),
        elements(r.data) == item_array(json_fields(*level), "Data"@),
        elements(r.block_light) == item_array(json_fields(*level), "BlockLight"@),
        elements(r.sky_light) == item_array(json_fields(*level), "SkyLight"@),
        elements(r.height_map) == item_array(json_fields(*level), "HeightMap"@),
{
    ChunkFields {
        terrain_populated: json_i64(level, "TerrainPopulated"),
        last_update: json_i64(level, "LastUpdate"),
        blocks: json_array(level, "Blocks"),
        data: json_array(level, "Data"),
        block_light: json_array(level, "BlockLight"),
        sky_light: json_array(level, "SkyLight"),
        height_map: json_array(level, "HeightMap"),
    }
}

impl Chunk {
    /// The file that the chunk at the given coordinates is loaded from.
    pub fn load_path(x: i32, z: i32) -> (r: ChunkPath)
        ensures
            r@ == load_path(x, z),
            base36_value(base36_digits(r.outer@)) == x as int % 64,
            base36_value(base36_digits(r.inner@)) == z as int % 64,
            numeral_value(r.outer@, 36) == x as int % 64,
            numeral_value(r.inner@, 36) == z as int % 64,
            x as int % 64 != 0 ==> r.outer@[0] != '0',
            z as int % 64 != 0 ==> r.inner@[0] != '0',
            r.file@ == "c."@ + decimal_text(x as int) + "."@ + decimal_text(z as int) + ".dat"@,
    {
        ChunkPath {
            outer: base36_from_i64(region(x)),
            inner: base36_from_i64(region(z)),
            file: file_name(x, z),
        }
    }

    /// The file that the chunk is saved to, which is the one that it is loaded from.
    pub fn save_path(&self) -> (r: ChunkPath)
        ensures
            r@ == load_path(self.chunk_x, self.chunk_z),
            base36_value(base36_digits(r.outer@)) == self.chunk_x as int % 64,
            base36_value(base36_digits(r.inner@)) == self.chunk_z as int % 64,
            numeral_value(r.outer@, 36) == self.chunk_x as int % 64,
            numeral_value(r.inner@, 36) == self.chunk_z as int % 64,
            self.chunk_x as int % 64 != 0 ==> r.outer@[0] != '0',
            self.chunk_z as int % 64 != 0 ==> r.inner@[0] != '0',
            r.file@ == "c."@ + decimal_text(self.chunk_x as int) + "."@ + decimal_text(
                self.chunk_z as int,
            ) + ".dat"@,
    {
        Chunk::load_path(self.chunk_x, self.chunk_z)
    }

    /// Makes a chunk of the fields that were found, or `None` if one is missing or an array holds
    /// something else than integers.
    pub fn from_fields(x: i32, z: i32, fields: &ChunkFields) -> (r: Option<Chunk>)
        ensures
            r is Some <==> chunk_from(
                x,
                z,
                fields.terrain_populated,
                fields.last_update,
                bytes_of(elements(fields.blocks)),
                bytes_of(elements(fields.data)),
                bytes_of(elements(fields.block_light)),
                bytes_of(elements(fields.sky_light)),
                bytes_of(elements(fields.height_map)),
            ) is Some,
            r matches Some(chunk) ==> chunk_from(
                x,
                z,
                fields.terrain_populated,
                fields.last_update,
                bytes_of(elements(fields.blocks)),
                bytes_of(elements(fields.data)),
                bytes_of(elements(fields.block_light)),
                bytes_of(elements(fields.sky_light)),
                bytes_of(elements(fields.height_map)),
            ) == Some(chunk@),
            r matches Some(chunk) ==> {
                &&& chunk.chunk_x == x
                &&& chunk.chunk_z == z
                &&& chunk.terrain_populated <==> fields.terrain_populated->0 != 0
                &&& bytes_of(elements(fields.blocks)) == Some(chunk.blocks@)
                &&& bytes_of(elements(fields.data)) == Some(chunk.data@)
                &&& bytes_of(elements(fields.block_light)) == Some(chunk.block_light@)
                &&& bytes_of(elements(fields.sky_light)) == Some(chunk.sky_light@)
                &&& bytes_of(elements(fields.height_map)) == Some(chunk.height_map@)
            },
    {
        let terrain_populated: bool = match fields.terrain_populated {
            Some(n) => n != 0,
            None => return None,
        };
        let last_update: u64 = match fields.last_update {
            Some(n) => n as u64,
            None => return None,
        };
        let blocks: Option<Vec<u8>> = to_bytes(&fields.blocks);
        let data: Option<Vec<u8>> = to_bytes(&fields.data);
        let block_light: Option<Vec<u8>> = to_bytes(&fields.block_light);
        let sky_light: Option<Vec<u8>> = to_bytes(&fields.sky_light);
        let height_map: Option<Vec<u8>> = to_bytes(&fields.height_map);
        match (blocks, data, block_light, sky_light, height_map) {
            (Some(blocks), Some(data), Some(block_light), Some(sky_light), Some(height_map)) => {
                Some(
                    Chunk {
                        chunk_x: x,
                        chunk_z: z,
                        terrain_populated,
                        last_update,
                        blocks,
                        data,
                        block_light,
                        sky_light,
                        height_map,
                    },
                )
            },
            _ => None,
        }
    }

    /// Reads the chunk at the given coordinates from the bytes of its file, which holds it in a
    /// compound named `Level`. If the bytes are a gzip-compressed NBT file at all, the chunk has
    /// to be in it; `try_load` takes any bytes.
    pub fn load(bytes: &[u8], x: i32, z: i32) -> (r: Result<Chunk, StoreError>)
        requires
            file_tags(bytes@) is Some ==> chunk_in_file(bytes@, x, z) is Some,
        ensures
            match file_tags(bytes@) {
                None => r matches Err(StoreError::Nbt(_)),
                Some(_) => r is Ok && chunk_in_file(bytes@, x, z) == Some(r->Ok_0@),
            },
    {
        match read_typed_compound(bytes, "Level") {
            Ok(level) => match Chunk::from_fields(x, z, &find_chunk_fields(&level)) {
                Some(chunk) => Ok(chunk),
                None => Err(StoreError::Malformed),
            },
            Err(e) => Err(e),
        }
    }

    /// Reads the chunk at the given coordinates from the bytes of its file, after finding out
    /// whether it is there.
    pub fn try_load(bytes: &[u8], x: i32, z: i32) -> (r: Result<Chunk, StoreError>)
        ensures
            r is Ok <==> chunk_in_file(bytes@, x, z) is Some,
            match file_tags(bytes@) {
                None => r matches Err(StoreError::Nbt(_)),
                Some(tags) => if tags.contains_key("Level"@) {
                    let level = tags["Level"@];
                    if nested_within(level, 127) {
                        match chunk_of(json_fields_of(level), x, z) {
                            Some(chunk) => r is Ok && r->Ok_0@ == chunk,
                            None => r matches Err(StoreError::Malformed),
                        }
                    } else {
                        r matches Err(StoreError::Json(_))
                    }
                } else {
                    r matches Err(StoreError::Missing)
                },
            },
    {
        match read_typed_compound(bytes, "Level") {
            Ok(level) => {
                let fields: ChunkFields = find_chunk_fields(&level);
                if Chunk::from_fields(x, z, &fields).is_none() {
                    return Err(StoreError::Malformed);
                }
            },
            Err(e) => return Err(e),
        }
        Chunk::load(bytes, x, z)
    }

    /// Makes the bytes of the chunk's file, which holds it in a compound named `Level`.
    pub fn save(&self) -> (r: Result<Vec<u8>, StoreError>)
        ensures
            r matches Err(e) ==> e is Nbt,
            chunk_fits(self@) ==> r is Ok && file_tags(r->Ok_0@) == Some(saved_tags(self@)),
            self.blocks@.len() <= 0x7fff_ffff && self.data@.len() <= 0x7fff_ffff
                && self.block_light@.len() <= 0x7fff_ffff && self.sky_light@.len() <= 0x7fff_ffff
                && self.height_map@.len() <= 0x7fff_ffff ==> r is Ok && file_tags(r->Ok_0@) == Some(
                saved_tags(self@),
            ),
    {
        let mut fields: Vec<(&'static str, NbtField)> = Vec::new();
        assert(compound_tags(fields@) =~= no_tags());
        let terrain_populated: i8 = if self.terrain_populated {
            1
        } else {
            0
        };
        add_field(&mut fields, "TerrainPopulated", NbtField::Byte(terrain_populated));
        add_field(&mut fields, "LastUpdate", NbtField::Long(self.last_update as i64));
        add_field(&mut fields, "Blocks", NbtField::ByteArray(to_signed(&self.blocks)));
        add_field(&mut fields, "Data", NbtField::ByteArray(to_signed(&self.data)));
        add_field(&mut fields, "BlockLight", NbtField::ByteArray(to_signed(&self.block_light)));
        add_field(&mut fields, "SkyLight", NbtField::ByteArray(to_signed(&self.sky_light)));
        add_field(&mut fields, "HeightMap", NbtField::ByteArray(to_signed(&self.height_map)));
        proof {
            assert(compound_tags(fields@) == saved_fields(self@));
            reveal_chunk_names();
            assert(chunk_fits(self@) ==> compound_fits("Level"@, saved_fields(self@)));
        }
        write_compound("Level", fields)
    }
}

/// The names of a chunk's fields differ, and are short enough to be stored.
proof fn reveal_chunk_names()
    ensures
        "TerrainPopulated"@.len() == 16,
        "LastUpdate"@.len() == 10,
        "Blocks"@.len() == 6,
        "Data"@.len() == 4,
        "BlockLight"@.len() == 10,
        "SkyLight"@.len() == 8,
        "HeightMap"@.len() == 9,
        "Level"@.len() == 5,
        "LastUpdate"@ != "BlockLight"@,
{
    reveal_strlit("TerrainPopulated");
    reveal_strlit("LastUpdate");
    reveal_strlit("Blocks");
    reveal_strlit("Data");
    reveal_strlit("BlockLight");
    reveal_strlit("SkyLight");
    reveal_strlit("HeightMap");
    reveal_strlit("Level");
    assert("LastUpdate"@[0] != "BlockLight"@[0]);
}

/// A saved array of bytes reads back as the same bytes.
proof fn lemma_bytes_read_back(bytes: Seq<u8>)
    ensures
        bytes_of(
            Some(Seq::new(signed_bytes(bytes).len(), |i: int| Some(signed_bytes(bytes)[i] as i64))),
        ) == Some(bytes),
{
    let signed = signed_bytes(bytes);
    let items = Seq::new(signed.len(), |i: int| Some(signed[i] as i64));
    assert forall|i: int| 0 <= i < bytes.len() implies #[trigger] items[i]->0 as u8
        == bytes[i] by {
        let b = bytes[i];
        assert(((b as i8) as i64) as u8 == b) by (bit_vector);
    }
    assert(bytes_of(Some(items))->0 =~= bytes);
}

/// Reading the compound of a saved chunk gives back the chunk.
pub proof fn law_saved_chunk_reads_back(chunk: ChunkView)
    ensures
        saved_tags(chunk).contains_key("Level"@),
        nested_within(saved_tags(chunk)["Level"@], 127),
        chunk_of(json_fields_of(saved_tags(chunk)["Level"@]), chunk.chunk_x, chunk.chunk_z) == Some(
            chunk,
        ),
{
    reveal_chunk_names();
    lemma_bytes_read_back(chunk.blocks);
    lemma_bytes_read_back(chunk.data);
    lemma_bytes_read_back(chunk.block_light);
    lemma_bytes_read_back(chunk.sky_light);
    lemma_bytes_read_back(chunk.height_map);
    let last_update = chunk.last_update;
    assert((last_update as i64) as u64 == last_update) by (bit_vector);
    let level = saved_tags(chunk)["Level"@];
    assert forall|name: Seq<char>| #[trigger]
        level->Compound_0.contains_key(name) implies nested_within(level->Compound_0[name], 126) by {
        reveal_with_fuel(nested_within, 2);
    }
}

/// Loading the file that a chunk was saved as, for the chunk's coordinates, gives back the chunk.
pub proof fn law_saved_chunk_is_loaded(bytes: Seq<u8>, chunk: ChunkView)
    requires
        file_tags(bytes) == Some(saved_tags(chunk)),
    ensures
        chunk_in_file(bytes, chunk.chunk_x, chunk.chunk_z) == Some(chunk),
{
    law_saved_chunk_reads_back(chunk);
}

/// A block that was set before a chunk was saved is there after the chunk is loaded.
pub proof fn law_set_block_is_loaded(
    bytes: Seq<u8>,
    chunk: ChunkView,
    x: u8,
    y: u8,
    z: u8,
    block_id: u8,
)
    requires
        chunk.block_at(x, y, z) is Some,
        file_tags(bytes) == Some(saved_tags(chunk.with_block(x, y, z, block_id))),
    ensures
        chunk_in_file(bytes, chunk.chunk_x, chunk.chunk_z) matches Some(loaded)
            && loaded.block_at(x, y, z) == Some(block_id),
{
    law_saved_chunk_is_loaded(bytes, chunk.with_block(x, y, z, block_id));
}

/// No two chunks share a file.
pub proof fn law_chunk_files_differ(x1: i32, z1: i32, x2: i32, z2: i32)
    requires
        chunk_file_name(x1, z1) == chunk_file_name(x2, z2),
    ensures
        x1 == x2,
        z1 == z2,
{
    reveal_strlit("c.");
    reveal_strlit(".");
    reveal_strlit(".dat");
    let name = chunk_file_name(x1, z1);
    let (a1, b1) = (decimal_text(x1 as int), decimal_text(z1 as int));
    let (a2, b2) = (decimal_text(x2 as int), decimal_text(z2 as int));
    let (m1, n1) = (a1.len() as int, b1.len() as int);
    let (m2, n2) = (a2.len() as int, b2.len() as int);
    lemma_decimal_characters(x1);
    lemma_decimal_characters(x2);
    assert(name[2 + m1] == '.');
    assert(chunk_file_name(x2, z2)[2 + m2] == '.');
    if m1 < m2 {
        assert(chunk_file_name(x2, z2)[2 + m1] == a2[m1]);
    } else if m2 < m1 {
        assert(name[2 + m2] == a1[m2]);
    }
    assert(name.len() == 2 + m1 + 1 + n1 + 4);
    assert(chunk_file_name(x2, z2).len() == 2 + m2 + 1 + n2 + 4);
    assert(a1 =~= name.subrange(2, 2 + m1));
    assert(a2 =~= chunk_file_name(x2, z2).subrange(2, 2 + m2));
    assert(b1 =~= name.subrange(3 + m1, 3 + m1 + n1));
    assert(b2 =~= chunk_file_name(x2, z2).subrange(3 + m2, 3 + m2 + n2));
    law_decimal_injective(x1, x2);
    law_decimal_injective(z1, z2);
}

/// The directories of a chunk's file, read as base-36 numerals, are its coordinates modulo 64; its
/// name has the coordinates in decimal notation.
pub proof fn law_load_path(x: i32, z: i32)
    ensures
        base36_value(base36_digits(load_path(x, z).0)) == x as int % 64,
        base36_value(base36_digits(load_path(x, z).1)) == z as int % 64,
        numeral_value(load_path(x, z).0, 36) == x as int % 64,
        numeral_value(load_path(x, z).1, 36) == z as int % 64,
        load_path(x, z).2 == "c."@ + decimal_text(x as int) + "."@ + decimal_text(z as int)
            + ".dat"@,
{
    law_numeral((x as int % 64) as nat, 36);
    law_numeral((z as int % 64) as nat, 36);
    lemma_numeral_value((x as int % 64) as nat);
    lemma_numeral_value((z as int % 64) as nat);
}

/// The view of a chunk holds its fields.
pub proof fn law_chunk_says_its_fields(chunk: Chunk)
    ensures
        chunk@.chunk_x == chunk.chunk_x,
        chunk@.chunk_z == chunk.chunk_z,
        chunk@.terrain_populated == chunk.terrain_populated,
        chunk@.last_update == chunk.last_update,
        chunk@.blocks == chunk.blocks@,
        chunk@.data == chunk.data@,
        chunk@.block_light == chunk.block_light@,
        chunk@.sky_light == chunk.sky_light@,
        chunk@.height_map == chunk.height_map@,
{
}

/// An array becomes bytes exactly if all its elements are integers, and each byte is its element
/// modulo 256.
pub proof fn law_bytes_of(items: Seq<Option<i64>>, i: int)
    ensures
        bytes_of(None) is None,
        bytes_of(Some(items)) is Some <==> forall|j: int|
            0 <= j < items.len() ==> #[trigger] items[j] is Some,
        bytes_of(Some(items)) matches Some(bytes) ==> bytes.len() == items.len() && (0 <= i
            < items.len() ==> bytes[i] == items[i]->0 as int % 256),
{
    if bytes_of(Some(items)) is Some && 0 <= i < items.len() {
        assert(items[i] is Some);
        let n = items[i]->0;
        assert((n as u8) as int == n as int % 256) by (bit_vector);
    }
}

/// A chunk is read from the seven fields of its compound, each into the part of its own name, and
/// there is none if one of them is not there.
pub proof fn law_chunk_is_read_from_its_fields(fields: Map<Seq<char>, JsonItem>, x: i32, z: i32)
    ensures
        chunk_of(fields, x, z) is Some <==> item_i64(fields, "TerrainPopulated"@) is Some
            && item_i64(fields, "LastUpdate"@) is Some
            && bytes_of(item_array(fields, "Blocks"@)) is Some
            && bytes_of(item_array(fields, "Data"@)) is Some
            && bytes_of(item_array(fields, "BlockLight"@)) is Some
            && bytes_of(item_array(fields, "SkyLight"@)) is Some
            && bytes_of(item_array(fields, "HeightMap"@)) is Some,
        chunk_of(fields, x, z) matches Some(chunk) ==> {
            &&& chunk.chunk_x == x
            &&& chunk.chunk_z == z
            &&& chunk.terrain_populated <==> item_i64(fields, "TerrainPopulated"@)->0 != 0
            &&& chunk.last_update as int == item_i64(fields, "LastUpdate"@)->0 as int
                % 0x1_0000_0000_0000_0000
            &&& bytes_of(item_array(fields, "Blocks"@)) == Some(chunk.blocks)
            &&& bytes_of(item_array(fields, "Data"@)) == Some(chunk.data)
            &&& bytes_of(item_array(fields, "BlockLight"@)) == Some(chunk.block_light)
            &&& bytes_of(item_array(fields, "SkyLight"@)) == Some(chunk.sky_light)
            &&& bytes_of(item_array(fields, "HeightMap"@)) == Some(chunk.height_map)
        },
{
    if let Some(n) = item_i64(fields, "LastUpdate"@) {
        assert((n as u64) as int == n as int % 0x1_0000_0000_0000_0000) by (bit_vector);
    }
}

/// A chunk is saved as a single compound named `Level` of seven fields, each holding the part of
/// its name.
pub proof fn law_chunk_is_saved_as_its_fields(chunk: ChunkView, name: Seq<char>)
    ensures
        saved_tags(chunk).contains_key(name) <==> name == "Level"@,
        saved_tags(chunk)["Level"@] is Compound,
        ({
            let fields = saved_tags(chunk)["Level"@]->Compound_0;
            &&& fields.contains_key(name) <==> name == "TerrainPopulated"@ || name
                == "LastUpdate"@ || name == "Blocks"@ || name == "Data"@ || name == "BlockLight"@
                || name == "SkyLight"@ || name == "HeightMap"@
            &&& fields["TerrainPopulated"@] == Tag::Byte(
                if chunk.terrain_populated {
                    1
                } else {
                    0
                },
            )
            &&& fields["LastUpdate"@] matches Tag::Long(n) && n as int % 0x1_0000_0000_0000_0000
                == chunk.last_update
            &&& fields["Blocks"@] == Tag::ByteArray(signed_bytes(chunk.blocks))
            &&& fields["Data"@] == Tag::ByteArray(signed_bytes(chunk.data))
            &&& fields["BlockLight"@] == Tag::ByteArray(signed_bytes(chunk.block_light))
            &&& fields["SkyLight"@] == Tag::ByteArray(signed_bytes(chunk.sky_light))
            &&& fields["HeightMap"@] == Tag::ByteArray(signed_bytes(chunk.height_map))
        }),
{
    reveal_chunk_names();
    let n = chunk.last_update;
    assert((n as i64) as int % 0x1_0000_0000_0000_0000 == n as int) by (bit_vector);
}

} // verus!
