//! Packets that the server sends.
use crate::chunk::Chunk;
use crate::items::Item;
use crate::player::PositionAndLook;
use crate::wire::{be16, be32, be64, law_be16, put_u16, put_u32, put_u64};
use vstd::prelude::*;
use vstd::utf8::encode_utf8;

verus! {

/// The single byte of a signed number.
pub open spec fn byte(n: i8) -> Seq<u8> {
    seq![n as u8]
}

/// Announces a player that comes into view.
#[derive(Debug)]
pub struct NamedEntitySpawnPacket {
    pub entity_id: i32,
    pub name: String,
    pub x: i32,
    pub y: i32,
    pub z: i32,
    pub rotation: i8,
    pub pitch: i8,
    pub current_item: i16,
}

/// Announces an item that lies in the world.
#[derive(Debug, Clone, Copy, PartialEq, Eq, Structural)]
pub struct PickupSpawnPacket {
    pub entity_id: i32,
    pub item_id: i16,
    pub count: i8,
    pub x: i32,
    pub y: i32,
    pub z: i32,
    pub rotation: i8,
    pub pitch: i8,
    pub roll: i8,
}

/// Changes one block.
#[derive(Debug, Clone, Copy, PartialEq, Eq, Structural)]
pub struct BlockChangePacket {
    pub x: i32,
    pub y: i8,
    pub z: i32,
    pub block_type: i8,
    pub block_metadata: i8,
}

/// Tells the client to make room for a chunk, or to drop it.
#[derive(Debug, Clone, Copy, PartialEq, Eq, Structural)]
pub struct PreChunkPacket {
    pub x: i32,
    pub z: i32,
    pub mode: bool,
}

/// The compressed contents of a region of blocks. The sizes are one less than the region's.
#[derive(Debug)]
pub struct MapChunkPacket {
    pub x: i32,
    pub y: i16,
    pub z: i32,
    pub size_x: i8,
    pub size_y: i8,
    pub size_z: i8,
    pub compressed_size: i32,
    pub compressed_data: Vec<u8>,
}

/// The bytes of a packet that announces an item.
pub open spec fn pickup_spawn_bytes(p: PickupSpawnPacket) -> Seq<u8> {
    seq![0x15u8] + be32(p.entity_id as u32) + be16(p.item_id as u16) + byte(p.count) + be32(
        p.x as u32,
    ) + be32(p.y as u32) + be32(p.z as u32) + byte(p.rotation) + byte(p.pitch) + byte(p.roll)
}

/// The bytes of a packet that changes a block.
pub open spec fn block_change_bytes(p: BlockChangePacket) -> Seq<u8> {
    seq![0x35u8] + be32(p.x as u32) + byte(p.y) + be32(p.z as u32) + byte(p.block_type) + byte(
        p.block_metadata,
    )
}

/// Appends a signed byte.
fn put_i8(bytes: &mut Vec<u8>, n: i8)
    ensures
        final(bytes)@ == old(bytes)@ + byte(n),
{
    bytes.push(n as u8);
    assert(bytes@ =~= old(bytes)@ + byte(n));
}

/// The single byte of a truth value.
pub open spec fn flag(b: bool) -> Seq<u8> {
    seq![
        if b {
            1u8
        } else {
            0
        },
    ]
}

/// Appends a truth value.
fn put_flag(bytes: &mut Vec<u8>, b: bool)
    ensures
        final(bytes)@ == old(bytes)@ + flag(b),
{
    bytes.push(
        if b {
            1
        } else {
            0
        },
    );
    assert(bytes@ =~= old(bytes)@ + flag(b));
}

/// A packet that so far has its number only.
fn packet(id: u8) -> (r: Vec<u8>)
    ensures
        r@ == seq![id],
{
    let mut bytes: Vec<u8> = Vec::new();
    bytes.push(id);
    assert(bytes@ =~= seq![id]);
    bytes
}

impl PickupSpawnPacket {
    /// The packet's bytes.
    pub fn encode(&self) -> (r: Vec<u8>)
        ensures
            r@ == pickup_spawn_bytes(*self),
            r@ == seq![0x15u8] + be32(self.entity_id as u32) + be16(self.item_id as u16) + seq![
                self.count as u8,
            ] + be32(self.x as u32) + be32(self.y as u32) + be32(self.z as u32) + seq![
                self.rotation as u8,
            ] + seq![self.pitch as u8] + seq![self.roll as u8],
    {
        let mut bytes: Vec<u8> = packet(0x15);
        put_u32(&mut bytes, self.entity_id as u32);
        put_u16(&mut bytes, self.item_id as u16);
        put_i8(&mut bytes, self.count);
        put_u32(&mut bytes, self.x as u32);
        put_u32(&mut bytes, self.y as u32);
        put_u32(&mut bytes, self.z as u32);
        put_i8(&mut bytes, self.rotation);
        put_i8(&mut bytes, self.pitch);
        put_i8(&mut bytes, self.roll);
        bytes
    }
}

/// The bytes of a text: its length in bytes, with 16 bits, and the text.
pub open spec fn text_bytes(text: Seq<char>) -> Seq<u8> {
    be16(encode_utf8(text).len() as usize as u16) + encode_utf8(text)
}

/// Appends a text with its length.
fn put_text(bytes: &mut Vec<u8>, text: &str)
    ensures
        final(bytes)@ == old(bytes)@ + text_bytes(text@),
{
    put_u16(bytes, text.len() as u16);
    bytes.extend_from_slice(text.as_bytes());
    assert(bytes@ =~= old(bytes)@ + text_bytes(text@));
}

impl NamedEntitySpawnPacket {
    /// The packet's bytes.
    pub fn encode(&self) -> (r: Vec<u8>)
        ensures
            r@ == seq![0x14u8] + be32(self.entity_id as u32) + text_bytes(self.name@) + be32(
                self.x as u32,
            ) + be32(self.y as u32) + be32(self.z as u32) + byte(self.rotation) + byte(self.pitch)
                + be16(self.current_item as u16),
    {
        let mut bytes: Vec<u8> = packet(0x14);
        put_u32(&mut bytes, self.entity_id as u32);
        put_text(&mut bytes, self.name.as_str());
        put_u32(&mut bytes, self.x as u32);
        put_u32(&mut bytes, self.y as u32);
        put_u32(&mut bytes, self.z as u32);
        put_i8(&mut bytes, self.rotation);
        put_i8(&mut bytes, self.pitch);
        put_u16(&mut bytes, self.current_item as u16);
        bytes
    }
}

impl PreChunkPacket {
    /// The packet's bytes.
    pub fn encode(&self) -> (r: Vec<u8>)
        ensures
            r@ == seq![0x32u8] + be32(self.x as u32) + be32(self.z as u32) + flag(self.mode),
    {
        let mut bytes: Vec<u8> = packet(0x32);
        put_u32(&mut bytes, self.x as u32);
        put_u32(&mut bytes, self.z as u32);
        put_flag(&mut bytes, self.mode);
        bytes
    }
}

impl MapChunkPacket {
    /// The packet's bytes.
    pub fn encode(&self) -> (r: Vec<u8>)
        ensures
            r@ == seq![0x33u8] + be32(self.x as u32) + be16(self.y as u16) + be32(self.z as u32)
                + byte(self.size_x) + byte(self.size_y) + byte(self.size_z) + be32(
                self.compressed_size as u32,
            ) + self.compressed_data@,
    {
        let mut bytes: Vec<u8> = packet(0x33);
        put_u32(&mut bytes, self.x as u32);
        put_u16(&mut bytes, self.y as u16);
        put_u32(&mut bytes, self.z as u32);
        put_i8(&mut bytes, self.size_x);
        put_i8(&mut bytes, self.size_y);
        put_i8(&mut bytes, self.size_z);
        put_u32(&mut bytes, self.compressed_size as u32);
        let ghost header = bytes@;
        bytes.extend_from_slice(self.compressed_data.as_slice());
        assert(bytes@ =~= header + self.compressed_data@);
        bytes
    }
}

impl BlockChangePacket {
    /// The packet's bytes.
    pub fn encode(&self) -> (r: Vec<u8>)
        ensures
            r@ == block_change_bytes(*self),
            r@ == seq![0x35u8] + be32(self.x as u32) + seq![self.y as u8] + be32(self.z as u32)
                + seq![self.block_type as u8] + seq![self.block_metadata as u8],
    {
        let mut bytes: Vec<u8> = packet(0x35);
        put_u32(&mut bytes, self.x as u32);
        put_i8(&mut bytes, self.y);
        put_u32(&mut bytes, self.z as u32);
        put_i8(&mut bytes, self.block_type);
        put_i8(&mut bytes, self.block_metadata);
        bytes
    }
}

/// Keeps the connection alive.
pub fn keep_alive() -> (r: Vec<u8>)
    ensures
        r@ == seq![0u8],
{
    packet(0)
}

/// Answers a handshake: no authentication is asked for.
pub fn handshake_reply() -> (r: Vec<u8>)
    ensures
        r@ == seq![2u8, 0, 1, 0x2d],
{
    let mut bytes: Vec<u8> = packet(2);
    put_u16(&mut bytes, 1);
    bytes.push(0x2d);
    assert(bytes@ =~= seq![2u8, 0, 1, 0x2d]);
    bytes
}

/// Answers a login: the number of the player's entity, two empty texts, and no seed or dimension.
pub fn login_reply(eid: i32) -> (r: Vec<u8>)
    ensures
        r@ == seq![1u8] + be32(eid as u32) + be16(0) + be16(0) + be64(0) + byte(0),
{
    let mut bytes: Vec<u8> = packet(1);
    put_u32(&mut bytes, eid as u32);
    put_u16(&mut bytes, 0);
    put_u16(&mut bytes, 0);
    put_u64(&mut bytes, 0);
    put_i8(&mut bytes, 0);
    bytes
}

/// Tells the spawn position.
pub fn spawn_position(spawn: [i32; 3]) -> (r: Vec<u8>)
    ensures
        r@ == seq![6u8] + be32(spawn[0] as u32) + be32(spawn[1] as u32) + be32(spawn[2] as u32),
{
    let mut bytes: Vec<u8> = packet(6);
    put_u32(&mut bytes, spawn[0] as u32);
    put_u32(&mut bytes, spawn[1] as u32);
    put_u32(&mut bytes, spawn[2] as u32);
    bytes
}

/// Tells a player where they are, with the height twice.
pub fn place_player(at: &PositionAndLook) -> (r: Vec<u8>)
    ensures
        r@ == seq![0x0du8] + be64(at.x) + be64(at.y) + be64(at.y) + be64(at.z) + be32(at.yaw)
            + be32(at.pitch) + flag(at.on_ground),
{
    let mut bytes: Vec<u8> = packet(0x0d);
    put_u64(&mut bytes, at.x);
    put_u64(&mut bytes, at.y);
    put_u64(&mut bytes, at.y);
    put_u64(&mut bytes, at.z);
    put_u32(&mut bytes, at.yaw);
    put_u32(&mut bytes, at.pitch);
    put_flag(&mut bytes, at.on_ground);
    bytes
}

/// Shows a movement of an entity.
pub fn animation(eid: i32, kind: u8) -> (r: Vec<u8>)
    ensures
        r@ == seq![0x12u8] + be32(eid as u32) + seq![kind],
{
    let mut bytes: Vec<u8> = packet(0x12);
    put_u32(&mut bytes, eid as u32);
    let ghost header = bytes@;
    bytes.push(kind);
    assert(bytes@ =~= header + seq![kind]);
    bytes
}

/// Tells the time of day.
pub fn time_update(time: i64) -> (r: Vec<u8>)
    ensures
        r@ == seq![4u8] + be64(time as u64),
{
    let mut bytes: Vec<u8> = packet(4);
    put_u64(&mut bytes, time as u64);
    bytes
}

/// Tells a player's health.
pub fn update_health(health: i8) -> (r: Vec<u8>)
    ensures
        r@ == seq![8u8] + byte(health),
{
    let mut bytes: Vec<u8> = packet(8);
    put_i8(&mut bytes, health);
    bytes
}

/// Adds an item to the player's inventory.
pub fn add_to_inventory(item: &Item) -> (r: Vec<u8>)
    ensures
        r@ == seq![0x11u8] + be16(item.item_type as u16) + byte(item.count) + be16(
            item.life as u16,
        ),
{
    let mut bytes: Vec<u8> = packet(0x11);
    put_u16(&mut bytes, item.item_type as u16);
    put_i8(&mut bytes, item.count);
    put_u16(&mut bytes, item.life as u16);
    bytes
}

/// Shows that an item was picked up by a player.
pub fn collect_item(item_eid: i32, player_eid: i32) -> (r: Vec<u8>)
    ensures
        r@ == seq![0x16u8] + be32(item_eid as u32) + be32(player_eid as u32),
{
    let mut bytes: Vec<u8> = packet(0x16);
    put_u32(&mut bytes, item_eid as u32);
    put_u32(&mut bytes, player_eid as u32);
    bytes
}

/// Removes an entity.
pub fn destroy_entity(eid: i32) -> (r: Vec<u8>)
    ensures
        r@ == seq![0x1du8] + be32(eid as u32),
{
    let mut bytes: Vec<u8> = packet(0x1d);
    put_u32(&mut bytes, eid as u32);
    bytes
}

/// Introduces the number of an entity.
pub fn entity(eid: i32) -> (r: Vec<u8>)
    ensures
        r@ == seq![0x1eu8] + be32(eid as u32),
{
    let mut bytes: Vec<u8> = packet(0x1e);
    put_u32(&mut bytes, eid as u32);
    bytes
}

/// Moves an entity by a small distance and turns it.
pub fn entity_look_and_move(eid: i32, x: i8, y: i8, z: i8, yaw: i8, pitch: i8) -> (r: Vec<u8>)
    ensures
        r@ == seq![0x21u8] + be32(eid as u32) + byte(x) + byte(y) + byte(z) + byte(yaw) + byte(
            pitch,
        ),
{
    let mut bytes: Vec<u8> = packet(0x21);
    put_u32(&mut bytes, eid as u32);
    put_i8(&mut bytes, x);
    put_i8(&mut bytes, y);
    put_i8(&mut bytes, z);
    put_i8(&mut bytes, yaw);
    put_i8(&mut bytes, pitch);
    bytes
}

/// The packet that precedes a chunk.
pub fn pre_chunk(chunk: &Chunk) -> (r: PreChunkPacket)
    ensures
        r == (PreChunkPacket { x: chunk.chunk_x, z: chunk.chunk_z, mode: true }),
{
    PreChunkPacket { x: chunk.chunk_x, z: chunk.chunk_z, mode: true }
}

/// The contents of a chunk as they are compressed for sending.
pub fn chunk_payload(chunk: &Chunk) -> (r: Vec<u8>)
    ensures
        r@ == chunk@.blocks + chunk@.data + chunk@.block_light + chunk@.sky_light,
        r@ == chunk.blocks@ + chunk.data@ + chunk.block_light@ + chunk.sky_light@,
{
    let mut payload: Vec<u8> = Vec::new();
    payload.extend_from_slice(chunk.blocks.as_slice());
    payload.extend_from_slice(chunk.data.as_slice());
    payload.extend_from_slice(chunk.block_light.as_slice());
    payload.extend_from_slice(chunk.sky_light.as_slice());
    assert(payload@ =~= chunk@.blocks + chunk@.data + chunk@.block_light + chunk@.sky_light);
    payload
}

/// The packet with a whole chunk, given its compressed payload. The position is in blocks.
pub fn map_chunk(chunk: &Chunk, compressed: Vec<u8>) -> (r: MapChunkPacket)
    ensures
        r.x == chunk.chunk_x.wrapping_mul(16),
        r.y == 0,
        r.z == chunk.chunk_z.wrapping_mul(16),
        r.size_x == 15,
        r.size_y == 127,
        r.size_z == 15,
        r.compressed_size == compressed@.len() as usize as i32,
        r.compressed_data@ == compressed@,
{
    MapChunkPacket {
        x: chunk.chunk_x.wrapping_mul(16),
        y: 0,
        z: chunk.chunk_z.wrapping_mul(16),
        size_x: 15,
        size_y: 127,
        size_z: 15,
        compressed_size: compressed.len() as i32,
        compressed_data: compressed,
    }
}

/// A signed byte is written as itself up to a multiple of 256, and a truth value as 1 or 0.
pub proof fn law_single_bytes(n: i8, b: bool)
    ensures
        byte(n).len() == 1,
        byte(n)[0] == if n >= 0 {
            n as int
        } else {
            n + 256
        },
        flag(b).len() == 1,
        flag(b)[0] == if b {
            1int
        } else {
            0
        },
{
    assert(n >= 0 ==> n as u8 == n) by (bit_vector);
    assert(n < 0 ==> n as u8 == n + 256) by (bit_vector);
}

/// A text is written after the number of its bytes.
pub proof fn law_text_bytes(text: Seq<char>)
    ensures
        text_bytes(text).len() == 2 + encode_utf8(text).len(),
        encode_utf8(text).len() <= 0xffff ==> text_bytes(text)[0] * 0x100 + text_bytes(text)[1] == encode_utf8(text).len(),
        text_bytes(text).skip(2) == encode_utf8(text),
{
    law_be16(encode_utf8(text).len() as usize as u16);
    assert(text_bytes(text).skip(2) =~= encode_utf8(text));
}

/// The packet for an item has the number 0x15 and 24 bytes; that for a block has 0x35 and 12. Each
/// field stands at its place.
pub proof fn law_packets_hold_their_fields(item: PickupSpawnPacket, block: BlockChangePacket)
    ensures
        pickup_spawn_bytes(item) == seq![0x15u8] + be32(item.entity_id as u32) + be16(
            item.item_id as u16,
        ) + seq![item.count as u8] + be32(item.x as u32) + be32(item.y as u32) + be32(
            item.z as u32,
        ) + seq![item.rotation as u8] + seq![item.pitch as u8] + seq![item.roll as u8],
        block_change_bytes(block) == seq![0x35u8] + be32(block.x as u32) + seq![block.y as u8]
            + be32(block.z as u32) + seq![block.block_type as u8] + seq![
            block.block_metadata as u8,
        ],
{
}

} // verus!
