//! Blocks in the world: finding them, and telling clients that they have changed.
use crate::chunk::{Chunk, ChunkView};
use crate::client::{PlayerBlockPlacementPacket, PlayerDiggingPacket};
use crate::items::Item;
use crate::packets::BlockChangePacket;
use vstd::prelude::*;

verus! {

/// A change of a block that a player made.
#[derive(Debug, Clone, Copy, PartialEq, Eq)]
pub enum BlockUpdate {
    /// A block was placed.
    Place(PlayerBlockPlacementPacket),
    /// The block at these coordinates was broken.
    Break((i32, i8, i32)),
}

/// The packet that tells clients of a change: a placed block is of the type of the item (its low
/// eight bits), a broken block becomes air, which is type 0.
pub open spec fn change_packet(update: BlockUpdate) -> BlockChangePacket {
    match update {
        BlockUpdate::Place(placed) => BlockChangePacket {
            x: placed.x,
            y: placed.y,
            z: placed.z,
            block_type: placed.item_id as i8,
            block_metadata: 0,
        },
        BlockUpdate::Break((x, y, z)) => BlockChangePacket {
            x,
            y,
            z,
            block_type: 0,
            block_metadata: 0,
        },
    }
}

/// The low eight bits of an item's type are its type up to a multiple of 256.
proof fn lemma_low_byte(update: BlockUpdate)
    ensures
        update matches BlockUpdate::Place(placed) ==> {
            &&& 0 <= placed.item_id <= 127 ==> placed.item_id as i8 == placed.item_id
            &&& (placed.item_id as i8 - placed.item_id) % 256 == 0
        },
{
    if let BlockUpdate::Place(placed) = update {
        let id = placed.item_id;
        assert(0 <= id <= 127 ==> id as i8 == id) by (bit_vector);
        assert(((id as i8) as int - id as int) % 256 == 0) by (bit_vector);
    }
}

/// Makes the packet that tells clients of a change.
pub fn block_change(update: &BlockUpdate) -> (r: BlockChangePacket)
    ensures
        r == change_packet(*update),
        r.block_metadata == 0,
        match *update {
            BlockUpdate::Place(placed) => {
                &&& r.x == placed.x && r.y == placed.y && r.z == placed.z
                &&& 0 <= placed.item_id <= 127 ==> r.block_type == placed.item_id
                &&& (r.block_type - placed.item_id) % 256 == 0
            },
            BlockUpdate::Break((x, y, z)) => r.x == x && r.y == y && r.z == z && r.block_type == 0,
        },
{
    proof {
        lemma_low_byte(*update);
    }
    match update {
        BlockUpdate::Place(placed) => BlockChangePacket {
            x: placed.x,
            y: placed.y,
            z: placed.z,
            block_type: placed.item_id as i8,
            block_metadata: 0,
        },
        BlockUpdate::Break((x, y, z)) => BlockChangePacket {
            x: *x,
            y: *y,
            z: *z,
            block_type: 0,
            block_metadata: 0,
        },
    }
}

/// What is done next for a client that is to be told of changes.
#[derive(Debug, Clone, Copy, PartialEq, Eq, Structural)]
pub enum Step {
    /// The next change is received.
    Receive,
    /// Nothing is received or told yet.
    Wait,
}

/// Decides what is done next for a client: before the player has logged in, nothing is received.
pub fn next_step(logged_in: bool) -> (r: Step)
    ensures
        r == (if logged_in {
            Step::Receive
        } else {
            Step::Wait
        }),
{
    if logged_in {
        Step::Receive
    } else {
        Step::Wait
    }
}

/// What a client is told after waiting for a change: the change, and nothing if none could be
/// received.
pub open spec fn told(received: Option<BlockUpdate>) -> Option<BlockChangePacket> {
    match received {
        Some(update) => Some(change_packet(update)),
        None => None,
    }
}

/// Decides what a client is told after waiting for a change.
pub fn tell(received: Option<BlockUpdate>) -> (r: Option<BlockChangePacket>)
    ensures
        r == told(received),
        r is Some <==> received is Some,
        received matches Some(update) ==> r == Some(change_packet(update)),
{
    match received {
        Some(update) => Some(block_change(&update)),
        None => None,
    }
}

/// All that a client is told after waiting several times.
pub open spec fn all_told(received: Seq<Option<BlockUpdate>>) -> Seq<BlockChangePacket>
    decreases received.len(),
{
    if received.len() == 0 {
        seq![]
    } else {
        match told(received.last()) {
            Some(packet) => all_told(received.drop_last()).push(packet),
            None => all_told(received.drop_last()),
        }
    }
}

/// The changes that were received, in order.
pub open spec fn updates_in(received: Seq<Option<BlockUpdate>>) -> Seq<BlockUpdate>
    decreases received.len(),
{
    if received.len() == 0 {
        seq![]
    } else {
        match received.last() {
            Some(update) => updates_in(received.drop_last()).push(update),
            None => updates_in(received.drop_last()),
        }
    }
}

/// A client is told of each change that is received once, and in order; where nothing could be
/// received, nothing is told.
pub proof fn law_one_packet_per_update(received: Seq<Option<BlockUpdate>>)
    ensures
        all_told(received) == updates_in(received).map_values(
            |update: BlockUpdate| change_packet(update),
        ),
    decreases received.len(),
{
    if received.len() > 0 {
        law_one_packet_per_update(received.drop_last());
    }
    assert(all_told(received) =~= updates_in(received).map_values(
        |update: BlockUpdate| change_packet(update),
    ));
}

/// The change that digging makes: a block is broken when its digging is finished, which is
/// status 3.
pub open spec fn dug(digging: PlayerDiggingPacket) -> Option<BlockUpdate> {
    if digging.status == 3 {
        Some(BlockUpdate::Break((digging.x, digging.y, digging.z)))
    } else {
        None
    }
}

/// The change that placing makes: none without an item in hand, which is item -1.
pub open spec fn placed(placement: PlayerBlockPlacementPacket) -> Option<BlockUpdate> {
    if placement.item_id != -1 {
        Some(BlockUpdate::Place(placement))
    } else {
        None
    }
}

/// The change that digging makes.
pub fn dig(digging: &PlayerDiggingPacket) -> (r: Option<BlockUpdate>)
    ensures
        r == dug(*digging),
        digging.status == 3 ==> r == Some(
            BlockUpdate::Break((digging.x, digging.y, digging.z)),
        ),
        digging.status != 3 ==> r is None,
{
    if digging.status == 3 {
        Some(BlockUpdate::Break((digging.x, digging.y, digging.z)))
    } else {
        None
    }
}

/// The change that placing makes.
pub fn place(placement: &PlayerBlockPlacementPacket) -> (r: Option<BlockUpdate>)
    ensures
        r == placed(*placement),
        placement.item_id == -1 ==> r is None,
        placement.item_id != -1 ==> r == Some(BlockUpdate::Place(*placement)),
{
    if placement.item_id != -1 {
        Some(BlockUpdate::Place(*placement))
    } else {
        None
    }
}

/// Whether the block column at the given coordinates belongs to the chunk.
pub open spec fn covers(chunk: ChunkView, x: i32, z: i32) -> bool {
    chunk.chunk_x == x as int / 16 && chunk.chunk_z == z as int / 16
}

/// The first of some chunks that a block column belongs to.
pub open spec fn covering(chunks: Seq<Chunk>, x: i32, z: i32) -> Option<ChunkView>
    decreases chunks.len(),
{
    if chunks.len() == 0 {
        None
    } else if covers(chunks[0]@, x, z) {
        Some(chunks[0]@)
    } else {
        covering(chunks.drop_first(), x, z)
    }
}

/// The type of the block of a chunk at world coordinates.
pub open spec fn block_id_in(chunk: ChunkView, x: i32, y: i8, z: i32) -> Option<i8> {
    let index = y + (z as int % 16) * 128 + (x as int % 16) * 2048;
    if 0 <= index < chunk.blocks.len() {
        Some(chunk.blocks[index] as i8)
    } else {
        None
    }
}

/// The type of the block at world coordinates, if one of the chunks holds it.
pub open spec fn block_id_at(chunks: Seq<Chunk>, x: i32, y: i8, z: i32) -> Option<i8> {
    match covering(chunks, x, z) {
        Some(chunk) => block_id_in(chunk, x, y, z),
        None => None,
    }
}

/// Finds the chunk that the block column at the given coordinates belongs to.
pub fn get_chunk_from_block(chunks: &[Chunk], x: i32, z: i32) -> (r: Option<&Chunk>)
    ensures
        match r {
            Some(chunk) => covering(chunks@, x, z) == Some(chunk@),
            None => covering(chunks@, x, z) is None,
        },
        match r {
            Some(chunk) => {
                &&& 16 * chunk.chunk_x <= x < 16 * chunk.chunk_x + 16
                &&& 16 * chunk.chunk_z <= z < 16 * chunk.chunk_z + 16
                &&& exists|i: int|
                    0 <= i < chunks@.len() && *chunk == #[trigger] chunks@[i] && forall|j: int|
                        0 <= j < i ==> !(16 * (#[trigger] chunks@[j]).chunk_x <= x < 16
                            * chunks@[j].chunk_x + 16 && 16 * chunks@[j].chunk_z <= z < 16
                            * chunks@[j].chunk_z + 16)
            },
            None => forall|j: int|
                0 <= j < chunks@.len() ==> !(16 * (#[trigger] chunks@[j]).chunk_x <= x < 16
                    * chunks@[j].chunk_x + 16 && 16 * chunks@[j].chunk_z <= z < 16
                    * chunks@[j].chunk_z + 16),
        },
{
    assert(x >> 4 == x / 16) by (bit_vector);
    assert(z >> 4 == z / 16) by (bit_vector);
    assert(chunks@.skip(0) =~= chunks@);
    for i in 0..chunks.len()
        invariant
            x >> 4 == x as int / 16,
            z >> 4 == z as int / 16,
            covering(chunks@, x, z) == covering(chunks@.skip(i as int), x, z),
            forall|j: int|
                0 <= j < i ==> !(16 * (#[trigger] chunks@[j]).chunk_x <= x < 16
                    * chunks@[j].chunk_x + 16 && 16 * chunks@[j].chunk_z <= z < 16
                    * chunks@[j].chunk_z + 16),
    {
        if chunks[i].chunk_x == x >> 4 && chunks[i].chunk_z == z >> 4 {
            return Some(&chunks[i]);
        }
        assert(chunks@.skip(i as int).drop_first() =~= chunks@.skip(i + 1));
    }
    None
}

/// Finds the type of the block at world coordinates. There is none if no chunk covers the
/// coordinates, or the chunk's blocks do not reach there.
pub fn get_block_id(chunks: &[Chunk], x: i32, y: i8, z: i32) -> (r: Option<i8>)
    ensures
        r == block_id_at(chunks@, x, y, z),
{
    let chunk: &Chunk = match get_chunk_from_block(chunks, x, z) {
        Some(chunk) => chunk,
        None => return None,
    };
    assert(x & 15 == x % 16) by (bit_vector);
    assert(z & 15 == z % 16) by (bit_vector);
    let index: i32 = y as i32 + ((z & 15) * 128 + (x & 15) * 2048);
    if index >= 0 && (index as usize) < chunk.blocks.len() {
        Some(chunk.blocks[index as usize] as i8)
    } else {
        None
    }
}

/// The item that a broken block leaves: one of the block's type. There is none where the block
/// cannot be found.
pub fn dropped_item(chunks: &[Chunk], x: i32, y: i8, z: i32) -> (r: Option<Item>)
    ensures
        r matches Some(item) ==> item.count == 1 && item.life == 0,
        r is Some <==> block_id_at(chunks@, x, y, z) is Some,
        r matches Some(item) ==> block_id_at(chunks@, x, y, z) == Some(item.item_type as i8) && -128
            <= item.item_type <= 127,
        r == match block_id_at(chunks@, x, y, z) {
            Some(id) => Some(Item { item_type: id as i16, count: 1, life: 0 }),
            None => None::<Item>,
        },
{
    match get_block_id(chunks, x, y, z) {
        Some(id) => Some(Item { item_type: id as i16, count: 1, life: 0 }),
        None => None,
    }
}

/// `get_block_id` is what `get_block` of the covering chunk returns at the chunk-local
/// coordinates, which are the world coordinates modulo 16, as a signed byte.
pub proof fn law_block_id_is_local_block(chunks: Seq<Chunk>, x: i32, y: i8, z: i32)
    requires
        y >= 0,
        covering(chunks, x, z) is Some,
    ensures
        block_id_at(chunks, x, y, z) == match covering(chunks, x, z)->0.block_at(
            (x as int % 16) as u8,
            y as u8,
            (z as int % 16) as u8,
        ) {
            Some(block) => Some(block as i8),
            None => None,
        },
{
}

/// When the digging of a block is finished, clients are told of air at its place.
pub proof fn law_dug_block_becomes_air(digging: PlayerDiggingPacket)
    requires
        digging.status == 3,
    ensures
        dug(digging) is Some,
        change_packet(dug(digging)->0) == (BlockChangePacket {
            x: digging.x,
            y: digging.y,
            z: digging.z,
            block_type: 0,
            block_metadata: 0,
        }),
{
}

/// A block that is placed from an item of type 0 to 127 is shown to clients at the place of the
/// placement, with exactly the item's type.
pub proof fn law_placed_block_is_shown(placement: PlayerBlockPlacementPacket)
    requires
        0 <= placement.item_id <= 127,
    ensures
        placed(placement) is Some,
        ({
            let packet = change_packet(placed(placement)->0);
            &&& packet.x == placement.x
            &&& packet.y == placement.y
            &&& packet.z == placement.z
            &&& packet.block_type as int == placement.item_id as int
            &&& packet.block_metadata == 0
        }),
{
    lemma_low_byte(BlockUpdate::Place(placement));
}

/// Digging breaks a block exactly when it is finished, and placing places one exactly with an item
/// in hand.
pub proof fn law_when_blocks_change(
    digging: PlayerDiggingPacket,
    placement: PlayerBlockPlacementPacket,
)
    ensures
        dug(digging) is Some <==> digging.status == 3,
        placed(placement) is Some <==> placement.item_id != -1,
        dug(digging) matches Some(update) ==> change_packet(update).block_type == 0
            && change_packet(update).x == digging.x && change_packet(update).y == digging.y
            && change_packet(update).z == digging.z,
        placed(placement) matches Some(update) ==> change_packet(update).x == placement.x
            && change_packet(update).y == placement.y && change_packet(update).z == placement.z,
{
}

/// A block column belongs to the chunk that starts at most 15 blocks before it in both directions,
/// and `covering` finds the first such chunk.
pub proof fn law_covering_chunk(chunks: Seq<Chunk>, x: i32, z: i32, i: int)
    requires
        0 <= i < chunks.len(),
        16 * chunks[i].chunk_x <= x < 16 * chunks[i].chunk_x + 16,
        16 * chunks[i].chunk_z <= z < 16 * chunks[i].chunk_z + 16,
        forall|j: int|
            0 <= j < i ==> !(16 * (#[trigger] chunks[j]).chunk_x <= x < 16 * chunks[j].chunk_x + 16
                && 16 * chunks[j].chunk_z <= z < 16 * chunks[j].chunk_z + 16),
    ensures
        covering(chunks, x, z) == Some(chunks[i]@),
    decreases i,
{
    assert(chunks[0]@.chunk_x == chunks[0].chunk_x && chunks[0]@.chunk_z == chunks[0].chunk_z);
    if i > 0 {
        let rest = chunks.drop_first();
        assert forall|j: int| 0 <= j < i - 1 implies !(16 * (#[trigger] rest[j]).chunk_x <= x < 16
            * rest[j].chunk_x + 16 && 16 * rest[j].chunk_z <= z < 16 * rest[j].chunk_z + 16) by {
            assert(rest[j] == chunks[j + 1]);
        }
        law_covering_chunk(rest, x, z, i - 1);
    }
}

/// The type of a block is the byte of its chunk at the block's place, counted from the corner of
/// the chunk: 2048 blocks further for each step along `x`, 128 for each along `z`, one for each up.
/// Bytes from 128 on are negative types.
pub proof fn law_block_id_is_the_byte(chunks: Seq<Chunk>, i: int, x: i32, y: i8, z: i32)
    requires
        0 <= i < chunks.len(),
        covering(chunks, x, z) == Some(chunks[i]@),
        16 * chunks[i].chunk_x <= x < 16 * chunks[i].chunk_x + 16,
        16 * chunks[i].chunk_z <= z < 16 * chunks[i].chunk_z + 16,
    ensures
        ({
            let at = (x - 16 * chunks[i].chunk_x) * 2048 + (z - 16 * chunks[i].chunk_z) * 128 + y;
            if 0 <= at < chunks[i].blocks@.len() {
                let byte = chunks[i].blocks@[at];
                block_id_at(chunks, x, y, z) matches Some(id) && id == if byte < 128 {
                    byte as int
                } else {
                    byte - 256
                }
            } else {
                block_id_at(chunks, x, y, z) is None
            }
        }),
{
    let at = (x - 16 * chunks[i].chunk_x) * 2048 + (z - 16 * chunks[i].chunk_z) * 128 + y;
    assert(x as int % 16 == x - 16 * chunks[i].chunk_x);
    assert(z as int % 16 == z - 16 * chunks[i].chunk_z);
    if 0 <= at < chunks[i].blocks@.len() {
        let byte = chunks[i].blocks@[at];
        assert(byte < 128 ==> byte as i8 == byte) by (bit_vector);
        assert(byte >= 128 ==> byte as i8 == byte - 256) by (bit_vector);
    }
}

/// Where no chunk covers a block column, no block is found.
pub proof fn law_uncovered_block(chunks: Seq<Chunk>, x: i32, y: i8, z: i32)
    requires
        forall|j: int|
            0 <= j < chunks.len() ==> !(16 * (#[trigger] chunks[j]).chunk_x <= x < 16
                * chunks[j].chunk_x + 16 && 16 * chunks[j].chunk_z <= z < 16 * chunks[j].chunk_z
                + 16),
    ensures
        covering(chunks, x, z) is None,
        block_id_at(chunks, x, y, z) is None,
    decreases chunks.len(),
{
    if chunks.len() > 0 {
        let rest = chunks.drop_first();
        assert forall|j: int| 0 <= j < rest.len() implies !(16 * (#[trigger] rest[j]).chunk_x <= x
            < 16 * rest[j].chunk_x + 16 && 16 * rest[j].chunk_z <= z < 16 * rest[j].chunk_z + 16) by {
            assert(rest[j] == chunks[j + 1]);
        }
        assert(chunks[0]@.chunk_x == chunks[0].chunk_x && chunks[0]@.chunk_z == chunks[0].chunk_z);
        law_uncovered_block(rest, x, y, z);
    }
}

/// Each change that is received adds its packet, and a failure to receive adds none.
pub proof fn law_told_in_turn(received: Seq<Option<BlockUpdate>>, update: BlockUpdate)
    ensures
        all_told(Seq::empty()).len() == 0,
        all_told(received.push(Some(update))) == all_told(received).push(change_packet(update)),
        all_told(received.push(None)) == all_told(received),
{
    assert(received.push(Some(update)).drop_last() =~= received);
    assert(received.push(None).drop_last() =~= received);
}

} // verus!
