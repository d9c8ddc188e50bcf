//! What a client writes is what is read: for every kind of packet, its bytes, wherever they stand
//! and whatever follows, read as the packet with the values that were written.
use crate::client::{
    inventory_at, law_complete_packet_stays, lemma_packet_end, login_at, packet_at, packets_from,
    readable_slots, slot_at, slot_count, slots_at, started_in, started_slots, text_at,
    use_entity_at, views, ClientPacket, End, LoginPacket, LoginView, PacketView,
    PlayerBlockPlacementPacket, PlayerDiggingPacket, UseEntityPacket,
};
use crate::items::Item;
use crate::wire::{
    be16, be32, be64, law_be16, lemma_be16, lemma_number_in_part, lemma_own_bytes, lemma_signed,
    u16_in, u32_in, u64_in,
};
use vstd::prelude::*;

verus! {

/// A keep-alive packet is its number alone.
pub proof fn law_keep_alive_is_read(front: Seq<u8>, rest: Seq<u8>)
    ensures
        packet_at(front + seq![0x00u8] + rest, front.len() as int) == Some(
            (PacketView::KeepAlive, front.len() as int + 1),
        ),
{
}

/// The text of a handshake, of a chat message or of a disconnection is read as it was written.
pub proof fn law_text_is_read(front: Seq<u8>, id: u8, text: Seq<u8>, rest: Seq<u8>)
    requires
        id == 0x02 || id == 0x03 || id == 0xff,
        text.len() <= 0xffff,
    ensures
        packet_at(
            front + (seq![id] + be16(text.len() as u16) + text) + rest,
            front.len() as int,
        ) == Some(
            (
                if id == 0x02 {
                    PacketView::Handshake { username: text }
                } else if id == 0x03 {
                    PacketView::Chat { message: text }
                } else {
                    PacketView::Disconnect { reason: text }
                },
                front.len() as int + 3 + text.len(),
            ),
        ),
{
    let s = front + (seq![id] + be16(text.len() as u16) + text) + rest;
    let at = front.len() as int;
    law_be16(text.len() as u16);
    assert(s[at] == id);
    assert(s.subrange(at + 1, at + 3 + text.len()) =~= be16(text.len() as u16) + text);
    lemma_text(s, at + 1, text);
}

/// A text after its length is read as it was written.
proof fn lemma_text(s: Seq<u8>, at: int, text: Seq<u8>)
    requires
        0 <= at,
        text.len() <= 0xffff,
        at + 2 + text.len() <= s.len(),
        s.subrange(at, at + 2 + text.len()) == be16(text.len() as u16) + text,
    ensures
        text_at(s, at) == Some((text, at + 2 + text.len())),
{
    let part = s.subrange(at, at + 2 + text.len());
    law_be16(text.len() as u16);
    assert(s.subrange(at, at + 2) =~= part.subrange(0, 2));
    assert(part.subrange(0, 2) =~= be16(text.len() as u16));
    lemma_be16(s, at, text.len() as u16);
    assert(s.subrange(at + 2, at + 2 + text.len()) =~= part.subrange(2, 2 + text.len() as int));
    assert(part.subrange(2, 2 + text.len() as int) =~= text);
}

/// Whether a player is on the ground is read as it was written: any byte but 0 means that they
/// are.
pub proof fn law_flying_is_read(front: Seq<u8>, on_ground: u8, rest: Seq<u8>)
    ensures
        packet_at(front + seq![0x0au8, on_ground] + rest, front.len() as int) == Some(
            (PacketView::Flying { on_ground: on_ground != 0 }, front.len() as int + 2),
        ),
{
}

/// The parts of a position packet.
proof fn lemma_position(
    front: Seq<u8>,
    a: Seq<u8>,
    b: Seq<u8>,
    c: Seq<u8>,
    d: Seq<u8>,
    on_ground: u8,
    rest: Seq<u8>,
)
    requires
        a.len() == 8,
        b.len() == 8,
        c.len() == 8,
        d.len() == 8,
    ensures
        packet_at(
            front + (seq![0x0bu8] + a + b + c + d + seq![on_ground]) + rest,
            front.len() as int,
        ) == Some(
            (
                PacketView::Position {
                    x: u64_in(a, 0),
                    y: u64_in(b, 0),
                    stance: u64_in(c, 0),
                    z: u64_in(d, 0),
                    on_ground: on_ground != 0,
                },
                front.len() as int + 34,
            ),
        ),
{
    let s = front + (seq![0x0bu8] + a + b + c + d + seq![on_ground]) + rest;
    let at = front.len() as int;
    assert(s.subrange(at + 1, at + 9) =~= a);
    assert(s.subrange(at + 9, at + 17) =~= b);
    assert(s.subrange(at + 17, at + 25) =~= c);
    assert(s.subrange(at + 25, at + 33) =~= d);
    lemma_number_in_part(s, at + 1, a);
    lemma_number_in_part(s, at + 9, b);
    lemma_number_in_part(s, at + 17, c);
    lemma_number_in_part(s, at + 25, d);
    assert(s[at] == 0x0b && s[at + 33] == on_ground);
}

/// A position is read as it was written.
pub proof fn law_position_is_read(
    front: Seq<u8>,
    x: u64,
    y: u64,
    stance: u64,
    z: u64,
    on_ground: u8,
    rest: Seq<u8>,
)
    ensures
        packet_at(
            front + (seq![0x0bu8] + be64(x) + be64(y) + be64(stance) + be64(z) + seq![on_ground])
                + rest,
            front.len() as int,
        ) == Some(
            (
                PacketView::Position { x, y, stance, z, on_ground: on_ground != 0 },
                front.len() as int + 34,
            ),
        ),
{
    lemma_own_bytes(0, 0, x);
    lemma_own_bytes(0, 0, y);
    lemma_own_bytes(0, 0, stance);
    lemma_own_bytes(0, 0, z);
    lemma_position(front, be64(x), be64(y), be64(stance), be64(z), on_ground, rest);
}

/// The parts of a look packet.
proof fn lemma_look(front: Seq<u8>, a: Seq<u8>, b: Seq<u8>, on_ground: u8, rest: Seq<u8>)
    requires
        a.len() == 4,
        b.len() == 4,
    ensures
        packet_at(front + (seq![0x0cu8] + a + b + seq![on_ground]) + rest, front.len() as int)
            == Some(
            (
                PacketView::Look {
                    yaw: u32_in(a, 0),
                    pitch: u32_in(b, 0),
                    on_ground: on_ground != 0,
                },
                front.len() as int + 10,
            ),
        ),
{
    let s = front + (seq![0x0cu8] + a + b + seq![on_ground]) + rest;
    let at = front.len() as int;
    assert(s.subrange(at + 1, at + 5) =~= a);
    assert(s.subrange(at + 5, at + 9) =~= b);
    lemma_number_in_part(s, at + 1, a);
    lemma_number_in_part(s, at + 5, b);
    assert(s[at] == 0x0c && s[at + 9] == on_ground);
}

/// A look is read as it was written.
pub proof fn law_look_is_read(front: Seq<u8>, yaw: u32, pitch: u32, on_ground: u8, rest: Seq<u8>)
    ensures
        packet_at(
            front + (seq![0x0cu8] + be32(yaw) + be32(pitch) + seq![on_ground]) + rest,
            front.len() as int,
        ) == Some(
            (PacketView::Look { yaw, pitch, on_ground: on_ground != 0 }, front.len() as int + 10),
        ),
{
    lemma_own_bytes(0, yaw, 0);
    lemma_own_bytes(0, pitch, 0);
    lemma_look(front, be32(yaw), be32(pitch), on_ground, rest);
}

/// The parts of a packet with a position and a look.
proof fn lemma_position_and_look(
    front: Seq<u8>,
    a: Seq<u8>,
    b: Seq<u8>,
    c: Seq<u8>,
    d: Seq<u8>,
    e: Seq<u8>,
    f: Seq<u8>,
    on_ground: u8,
    rest: Seq<u8>,
)
    requires
        a.len() == 8,
        b.len() == 8,
        c.len() == 8,
        d.len() == 8,
        e.len() == 4,
        f.len() == 4,
    ensures
        packet_at(
            front + (seq![0x0du8] + a + b + c + d + e + f + seq![on_ground]) + rest,
            front.len() as int,
        ) == Some(
            (
                PacketView::PositionAndLook {
                    x: u64_in(a, 0),
                    y: u64_in(b, 0),
                    stance: u64_in(c, 0),
                    z: u64_in(d, 0),
                    yaw: u32_in(e, 0),
                    pitch: u32_in(f, 0),
                    on_ground: on_ground != 0,
                },
                front.len() as int + 42,
            ),
        ),
{
    let s = front + (seq![0x0du8] + a + b + c + d + e + f + seq![on_ground]) + rest;
    let at = front.len() as int;
    assert(s.subrange(at + 1, at + 9) =~= a);
    assert(s.subrange(at + 9, at + 17) =~= b);
    assert(s.subrange(at + 17, at + 25) =~= c);
    assert(s.subrange(at + 25, at + 33) =~= d);
    assert(s.subrange(at + 33, at + 37) =~= e);
    assert(s.subrange(at + 37, at + 41) =~= f);
    lemma_number_in_part(s, at + 1, a);
    lemma_number_in_part(s, at + 9, b);
    lemma_number_in_part(s, at + 17, c);
    lemma_number_in_part(s, at + 25, d);
    lemma_number_in_part(s, at + 33, e);
    lemma_number_in_part(s, at + 37, f);
    assert(s[at] == 0x0d && s[at + 41] == on_ground);
}

/// A position and a look are read as they were written.
pub proof fn law_position_and_look_is_read(
    front: Seq<u8>,
    x: u64,
    y: u64,
    stance: u64,
    z: u64,
    yaw: u32,
    pitch: u32,
    on_ground: u8,
    rest: Seq<u8>,
)
    ensures
        packet_at(
            front + (seq![0x0du8] + be64(x) + be64(y) + be64(stance) + be64(z) + be32(yaw) + be32(
                pitch,
            ) + seq![on_ground]) + rest,
            front.len() as int,
        ) == Some(
            (
                PacketView::PositionAndLook {
                    x,
                    y,
                    stance,
                    z,
                    yaw,
                    pitch,
                    on_ground: on_ground != 0,
                },
                front.len() as int + 42,
            ),
        ),
{
    lemma_own_bytes(0, yaw, x);
    lemma_own_bytes(0, pitch, y);
    lemma_own_bytes(0, 0, stance);
    lemma_own_bytes(0, 0, z);
    lemma_position_and_look(
        front,
        be64(x),
        be64(y),
        be64(stance),
        be64(z),
        be32(yaw),
        be32(pitch),
        on_ground,
        rest,
    );
}

/// The parts of a digging packet.
proof fn lemma_digging(
    front: Seq<u8>,
    status: u8,
    a: Seq<u8>,
    y: u8,
    b: Seq<u8>,
    face: u8,
    rest: Seq<u8>,
)
    requires
        a.len() == 4,
        b.len() == 4,
    ensures
        packet_at(
            front + (seq![0x0eu8, status] + a + seq![y] + b + seq![face]) + rest,
            front.len() as int,
        ) == Some(
            (
                PacketView::Digging {
                    digging: PlayerDiggingPacket {
                        status: status as i8,
                        x: u32_in(a, 0) as i32,
                        y: y as i8,
                        z: u32_in(b, 0) as i32,
                        face: face as i8,
                    },
                },
                front.len() as int + 12,
            ),
        ),
{
    let s = front + (seq![0x0eu8, status] + a + seq![y] + b + seq![face]) + rest;
    let at = front.len() as int;
    assert(s.subrange(at + 2, at + 6) =~= a);
    assert(s.subrange(at + 7, at + 11) =~= b);
    lemma_number_in_part(s, at + 2, a);
    lemma_number_in_part(s, at + 7, b);
    assert(s[at] == 0x0e && s[at + 1] == status && s[at + 6] == y && s[at + 11] == face);
}

/// Digging is read as it was written.
pub proof fn law_digging_is_read(front: Seq<u8>, digging: PlayerDiggingPacket, rest: Seq<u8>)
    ensures
        packet_at(
            front + (seq![0x0eu8, digging.status as u8] + be32(digging.x as u32) + seq![
                digging.y as u8,
            ] + be32(digging.z as u32) + seq![digging.face as u8]) + rest,
            front.len() as int,
        ) == Some((PacketView::Digging { digging }, front.len() as int + 12)),
{
    lemma_own_bytes(0, digging.x as u32, 0);
    lemma_own_bytes(0, digging.z as u32, 0);
    lemma_signed(digging.status, 0, digging.x, 0);
    lemma_signed(digging.y, 0, digging.z, 0);
    lemma_signed(digging.face, 0, 0, 0);
    lemma_digging(
        front,
        digging.status as u8,
        be32(digging.x as u32),
        digging.y as u8,
        be32(digging.z as u32),
        digging.face as u8,
        rest,
    );
}

/// The parts of a placement packet.
proof fn lemma_placement(
    front: Seq<u8>,
    a: Seq<u8>,
    b: Seq<u8>,
    y: u8,
    c: Seq<u8>,
    direction: u8,
    rest: Seq<u8>,
)
    requires
        a.len() == 2,
        b.len() == 4,
        c.len() == 4,
    ensures
        packet_at(
            front + (seq![0x0fu8] + a + b + seq![y] + c + seq![direction]) + rest,
            front.len() as int,
        ) == Some(
            (
                PacketView::Placement {
                    placement: PlayerBlockPlacementPacket {
                        item_id: u16_in(a, 0) as i16,
                        x: u32_in(b, 0) as i32,
                        y: y as i8,
                        z: u32_in(c, 0) as i32,
                        direction: direction as i8,
                    },
                },
                front.len() as int + 13,
            ),
        ),
{
    let s = front + (seq![0x0fu8] + a + b + seq![y] + c + seq![direction]) + rest;
    let at = front.len() as int;
    assert(s.subrange(at + 1, at + 3) =~= a);
    assert(s.subrange(at + 3, at + 7) =~= b);
    assert(s.subrange(at + 8, at + 12) =~= c);
    lemma_number_in_part(s, at + 1, a);
    lemma_number_in_part(s, at + 3, b);
    lemma_number_in_part(s, at + 8, c);
    assert(s[at] == 0x0f && s[at + 7] == y && s[at + 12] == direction);
}

/// A placement is read as it was written.
pub proof fn law_placement_is_read(
    front: Seq<u8>,
    placement: PlayerBlockPlacementPacket,
    rest: Seq<u8>,
)
    ensures
        packet_at(
            front + (seq![0x0fu8] + be16(placement.item_id as u16) + be32(placement.x as u32)
                + seq![placement.y as u8] + be32(placement.z as u32) + seq![
                placement.direction as u8,
            ]) + rest,
            front.len() as int,
        ) == Some((PacketView::Placement { placement }, front.len() as int + 13)),
{
    lemma_own_bytes(placement.item_id as u16, placement.x as u32, 0);
    lemma_own_bytes(0, placement.z as u32, 0);
    lemma_signed(placement.y, placement.item_id, placement.x, 0);
    lemma_signed(placement.direction, 0, placement.z, 0);
    lemma_placement(
        front,
        be16(placement.item_id as u16),
        be32(placement.x as u32),
        placement.y as u8,
        be32(placement.z as u32),
        placement.direction as u8,
        rest,
    );
}

/// The parts of a packet with the item in hand.
proof fn lemma_holding(front: Seq<u8>, a: Seq<u8>, b: Seq<u8>, rest: Seq<u8>)
    requires
        a.len() == 4,
        b.len() == 2,
    ensures
        packet_at(front + (seq![0x10u8] + a + b) + rest, front.len() as int) == Some(
            (
                PacketView::HoldingChange { item_id: u16_in(b, 0) as i16 },
                front.len() as int + 7,
            ),
        ),
{
    let s = front + (seq![0x10u8] + a + b) + rest;
    let at = front.len() as int;
    assert(s.subrange(at + 5, at + 7) =~= b);
    lemma_number_in_part(s, at + 5, b);
    assert(s[at] == 0x10);
}

/// The item that a player holds is read as it was written.
pub proof fn law_holding_is_read(front: Seq<u8>, unused: u32, item_id: i16, rest: Seq<u8>)
    ensures
        packet_at(
            front + (seq![0x10u8] + be32(unused) + be16(item_id as u16)) + rest,
            front.len() as int,
        ) == Some((PacketView::HoldingChange { item_id }, front.len() as int + 7)),
{
    lemma_own_bytes(item_id as u16, unused, 0);
    lemma_signed(0, item_id, 0, 0);
    lemma_holding(front, be32(unused), be16(item_id as u16), rest);
}

/// The parts of an animation packet.
proof fn lemma_animation(front: Seq<u8>, a: Seq<u8>, animation: u8, rest: Seq<u8>)
    requires
        a.len() == 4,
    ensures
        packet_at(front + (seq![0x12u8] + a + seq![animation]) + rest, front.len() as int) == Some(
            (
                PacketView::Animation { entity_id: u32_in(a, 0) as i32, animation },
                front.len() as int + 6,
            ),
        ),
{
    let s = front + (seq![0x12u8] + a + seq![animation]) + rest;
    let at = front.len() as int;
    assert(s.subrange(at + 1, at + 5) =~= a);
    lemma_number_in_part(s, at + 1, a);
    assert(s[at] == 0x12 && s[at + 5] == animation);
}

/// An animation is read as it was written.
pub proof fn law_animation_is_read(front: Seq<u8>, entity_id: i32, animation: u8, rest: Seq<u8>)
    ensures
        packet_at(
            front + (seq![0x12u8] + be32(entity_id as u32) + seq![animation]) + rest,
            front.len() as int,
        ) == Some((PacketView::Animation { entity_id, animation }, front.len() as int + 6)),
{
    lemma_own_bytes(0, entity_id as u32, 0);
    lemma_signed(0, 0, entity_id, 0);
    lemma_animation(front, be32(entity_id as u32), animation, rest);
}

/// The bytes of an inventory slot: an empty slot is the type -1 alone.
pub open spec fn slot_bytes(item: Item) -> Seq<u8> {
    if item.item_type == -1 {
        seq![0xffu8, 0xff]
    } else {
        be16(item.item_type as u16) + seq![item.count as u8] + be16(item.life as u16)
    }
}

/// The bytes of several inventory slots.
pub open spec fn slots_bytes(items: Seq<Item>) -> Seq<u8>
    decreases items.len(),
{
    if items.len() == 0 {
        seq![]
    } else {
        slots_bytes(items.drop_last()) + slot_bytes(items.last())
    }
}

/// Whether every empty slot has neither a count nor uses.
pub open spec fn plain_slots(items: Seq<Item>) -> bool {
    forall|i: int|
        0 <= i < items.len() && (#[trigger] items[i]).item_type == -1 ==> items[i].count == 0
            && items[i].life == 0
}

/// A slot is read as it was written.
proof fn lemma_slot(s: Seq<u8>, at: int, item: Item)
    requires
        0 <= at,
        at + slot_bytes(item).len() <= s.len(),
        s.subrange(at, at + slot_bytes(item).len()) == slot_bytes(item),
        item.item_type == -1 ==> item.count == 0 && item.life == 0,
    ensures
        slot_at(s, at) == Some((item, at + slot_bytes(item).len())),
{
    let part = s.subrange(at, at + slot_bytes(item).len());
    if item.item_type == -1 {
        assert(part[0] == s[at] && part[1] == s[at + 1]);
        assert(u16_in(s, at) == 0xffff);
        assert(0xffffu16 as i16 == -1) by (bit_vector);
    } else {
        law_be16(item.item_type as u16);
        law_be16(item.life as u16);
        assert(s.subrange(at, at + 2) =~= part.subrange(0, 2));
        assert(part.subrange(0, 2) =~= be16(item.item_type as u16));
        assert(s.subrange(at + 3, at + 5) =~= part.subrange(3, 5));
        assert(part.subrange(3, 5) =~= be16(item.life as u16));
        lemma_be16(s, at, item.item_type as u16);
        lemma_be16(s, at + 3, item.life as u16);
        assert(s[at + 2] == part[2]);
        lemma_signed(item.count, item.item_type, 0, 0);
        lemma_signed(0, item.life, 0, 0);
    }
}

/// Slots are read as they were written.
proof fn lemma_slots(s: Seq<u8>, at: int, items: Seq<Item>)
    requires
        0 <= at,
        at + slots_bytes(items).len() <= s.len(),
        s.subrange(at, at + slots_bytes(items).len()) == slots_bytes(items),
        plain_slots(items),
    ensures
        slots_at(s, at, items.len()) == Some((items, at + slots_bytes(items).len())),
    decreases items.len(),
{
    if items.len() > 0 {
        let front = items.drop_last();
        let (m, n) = (slots_bytes(front).len() as int, slots_bytes(items).len() as int);
        let part = s.subrange(at, at + n);
        assert(s.subrange(at, at + m) =~= part.subrange(0, m));
        assert(part.subrange(0, m) =~= slots_bytes(front));
        assert(s.subrange(at + m, at + n) =~= part.subrange(m, n));
        assert(part.subrange(m, n) =~= slot_bytes(items.last()));
        assert forall|i: int|
            0 <= i < front.len() && (#[trigger] front[i]).item_type == -1 implies front[i].count == 0
            && front[i].life == 0 by {
            assert(front[i] == items[i]);
        }
        lemma_slots(s, at, front);
        lemma_slot(s, at + m, items.last());
        assert(front.push(items.last()) =~= items);
    } else {
        assert(items =~= seq![]);
    }
}

/// The number of slots comes back from its 16 bits.
proof fn lemma_count(n: u16)
    requires
        n <= 0x7fff,
    ensures
        slot_count(n as i16) == n,
{
    assert(n <= 0x7fff ==> n as i16 == n) by (bit_vector);
}

/// The parts of an inventory packet.
proof fn lemma_inventory_parts(
    front: Seq<u8>,
    a: Seq<u8>,
    b: Seq<u8>,
    c: Seq<u8>,
    rest: Seq<u8>,
    s: Seq<u8>,
)
    requires
        a.len() == 4,
        b.len() == 2,
        s == front + (seq![0x05u8] + a + b + c) + rest,
    ensures
        s.len() == front.len() + 7 + c.len() + rest.len(),
        s[front.len() as int] == 0x05,
        u32_in(s, front.len() as int + 1) == u32_in(a, 0),
        u16_in(s, front.len() as int + 5) == u16_in(b, 0),
        s.subrange(front.len() as int + 7, front.len() as int + 7 + c.len()) == c,
        s.skip(front.len() as int + 7 + c.len()) == rest,
{
    let at = front.len() as int;
    assert(s.subrange(at + 1, at + 5) =~= a);
    assert(s.subrange(at + 5, at + 7) =~= b);
    assert(s.subrange(at + 7, at + 7 + c.len()) =~= c);
    assert(s.skip(at + 7 + c.len()) =~= rest);
    lemma_number_in_part(s, at + 1, a);
    lemma_number_in_part(s, at + 5, b);
}

/// An inventory is read as it was written.
pub proof fn law_inventory_is_read(
    front: Seq<u8>,
    inventory_type: i32,
    items: Seq<Item>,
    rest: Seq<u8>,
)
    requires
        items.len() <= 0x7fff,
        plain_slots(items),
    ensures
        packet_at(
            front + (seq![0x05u8] + be32(inventory_type as u32) + be16(items.len() as u16)
                + slots_bytes(items)) + rest,
            front.len() as int,
        ) == Some(
            (
                PacketView::Inventory { inventory_type, items },
                front.len() as int + 7 + slots_bytes(items).len(),
            ),
        ),
{
    let n = slots_bytes(items).len() as int;
    let s = front + (seq![0x05u8] + be32(inventory_type as u32) + be16(items.len() as u16)
        + slots_bytes(items)) + rest;
    let at = front.len() as int;
    lemma_own_bytes(items.len() as u16, inventory_type as u32, 0);
    lemma_signed(0, 0, inventory_type, 0);
    lemma_count(items.len() as u16);
    lemma_inventory_parts(
        front,
        be32(inventory_type as u32),
        be16(items.len() as u16),
        slots_bytes(items),
        rest,
        s,
    );
    lemma_slots(s, at + 7, items);
    assert(inventory_at(s, at + 1) is Some);
}

/// An inventory with a negative number of slots holds none.
pub proof fn law_negative_inventory_is_empty(
    front: Seq<u8>,
    inventory_type: i32,
    count: u16,
    rest: Seq<u8>,
)
    requires
        count > 0x7fff,
    ensures
        packet_at(
            front + (seq![0x05u8] + be32(inventory_type as u32) + be16(count)) + rest,
            front.len() as int,
        ) == Some((PacketView::Inventory { inventory_type, items: seq![] }, front.len() as int + 7)),
{
    let s = front + (seq![0x05u8] + be32(inventory_type as u32) + be16(count)) + rest;
    let at = front.len() as int;
    lemma_own_bytes(count, inventory_type as u32, 0);
    lemma_signed(0, 0, inventory_type, 0);
    assert(seq![0x05u8] + be32(inventory_type as u32) + be16(count) + Seq::<u8>::empty()
        =~= seq![0x05u8] + be32(inventory_type as u32) + be16(count));
    lemma_inventory_parts(
        front,
        be32(inventory_type as u32),
        be16(count),
        Seq::empty(),
        rest,
        s,
    );
    assert(count > 0x7fff ==> (count as i16) < 0) by (bit_vector);
    assert(inventory_at(s, at + 1) is Some);
}

/// If a slot more cannot be read, neither can a larger number of slots.
proof fn lemma_slots_stop(s: Seq<u8>, at: int, few: nat, many: nat)
    requires
        few <= many,
        slots_at(s, at, few) is None,
    ensures
        slots_at(s, at, many) is None,
    decreases many,
{
    if few < many {
        lemma_slots_stop(s, at, few, (many - 1) as nat);
    }
}

/// The slots before the first that cannot be read are the readable ones.
proof fn lemma_readable(s: Seq<u8>, at: int, few: nat, many: nat)
    requires
        few < many,
        slots_at(s, at, few) is Some,
        slots_at(s, at, few + 1) is None,
    ensures
        readable_slots(s, at, many) == (slots_at(s, at, few)->0).0,
    decreases many,
{
    lemma_slots_stop(s, at, few + 1, many);
    if few + 1 < many {
        lemma_readable(s, at, few, (many - 1) as nat);
    } else {
        assert(readable_slots(s, at, few) == (slots_at(s, at, few)->0).0);
    }
}

/// Of an inventory whose bytes end before the next slot is complete, the slots before it are
/// there already, and the packet is not.
pub proof fn law_started_inventory_is_read(
    front: Seq<u8>,
    inventory_type: i32,
    count: u16,
    items: Seq<Item>,
    tail: Seq<u8>,
)
    requires
        items.len() < count <= 0x7fff,
        plain_slots(items),
        tail.len() < 2 || (tail.len() < 5 && !(tail[0] == 0xff && tail[1] == 0xff)),
    ensures
        ({
            let s = front + (seq![0x05u8] + be32(inventory_type as u32) + be16(count)
                + slots_bytes(items)) + tail;
            packet_at(s, front.len() as int) is None && started_slots(s, front.len() as int)
                == items
        }),
{
    let s = front + (seq![0x05u8] + be32(inventory_type as u32) + be16(count) + slots_bytes(items))
        + tail;
    let at = front.len() as int;
    let n = slots_bytes(items).len() as int;
    lemma_own_bytes(count, inventory_type as u32, 0);
    lemma_count(count);
    lemma_inventory_parts(
        front,
        be32(inventory_type as u32),
        be16(count),
        slots_bytes(items),
        tail,
        s,
    );
    lemma_slots(s, at + 7, items);
    let next = at + 7 + n;
    if tail.len() >= 2 {
        assert(s.skip(next)[0] == s[next] && s.skip(next)[1] == s[next + 1]);
        let id = u16_in(s, next);
        assert(id != 0xffff ==> id as i16 != -1) by (bit_vector);
    }
    assert(slot_at(s, next) is None);
    assert(slots_at(s, at + 7, items.len() + 1) is None);
    lemma_slots_stop(s, at + 7, items.len() + 1, count as nat);
    lemma_readable(s, at + 7, items.len(), count as nat);
}

/// A text may be taken together with its length.
proof fn lemma_group_texts(
    head: Seq<u8>,
    a: Seq<u8>,
    b: Seq<u8>,
    c: Seq<u8>,
    d: Seq<u8>,
    e: Seq<u8>,
    f: Seq<u8>,
)
    ensures
        head + a + b + c + d + e + f == head + (a + b) + (c + d) + e + f,
{
    assert(head + a + b + c + d + e + f =~= head + (a + b) + (c + d) + e + f);
}

/// The parts of a login packet.
proof fn lemma_login_parts(
    front: Seq<u8>,
    a: Seq<u8>,
    name: Seq<u8>,
    word: Seq<u8>,
    b: Seq<u8>,
    dimension: u8,
    rest: Seq<u8>,
    s: Seq<u8>,
)
    requires
        a.len() == 4,
        b.len() == 8,
        s == front + (seq![0x01u8] + a + name + word + b + seq![dimension]) + rest,
    ensures
        ({
            let at = front.len() as int;
            let next = at + 5 + name.len();
            let last = next + word.len();
            &&& s.len() == last + 9 + rest.len()
            &&& s[at] == 1
            &&& u32_in(s, at + 1) == u32_in(a, 0)
            &&& s.subrange(at + 5, next) == name
            &&& s.subrange(next, last) == word
            &&& u64_in(s, last) == u64_in(b, 0)
            &&& s[last + 8] == dimension
        }),
{
    let at = front.len() as int;
    let next = at + 5 + name.len();
    let last = next + word.len();
    assert(s.subrange(at + 1, at + 5) =~= a);
    assert(s.subrange(at + 5, next) =~= name);
    assert(s.subrange(next, last) =~= word);
    assert(s.subrange(last, last + 8) =~= b);
    lemma_number_in_part(s, at + 1, a);
    lemma_number_in_part(s, last, b);
}

/// A login is read as it was written.
pub proof fn law_login_is_read(front: Seq<u8>, login: LoginView, rest: Seq<u8>)
    requires
        login.username.len() <= 0xffff,
        login.password.len() <= 0xffff,
    ensures
        login_at(
            front + (seq![0x01u8] + be32(login.protocol_version as u32) + be16(
                login.username.len() as u16,
            ) + login.username + be16(login.password.len() as u16) + login.password + be64(
                login.map_seed as u64,
            ) + seq![login.dimension as u8]) + rest,
            front.len() as int,
        ) == Some((login, front.len() as int + 18 + login.username.len() + login.password.len())),
{
    let name = be16(login.username.len() as u16) + login.username;
    let word = be16(login.password.len() as u16) + login.password;
    let (a, b) = (be32(login.protocol_version as u32), be64(login.map_seed as u64));
    let at = front.len() as int;
    let s = front + (seq![0x01u8] + a + be16(login.username.len() as u16) + login.username + be16(
        login.password.len() as u16,
    ) + login.password + b + seq![login.dimension as u8]) + rest;
    lemma_own_bytes(
        login.username.len() as u16,
        login.protocol_version as u32,
        login.map_seed as u64,
    );
    lemma_own_bytes(login.password.len() as u16, 0, 0);
    lemma_signed(login.dimension, 0, login.protocol_version, login.map_seed);
    lemma_group_texts(
        seq![0x01u8] + a,
        be16(login.username.len() as u16),
        login.username,
        be16(login.password.len() as u16),
        login.password,
        b,
        seq![login.dimension as u8],
    );
    lemma_login_parts(front, a, name, word, b, login.dimension as u8, rest, s);
    lemma_text(s, at + 5, login.username);
    lemma_text(s, at + 5 + name.len(), login.password);
}

/// The parts of a packet for the use of an entity.
proof fn lemma_use_of_entity(
    front: Seq<u8>,
    a: Seq<u8>,
    b: Seq<u8>,
    left_click: u8,
    rest: Seq<u8>,
)
    requires
        a.len() == 4,
        b.len() == 4,
    ensures
        use_entity_at(
            front + (seq![0x07u8] + a + b + seq![left_click]) + rest,
            front.len() as int,
        ) == Some(
            (
                UseEntityPacket {
                    user: u32_in(a, 0) as i32,
                    target: u32_in(b, 0) as i32,
                    left_click: left_click != 0,
                },
                front.len() as int + 10,
            ),
        ),
{
    let s = front + (seq![0x07u8] + a + b + seq![left_click]) + rest;
    let at = front.len() as int;
    assert(s.subrange(at + 1, at + 5) =~= a);
    assert(s.subrange(at + 5, at + 9) =~= b);
    lemma_number_in_part(s, at + 1, a);
    lemma_number_in_part(s, at + 5, b);
    assert(s[at] == 7 && s[at + 9] == left_click);
}

/// The use of an entity is read as it was written.
pub proof fn law_use_of_entity_is_read(
    front: Seq<u8>,
    user: i32,
    target: i32,
    left_click: u8,
    rest: Seq<u8>,
)
    ensures
        use_entity_at(
            front + (seq![0x07u8] + be32(user as u32) + be32(target as u32) + seq![left_click])
                + rest,
            front.len() as int,
        ) == Some(
            (UseEntityPacket { user, target, left_click: left_click != 0 }, front.len() as int + 10),
        ),
{
    lemma_own_bytes(0, user as u32, 0);
    lemma_own_bytes(0, target as u32, 0);
    lemma_signed(0, 0, user, 0);
    lemma_signed(0, 0, target, 0);
    lemma_use_of_entity(front, be32(user as u32), be32(target as u32), left_click, rest);
}

/// No shorter part of the bytes holds the packet.
pub proof fn law_cut_packet_is_incomplete(s: Seq<u8>, at: int, len: int)
    requires
        0 <= at <= len,
        packet_at(s, at) matches Some((_, end)) && len < end,
    ensures
        packet_at(s.take(len), at) is None,
{
    lemma_packet_end(s, at);
    let (part, more) = (s.take(len), s.skip(len));
    if packet_at(part, at) is Some {
        law_complete_packet_stays(part, more, at);
        lemma_packet_end(part, at);
        assert(part + more =~= s);
    }
}

/// Packets of other numbers are not read.
pub proof fn law_unknown_packet_is_not_read(s: Seq<u8>, at: int)
    requires
        0 <= at < s.len(),
        s[at] == 1 || s[at] == 4 || 6 <= s[at] <= 9 || s[at] == 0x11 || 0x13 <= s[at] < 0xff,
    ensures
        packet_at(s, at) is None,
{
}

/// Reading goes on behind each packet, until all bytes are read, a packet is not complete or
/// unknown, or a login or the use of an entity comes.
pub proof fn law_packets_are_read_in_turn(s: Seq<u8>, at: int)
    requires
        0 <= at <= s.len(),
    ensures
        at == s.len() ==> packets_from(s, at) == (Seq::<PacketView>::empty(), End::Exhausted, at),
        at < s.len() && (s[at] == 1 || s[at] == 7) ==> packets_from(s, at) == (
            Seq::<PacketView>::empty(),
            End::Foreign,
            at,
        ),
        at < s.len() && s[at] != 1 && s[at] != 7 ==> packets_from(s, at) == match packet_at(s, at) {
            Some((packet, next)) => {
                let (packets, end, position) = packets_from(s, next);
                (seq![packet] + packets, end, position)
            },
            None => (Seq::<PacketView>::empty(), End::Incomplete, at),
        },
{
    lemma_packet_end(s, at);
}

/// What is left over of an incomplete inventory is what has been started at the place where
/// reading came to an end.
pub proof fn law_started_at_the_end(s: Seq<u8>, at: int)
    ensures
        packets_from(s, at).1 == End::Incomplete ==> started_in(s, at) == started_slots(
            s,
            packets_from(s, at).2,
        ),
        packets_from(s, at).1 != End::Incomplete ==> started_in(s, at).len() == 0,
{
}

/// A packet says what its fields hold.
pub proof fn law_packet_says_its_fields(packet: ClientPacket)
    ensures
        match packet {
            ClientPacket::KeepAlive => packet@ == PacketView::KeepAlive,
            ClientPacket::Handshake { username } => packet@ == (PacketView::Handshake {
                username: username@,
            }),
            ClientPacket::Chat { message } => packet@ == (PacketView::Chat { message: message@ }),
            ClientPacket::Inventory { inventory_type, items } => packet@ == (
            PacketView::Inventory { inventory_type, items: items@ }),
            ClientPacket::Flying { on_ground } => packet@ == (PacketView::Flying { on_ground }),
            ClientPacket::Position { x, y, stance, z, on_ground } => packet@ == (
            PacketView::Position { x, y, stance, z, on_ground }),
            ClientPacket::Look { yaw, pitch, on_ground } => packet@ == (PacketView::Look {
                yaw,
                pitch,
                on_ground,
            }),
            ClientPacket::PositionAndLook { x, y, stance, z, yaw, pitch, on_ground } => packet@ == (
            PacketView::PositionAndLook { x, y, stance, z, yaw, pitch, on_ground }),
            ClientPacket::Digging { digging } => packet@ == (PacketView::Digging { digging }),
            ClientPacket::Placement { placement } => packet@ == (PacketView::Placement {
                placement,
            }),
            ClientPacket::HoldingChange { item_id } => packet@ == (PacketView::HoldingChange {
                item_id,
            }),
            ClientPacket::Animation { entity_id, animation } => packet@ == (
            PacketView::Animation { entity_id, animation }),
            ClientPacket::Disconnect { reason } => packet@ == (PacketView::Disconnect {
                reason: reason@,
            }),
        },
{
}

/// Packets say, one by one, what their fields hold.
pub proof fn law_packets_say_their_fields(packets: Seq<ClientPacket>)
    ensures
        views(packets).len() == packets.len(),
        forall|i: int| 0 <= i < packets.len() ==> #[trigger] views(packets)[i] == packets[i]@,
{
}

/// A login says what its fields hold.
pub proof fn law_login_says_its_fields(login: LoginPacket)
    ensures
        login@.protocol_version == login.protocol_version,
        login@.username == login.username@,
        login@.password == login.password@,
        login@.map_seed == login.map_seed,
        login@.dimension == login.dimension,
{
}

} // verus!
