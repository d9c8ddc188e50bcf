//! Packets that clients send. Coordinates and angles are kept as the bit patterns of the
//! floating-point numbers on the wire, texts as their bytes.
use crate::items::{no_item, Item};
use crate::wire::{get_u16, get_u32, get_u64, u16_in, u32_in, u64_in};
use vstd::prelude::*;

verus! {

/// A block that a player digs: the status tells how far the digging has come.
#[derive(Debug, Clone, Copy, PartialEq, Eq, Structural)]
pub struct PlayerDiggingPacket {
    pub status: i8,
    pub x: i32,
    pub y: i8,
    pub z: i32,
    pub face: i8,
}

/// A block that a player places.
#[derive(Debug, Clone, Copy, PartialEq, Eq, Structural)]
pub struct PlayerBlockPlacementPacket {
    pub item_id: i16,
    pub x: i32,
    pub y: i8,
    pub z: i32,
    pub direction: i8,
}

/// A packet of a client.
#[derive(Debug)]
pub enum ClientPacket {
    KeepAlive,
    Handshake { username: Vec<u8> },
    Chat { message: Vec<u8> },
    Inventory { inventory_type: i32, items: Vec<Item> },
    Flying { on_ground: bool },
    Position { x: u64, y: u64, stance: u64, z: u64, on_ground: bool },
    Look { yaw: u32, pitch: u32, on_ground: bool },
    PositionAndLook {
        x: u64,
        y: u64,
        stance: u64,
        z: u64,
        yaw: u32,
        pitch: u32,
        on_ground: bool,
    },
    Digging { digging: PlayerDiggingPacket },
    Placement { placement: PlayerBlockPlacementPacket },
    HoldingChange { item_id: i16 },
    Animation { entity_id: i32, animation: u8 },
    Disconnect { reason: Vec<u8> },
}

/// What a packet of a client says.
pub ghost enum PacketView {
    KeepAlive,
    Handshake { username: Seq<u8> },
    Chat { message: Seq<u8> },
    Inventory { inventory_type: i32, items: Seq<Item> },
    Flying { on_ground: bool },
    Position { x: u64, y: u64, stance: u64, z: u64, on_ground: bool },
    Look { yaw: u32, pitch: u32, on_ground: bool },
    PositionAndLook {
        x: u64,
        y: u64,
        stance: u64,
        z: u64,
        yaw: u32,
        pitch: u32,
        on_ground: bool,
    },
    Digging { digging: PlayerDiggingPacket },
    Placement { placement: PlayerBlockPlacementPacket },
    HoldingChange { item_id: i16 },
    Animation { entity_id: i32, animation: u8 },
    Disconnect { reason: Seq<u8> },
}

impl View for ClientPacket {
    type V = PacketView;

    open spec fn view(&self) -> PacketView {
        match *self {
            ClientPacket::KeepAlive => PacketView::KeepAlive,
            ClientPacket::Handshake { username } => PacketView::Handshake { username: username@ },
            ClientPacket::Chat { message } => PacketView::Chat { message: message@ },
            ClientPacket::Inventory { inventory_type, items } => PacketView::Inventory {
                inventory_type,
                items: items@,
            },
            ClientPacket::Flying { on_ground } => PacketView::Flying { on_ground },
            ClientPacket::Position { x, y, stance, z, on_ground } => PacketView::Position {
                x,
                y,
                stance,
                z,
                on_ground,
            },
            ClientPacket::Look { yaw, pitch, on_ground } => PacketView::Look {
                yaw,
                pitch,
                on_ground,
            },
            ClientPacket::PositionAndLook {
                x,
                y,
                stance,
                z,
                yaw,
                pitch,
                on_ground,
            } => PacketView::PositionAndLook { x, y, stance, z, yaw, pitch, on_ground },
            ClientPacket::Digging { digging } => PacketView::Digging { digging },
            ClientPacket::Placement { placement } => PacketView::Placement { placement },
            ClientPacket::HoldingChange { item_id } => PacketView::HoldingChange { item_id },
            ClientPacket::Animation { entity_id, animation } => PacketView::Animation {
                entity_id,
                animation,
            },
            ClientPacket::Disconnect { reason } => PacketView::Disconnect { reason: reason@ },
        }
    }
}

/// The text at `at`, which follows its length in two bytes, and where it ends.
pub open spec fn text_at(s: Seq<u8>, at: int) -> Option<(Seq<u8>, int)> {
    if at + 2 <= s.len() && at + 2 + u16_in(s, at) <= s.len() {
        Some((s.subrange(at + 2, at + 2 + u16_in(s, at)), at + 2 + u16_in(s, at)))
    } else {
        None
    }
}

/// The inventory slot at `at` and where it ends: the type -1 stands alone for an empty slot, any
/// other type is followed by the count and the number of uses.
pub open spec fn slot_at(s: Seq<u8>, at: int) -> Option<(Item, int)> {
    if at + 2 > s.len() {
        None
    } else if u16_in(s, at) as i16 == -1 {
        Some((no_item(), at + 2))
    } else if at + 5 > s.len() {
        None
    } else {
        Some(
            (
                Item {
                    item_type: u16_in(s, at) as i16,
                    count: s[at + 2] as i8,
                    life: u16_in(s, at + 3) as i16,
                },
                at + 5,
            ),
        )
    }
}

/// The given number of inventory slots from `at` on, and where they end.
pub open spec fn slots_at(s: Seq<u8>, at: int, count: nat) -> Option<(Seq<Item>, int)>
    decreases count,
{
    if count == 0 {
        Some((seq![], at))
    } else {
        match slots_at(s, at, (count - 1) as nat) {
            Some((items, next)) => match slot_at(s, next) {
                Some((item, end)) => Some((items.push(item), end)),
                None => None,
            },
            None => None,
        }
    }
}

/// How many slots an inventory with the given count holds: none if the count is negative.
pub open spec fn slot_count(count: i16) -> nat {
    if count < 0 {
        0
    } else {
        count as nat
    }
}

/// The inventory at `at` and where it ends: its type, the number of slots, the slots.
pub open spec fn inventory_at(s: Seq<u8>, at: int) -> Option<(PacketView, int)> {
    if at + 6 > s.len() {
        None
    } else {
        match slots_at(s, at + 6, slot_count(u16_in(s, at + 4) as i16)) {
            Some((items, end)) => Some(
                (PacketView::Inventory { inventory_type: u32_in(s, at) as i32, items }, end),
            ),
            None => None,
        }
    }
}

/// Those of the given number of inventory slots from `at` on that can be read, up to the first
/// that is not complete.
pub open spec fn readable_slots(s: Seq<u8>, at: int, count: nat) -> Seq<Item>
    decreases count,
{
    match slots_at(s, at, count) {
        Some((items, _)) => items,
        None => if count == 0 {
            seq![]
        } else {
            readable_slots(s, at, (count - 1) as nat)
        },
    }
}

/// The slots that can be read of an inventory packet at `at`, complete or not; none of any other
/// packet.
pub open spec fn started_slots(s: Seq<u8>, at: int) -> Seq<Item> {
    if at + 7 <= s.len() && s[at] == 0x05 {
        readable_slots(s, at + 7, slot_count(u16_in(s, at + 5) as i16))
    } else {
        seq![]
    }
}

/// The size of a packet, with its number, for those that all have one size.
pub open spec fn fixed_size(id: u8) -> Option<int> {
    match id {
        0x00u8 => Some(1),
        0x0au8 => Some(2),
        0x0bu8 => Some(34),
        0x0cu8 => Some(10),
        0x0du8 => Some(42),
        0x0eu8 => Some(12),
        0x0fu8 => Some(13),
        0x10u8 => Some(7),
        0x12u8 => Some(6),
        _ => None,
    }
}

/// What a packet of fixed size at `at` says.
pub open spec fn fixed_packet(s: Seq<u8>, at: int) -> PacketView {
    match s[at] {
        0x0au8 => PacketView::Flying { on_ground: s[at + 1] != 0 },
        0x0bu8 => PacketView::Position {
            x: u64_in(s, at + 1),
            y: u64_in(s, at + 9),
            stance: u64_in(s, at + 17),
            z: u64_in(s, at + 25),
            on_ground: s[at + 33] != 0,
        },
        0x0cu8 => PacketView::Look {
            yaw: u32_in(s, at + 1),
            pitch: u32_in(s, at + 5),
            on_ground: s[at + 9] != 0,
        },
        0x0du8 => PacketView::PositionAndLook {
            x: u64_in(s, at + 1),
            y: u64_in(s, at + 9),
            stance: u64_in(s, at + 17),
            z: u64_in(s, at + 25),
            yaw: u32_in(s, at + 33),
            pitch: u32_in(s, at + 37),
            on_ground: s[at + 41] != 0,
        },
        0x0eu8 => PacketView::Digging {
            digging: PlayerDiggingPacket {
                status: s[at + 1] as i8,
                x: u32_in(s, at + 2) as i32,
                y: s[at + 6] as i8,
                z: u32_in(s, at + 7) as i32,
                face: s[at + 11] as i8,
            },
        },
        0x0fu8 => PacketView::Placement {
            placement: PlayerBlockPlacementPacket {
                item_id: u16_in(s, at + 1) as i16,
                x: u32_in(s, at + 3) as i32,
                y: s[at + 7] as i8,
                z: u32_in(s, at + 8) as i32,
                direction: s[at + 12] as i8,
            },
        },
        0x10u8 => PacketView::HoldingChange { item_id: u16_in(s, at + 5) as i16 },
        0x12u8 => PacketView::Animation {
            entity_id: u32_in(s, at + 1) as i32,
            animation: s[at + 5],
        },
        _ => PacketView::KeepAlive,
    }
}

/// The packet at `at` and where it ends; `None` if it is not complete, or its number is unknown.
pub open spec fn packet_at(s: Seq<u8>, at: int) -> Option<(PacketView, int)> {
    if at >= s.len() {
        None
    } else {
        match fixed_size(s[at]) {
            Some(size) => if at + size <= s.len() {
                Some((fixed_packet(s, at), at + size))
            } else {
                None
            },
            None => match s[at] {
                0x02u8 => match text_at(s, at + 1) {
                    Some((username, end)) => Some((PacketView::Handshake { username }, end)),
                    None => None,
                },
                0x03u8 => match text_at(s, at + 1) {
                    Some((message, end)) => Some((PacketView::Chat { message }, end)),
                    None => None,
                },
                0x05u8 => inventory_at(s, at + 1),
                0xffu8 => match text_at(s, at + 1) {
                    Some((reason, end)) => Some((PacketView::Disconnect { reason }, end)),
                    None => None,
                },
                _ => None,
            },
        }
    }
}

/// A result with where it ended: what was read is what the bytes hold.
pub open spec fn reads_packet(r: Option<(ClientPacket, usize)>, s: Seq<u8>, at: int) -> bool {
    match r {
        Some((packet, end)) => packet_at(s, at) == Some((packet@, end as int)),
        None => packet_at(s, at) is None,
    }
}

/// Reads a text.
fn read_text(bytes: &[u8], at: usize) -> (r: Option<(Vec<u8>, usize)>)
    requires
        at <= bytes@.len(),
    ensures
        match r {
            Some((text, end)) => text_at(bytes@, at as int) == Some((text@, end as int)),
            None => text_at(bytes@, at as int) is None,
        },
{
    let total: usize = bytes.len();
    if total - at < 2 {
        return None;
    }
    let len: usize = get_u16(bytes, at) as usize;
    if total - at - 2 < len {
        return None;
    }
    let mut text: Vec<u8> = Vec::new();
    let from: usize = at + 2;
    for i in 0..len
        invariant
            from + len <= total,
            total == bytes@.len(),
            text@ =~= bytes@.subrange(from as int, from + i),
    {
        text.push(bytes[from + i]);
    }
    Some((text, from + len))
}

/// Reads an inventory slot.
fn read_slot(bytes: &[u8], at: usize) -> (r: Option<(Item, usize)>)
    requires
        at <= bytes@.len(),
    ensures
        match r {
            Some((item, end)) => slot_at(bytes@, at as int) == Some((item, end as int)) && end
                <= bytes@.len(),
            None => slot_at(bytes@, at as int) is None,
        },
{
    let total: usize = bytes.len();
    if total - at < 2 {
        return None;
    }
    let item_type: i16 = get_u16(bytes, at) as i16;
    if item_type == -1 {
        return Some((Item::default(), at + 2));
    }
    if total - at < 5 {
        return None;
    }
    let item: Item = Item {
        item_type,
        count: bytes[at + 2] as i8,
        life: get_u16(bytes, at + 3) as i16,
    };
    Some((item, at + 5))
}

/// If some number of slots cannot be read, neither can more.
proof fn lemma_slots_fail(s: Seq<u8>, at: int, few: nat, many: nat)
    requires
        few <= many,
        slots_at(s, at, few) is None,
    ensures
        slots_at(s, at, many) is None,
    decreases many,
{
    if few < many {
        lemma_slots_fail(s, at, few, (many - 1) as nat);
    }
}

/// If one slot more cannot be read, the readable slots are those before it.
proof fn lemma_readable_slots(s: Seq<u8>, at: int, few: nat, many: nat)
    requires
        few < many,
        slots_at(s, at, few) is Some,
        slots_at(s, at, few + 1) is None,
    ensures
        slots_at(s, at, many) is None,
        slots_at(s, at, few) matches Some((items, _)) && readable_slots(s, at, many) == items,
    decreases many,
{
    lemma_slots_fail(s, at, few + 1, many);
    if few + 1 < many {
        lemma_readable_slots(s, at, few, (many - 1) as nat);
    } else {
        assert(readable_slots(s, at, few) == (slots_at(s, at, few)->0).0);
    }
}

/// Reads inventory slots up to the first that is not complete, and where they end if all are
/// complete.
fn read_slots(bytes: &[u8], at: usize, count: i16) -> (r: (Vec<Item>, Option<usize>))
    requires
        at <= bytes@.len(),
    ensures
        r.0@ == readable_slots(bytes@, at as int, slot_count(count)),
        match r.1 {
            Some(end) => slots_at(bytes@, at as int, slot_count(count)) == Some(
                (r.0@, end as int),
            ),
            None => slots_at(bytes@, at as int, slot_count(count)) is None,
        },
{
    let mut items: Vec<Item> = Vec::new();
    let mut next: usize = at;
    let mut slot: i16 = 0;
    while slot < count
        invariant
            0 <= slot,
            slot <= count || (count < 0 && slot == 0),
            next <= bytes@.len(),
            at <= bytes@.len(),
            slots_at(bytes@, at as int, slot as nat) == Some((items@, next as int)),
        decreases count - slot,
    {
        match read_slot(bytes, next) {
            Some((item, end)) => {
                items.push(item);
                next = end;
            },
            None => {
                proof {
                    lemma_readable_slots(bytes@, at as int, slot as nat, slot_count(count));
                }
                return (items, None);
            },
        }
        slot = slot + 1;
    }
    (items, Some(next))
}

/// Reads an inventory.
fn read_inventory(bytes: &[u8], at: usize) -> (r: Option<(ClientPacket, usize)>)
    requires
        at <= bytes@.len(),
    ensures
        match r {
            Some((packet, end)) => inventory_at(bytes@, at as int) == Some((packet@, end as int)),
            None => inventory_at(bytes@, at as int) is None,
        },
{
    if bytes.len() - at < 6 {
        return None;
    }
    let inventory_type: i32 = get_u32(bytes, at) as i32;
    let (items, end): (Vec<Item>, Option<usize>) = read_slots(
        bytes,
        at + 6,
        get_u16(bytes, at + 4) as i16,
    );
    match end {
        Some(end) => Some((ClientPacket::Inventory { inventory_type, items }, end)),
        None => None,
    }
}

/// Reads the slots of an inventory packet at `at` that are there already.
fn read_started(bytes: &[u8], at: usize) -> (r: Vec<Item>)
    requires
        at <= bytes@.len(),
    ensures
        r@ == started_slots(bytes@, at as int),
{
    if bytes.len() - at >= 7 && bytes[at] == 0x05 {
        read_slots(bytes, at + 7, get_u16(bytes, at + 5) as i16).0
    } else {
        Vec::new()
    }
}

/// Reads a packet of fixed size.
fn read_fixed(bytes: &[u8], at: usize) -> (r: ClientPacket)
    requires
        at < bytes@.len(),
        fixed_size(bytes@[at as int]) is Some,
        at + fixed_size(bytes@[at as int])->0 <= bytes@.len(),
    ensures
        r@ == fixed_packet(bytes@, at as int),
{
    assert(bytes.len() == bytes@.len());
    match bytes[at] {
        0x0a => ClientPacket::Flying { on_ground: bytes[at + 1] != 0 },
        0x0b => ClientPacket::Position {
            x: get_u64(bytes, at + 1),
            y: get_u64(bytes, at + 9),
            stance: get_u64(bytes, at + 17),
            z: get_u64(bytes, at + 25),
            on_ground: bytes[at + 33] != 0,
        },
        0x0c => ClientPacket::Look {
            yaw: get_u32(bytes, at + 1),
            pitch: get_u32(bytes, at + 5),
            on_ground: bytes[at + 9] != 0,
        },
        0x0d => ClientPacket::PositionAndLook {
            x: get_u64(bytes, at + 1),
            y: get_u64(bytes, at + 9),
            stance: get_u64(bytes, at + 17),
            z: get_u64(bytes, at + 25),
            yaw: get_u32(bytes, at + 33),
            pitch: get_u32(bytes, at + 37),
            on_ground: bytes[at + 41] != 0,
        },
        0x0e => ClientPacket::Digging {
            digging: PlayerDiggingPacket {
                status: bytes[at + 1] as i8,
                x: get_u32(bytes, at + 2) as i32,
                y: bytes[at + 6] as i8,
                z: get_u32(bytes, at + 7) as i32,
                face: bytes[at + 11] as i8,
            },
        },
        0x0f => ClientPacket::Placement {
            placement: PlayerBlockPlacementPacket {
                item_id: get_u16(bytes, at + 1) as i16,
                x: get_u32(bytes, at + 3) as i32,
                y: bytes[at + 7] as i8,
                z: get_u32(bytes, at + 8) as i32,
                direction: bytes[at + 12] as i8,
            },
        },
        0x10 => ClientPacket::HoldingChange { item_id: get_u16(bytes, at + 5) as i16 },
        0x12 => ClientPacket::Animation {
            entity_id: get_u32(bytes, at + 1) as i32,
            animation: bytes[at + 5],
        },
        _ => ClientPacket::KeepAlive,
    }
}

/// Reads the packet at `at`, and where it ends. There is none if the packet is not complete, or
/// its number is unknown.
pub fn read_packet(bytes: &[u8], at: usize) -> (r: Option<(ClientPacket, usize)>)
    requires
        at <= bytes@.len(),
    ensures
        reads_packet(r, bytes@, at as int),
{
    let total: usize = bytes.len();
    if at == total {
        return None;
    }
    let id: u8 = bytes[at];
    let size: usize = match id {
        0x00 => 1,
        0x0a => 2,
        0x0b => 34,
        0x0c => 10,
        0x0d => 42,
        0x0e => 12,
        0x0f => 13,
        0x10 => 7,
        0x12 => 6,
        _ => 0,
    };
    if size > 0 {
        if total - at < size {
            return None;
        }
        return Some((read_fixed(bytes, at), at + size));
    }
    match id {
        0x02 => match read_text(bytes, at + 1) {
            Some((username, end)) => Some((ClientPacket::Handshake { username }, end)),
            None => None,
        },
        0x03 => match read_text(bytes, at + 1) {
            Some((message, end)) => Some((ClientPacket::Chat { message }, end)),
            None => None,
        },
        0x05 => read_inventory(bytes, at + 1),
        0xff => match read_text(bytes, at + 1) {
            Some((reason, end)) => Some((ClientPacket::Disconnect { reason }, end)),
            None => None,
        },
        _ => None,
    }
}

/// A player logs in.
#[derive(Debug)]
pub struct LoginPacket {
    pub protocol_version: i32,
    pub username: Vec<u8>,
    pub password: Vec<u8>,
    pub map_seed: i64,
    pub dimension: i8,
}

/// What a login says.
#[verifier::ext_equal]
pub ghost struct LoginView {
    pub protocol_version: i32,
    pub username: Seq<u8>,
    pub password: Seq<u8>,
    pub map_seed: i64,
    pub dimension: i8,
}

impl View for LoginPacket {
    type V = LoginView;

    open spec fn view(&self) -> LoginView {
        LoginView {
            protocol_version: self.protocol_version,
            username: self.username@,
            password: self.password@,
            map_seed: self.map_seed,
            dimension: self.dimension,
        }
    }
}

/// A player uses an entity.
#[derive(Debug, Clone, Copy, PartialEq, Eq, Structural)]
pub struct UseEntityPacket {
    pub user: i32,
    pub target: i32,
    pub left_click: bool,
}

/// The login at `at` and where it ends; `None` if there is none, or it is not complete.
pub open spec fn login_at(s: Seq<u8>, at: int) -> Option<(LoginView, int)> {
    if at + 5 > s.len() || s[at] != 1 {
        None
    } else {
        match text_at(s, at + 5) {
            Some((username, next)) => match text_at(s, next) {
                Some((password, last)) => if last + 9 <= s.len() {
                    Some(
                        (
                            LoginView {
                                protocol_version: u32_in(s, at + 1) as i32,
                                username,
                                password,
                                map_seed: u64_in(s, last) as i64,
                                dimension: s[last + 8] as i8,
                            },
                            last + 9,
                        ),
                    )
                } else {
                    None
                },
                None => None,
            },
            None => None,
        }
    }
}

/// The use of an entity at `at` and where it ends; `None` if there is none, or it is not
/// complete.
pub open spec fn use_entity_at(s: Seq<u8>, at: int) -> Option<(UseEntityPacket, int)> {
    if at + 10 > s.len() || s[at] != 7 {
        None
    } else {
        Some(
            (
                UseEntityPacket {
                    user: u32_in(s, at + 1) as i32,
                    target: u32_in(s, at + 5) as i32,
                    left_click: s[at + 9] != 0,
                },
                at + 10,
            ),
        )
    }
}

/// Reads the login at `at`, and where it ends. There is none if it is not complete.
pub fn read_login(bytes: &[u8], at: usize) -> (r: Option<(LoginPacket, usize)>)
    requires
        at <= bytes@.len(),
    ensures
        match r {
            Some((login, end)) => login_at(bytes@, at as int) == Some((login@, end as int)) && end
                <= bytes@.len(),
            None => login_at(bytes@, at as int) is None,
        },
{
    let total: usize = bytes.len();
    if total - at < 5 || bytes[at] != 1 {
        return None;
    }
    match read_text(bytes, at + 5) {
        Some((username, next)) => match read_text(bytes, next) {
            Some((password, last)) => {
                if total - last < 9 {
                    return None;
                }
                let login: LoginPacket = LoginPacket {
                    protocol_version: get_u32(bytes, at + 1) as i32,
                    username,
                    password,
                    map_seed: get_u64(bytes, last) as i64,
                    dimension: bytes[last + 8] as i8,
                };
                Some((login, last + 9))
            },
            None => None,
        },
        None => None,
    }
}

/// Reads the use of an entity at `at`, and where it ends. There is none if it is not complete.
pub fn read_use_entity(bytes: &[u8], at: usize) -> (r: Option<(UseEntityPacket, usize)>)
    requires
        at <= bytes@.len(),
    ensures
        match r {
            Some((used, end)) => use_entity_at(bytes@, at as int) == Some((used, end as int))
                && end <= bytes@.len(),
            None => use_entity_at(bytes@, at as int) is None,
        },
{
    if bytes.len() - at < 10 || bytes[at] != 7 {
        return None;
    }
    let used: UseEntityPacket = UseEntityPacket {
        user: get_u32(bytes, at + 1) as i32,
        target: get_u32(bytes, at + 5) as i32,
        left_click: bytes[at + 9] != 0,
    };
    Some((used, at + 10))
}

/// Why reading the packets of a buffer came to an end.
#[derive(Debug, Clone, Copy, PartialEq, Eq, Structural)]
pub enum End {
    /// All bytes were read.
    Exhausted,
    /// The next packet is not complete, or its number is unknown.
    Incomplete,
    /// The next packet is one that more than the player's state is needed for: a login, or the
    /// use of an entity.
    Foreign,
}

/// The packets of a buffer.
#[derive(Debug)]
pub struct Decoded {
    pub packets: Vec<ClientPacket>,
    pub end: End,
    /// Where reading came to an end.
    pub position: usize,
    /// If the next packet is an inventory that is not complete: those of its slots that are.
    pub started: Vec<Item>,
}

/// What some packets say.
pub open spec fn views(packets: Seq<ClientPacket>) -> Seq<PacketView> {
    packets.map_values(|p: ClientPacket| p@)
}

/// Whether a packet is a login, or the use of an entity.
pub open spec fn is_foreign(id: u8) -> bool {
    id == 1 || id == 7
}

/// The packets of `s` from `at` on, why reading them ends, and where.
pub open spec fn packets_from(s: Seq<u8>, at: int) -> (Seq<PacketView>, End, int)
    decreases s.len() - at,
{
    if at < 0 || at >= s.len() {
        (seq![], End::Exhausted, at)
    } else if is_foreign(s[at]) {
        (seq![], End::Foreign, at)
    } else {
        match packet_at(s, at) {
            None => (seq![], End::Incomplete, at),
            Some((packet, next)) => {
                proof {
                    lemma_packet_end(s, at);
                }
                let (packets, end, position) = packets_from(s, next);
                (seq![packet] + packets, end, position)
            },
        }
    }
}

/// The complete slots of the incomplete inventory that the bytes from `at` on end in; none if
/// they end in something else.
pub open spec fn started_in(s: Seq<u8>, at: int) -> Seq<Item> {
    let (_, end, position) = packets_from(s, at);
    if end == End::Incomplete {
        started_slots(s, position)
    } else {
        seq![]
    }
}

/// Slots end no earlier than they start, and within the bytes.
proof fn lemma_slots_end(s: Seq<u8>, at: int, count: nat)
    requires
        0 <= at <= s.len(),
    ensures
        slots_at(s, at, count) matches Some((_, end)) ==> at <= end <= s.len(),
    decreases count,
{
    if count > 0 {
        lemma_slots_end(s, at, (count - 1) as nat);
    }
}

/// A packet has at least one byte, and ends within the bytes.
pub proof fn lemma_packet_end(s: Seq<u8>, at: int)
    requires
        0 <= at,
    ensures
        packet_at(s, at) matches Some((_, end)) ==> at < end <= s.len(),
{
    if at + 7 <= s.len() {
        lemma_slots_end(s, at + 7, slot_count(u16_in(s, at + 5) as i16));
    }
}

/// Reads all packets of a buffer from `start` on. Several packets may have accumulated; the
/// last one may still be incomplete.
pub fn read_packets(bytes: &[u8], start: usize) -> (r: Decoded)
    requires
        start <= bytes@.len(),
    ensures
        packets_from(bytes@, start as int) == (views(r.packets@), r.end, r.position as int),
        r.started@ == started_in(bytes@, start as int),
        start <= r.position <= bytes@.len(),
{
    let mut packets: Vec<ClientPacket> = Vec::new();
    let mut position: usize = start;
    let ghost whole = packets_from(bytes@, start as int);
    assert(views(packets@) + packets_from(bytes@, start as int).0 =~= whole.0);
    while position < bytes.len()
        invariant
            start <= position <= bytes@.len(),
            whole.0 == views(packets@) + packets_from(bytes@, position as int).0,
            whole.1 == packets_from(bytes@, position as int).1,
            whole.2 == packets_from(bytes@, position as int).2,
            whole == packets_from(bytes@, start as int),
        decreases bytes@.len() - position,
    {
        let id: u8 = bytes[position];
        if id == 1 || id == 7 {
            assert(whole.0 =~= views(packets@));
            return Decoded { packets, end: End::Foreign, position, started: Vec::new() };
        }
        match read_packet(bytes, position) {
            None => {
                assert(whole.0 =~= views(packets@));
                let started: Vec<Item> = read_started(bytes, position);
                return Decoded { packets, end: End::Incomplete, position, started };
            },
            Some((packet, next)) => {
                let ghost before = packets@;
                let ghost rest = packets_from(bytes@, next as int).0;
                proof {
                    lemma_packet_end(bytes@, position as int);
                }
                packets.push(packet);
                assert(views(packets@) + rest =~= views(before) + (seq![packet@] + rest));
                position = next;
            },
        }
    }
    assert(whole.0 =~= views(packets@));
    Decoded { packets, end: End::Exhausted, position, started: Vec::new() }
}

/// Reading comes to an end no earlier than it starts.
pub proof fn lemma_reading_end(s: Seq<u8>, at: int)
    requires
        0 <= at,
    ensures
        packets_from(s, at).2 >= at,
    decreases s.len() - at,
{
    if at < s.len() && !is_foreign(s[at]) && packet_at(s, at) is Some {
        lemma_packet_end(s, at);
        lemma_reading_end(s, (packet_at(s, at)->0).1);
    }
}

/// Slots that can be read stay the same when more bytes follow.
proof fn lemma_slots_extend(s: Seq<u8>, more: Seq<u8>, at: int, count: nat)
    requires
        0 <= at <= s.len(),
        slots_at(s, at, count) is Some,
    ensures
        slots_at(s + more, at, count) == slots_at(s, at, count),
    decreases count,
{
    if count > 0 {
        lemma_slots_extend(s, more, at, (count - 1) as nat);
        lemma_slots_end(s, at, (count - 1) as nat);
    }
}

/// A packet that is complete reads the same when more bytes follow.
pub proof fn law_complete_packet_stays(s: Seq<u8>, more: Seq<u8>, at: int)
    requires
        0 <= at,
        packet_at(s, at) is Some,
    ensures
        packet_at(s + more, at) == packet_at(s, at),
{
    if s[at] == 0x05 {
        lemma_slots_extend(s, more, at + 7, slot_count(u16_in(s, at + 5) as i16));
    } else if s[at] == 0x02 || s[at] == 0x03 || s[at] == 0xff {
        let len = u16_in(s, at + 1) as int;
        assert((s + more).subrange(at + 3, at + 3 + len) =~= s.subrange(at + 3, at + 3 + len));
    }
}

/// When more bytes follow, reading goes on where it came to an end.
pub proof fn law_reading_goes_on(s: Seq<u8>, more: Seq<u8>, at: int)
    requires
        0 <= at,
    ensures
        ({
            let (packets, _, position) = packets_from(s, at);
            let (rest, end, last) = packets_from(s + more, position);
            packets_from(s + more, at) == (packets + rest, end, last)
        }),
    decreases s.len() - at,
{
    let (packets, _, position) = packets_from(s, at);
    let rest = packets_from(s + more, position).0;
    if at < s.len() && !is_foreign(s[at]) && packet_at(s, at) is Some {
        law_complete_packet_stays(s, more, at);
        lemma_packet_end(s, at);
        let (packet, next) = packet_at(s, at)->0;
        law_reading_goes_on(s, more, next);
        assert(packets + rest =~= seq![packet] + (packets_from(s, next).0 + rest));
    } else {
        assert(packets + rest =~= rest);
    }
}

/// The packets that were read from a buffer are the first ones that are read when more bytes
/// follow.
pub proof fn law_packets_read_again(s: Seq<u8>, more: Seq<u8>, at: int)
    requires
        0 <= at,
    ensures
        packets_from(s, at).0.is_prefix_of(packets_from(s + more, at).0),
{
    law_reading_goes_on(s, more, at);
    let (packets, _, position) = packets_from(s, at);
    let rest = packets_from(s + more, position).0;
    assert((packets + rest).subrange(0, packets.len() as int) =~= packets);
}

/// As many slots are read as there are.
proof fn lemma_slots_len(s: Seq<u8>, at: int, count: nat)
    ensures
        slots_at(s, at, count) matches Some((items, _)) ==> items.len() == count,
    decreases count,
{
    if count > 0 {
        lemma_slots_len(s, at, (count - 1) as nat);
    }
}

/// The readable slots are the longest part of the slots that can be read.
proof fn lemma_readable_len(s: Seq<u8>, at: int, few: nat, count: nat)
    ensures
        readable_slots(s, at, count).len() <= count,
        slots_at(s, at, readable_slots(s, at, count).len()) is Some,
        few <= count && slots_at(s, at, few) is Some ==> few <= readable_slots(s, at, count).len(),
    decreases count,
{
    lemma_slots_len(s, at, count);
    if slots_at(s, at, count) is None && count > 0 {
        lemma_readable_len(s, at, few, (count - 1) as nat);
    }
}

/// When more bytes follow, no fewer slots of an inventory can be read.
pub proof fn lemma_started_extend(s: Seq<u8>, more: Seq<u8>, at: int)
    requires
        0 <= at,
    ensures
        started_slots(s, at).len() <= started_slots(s + more, at).len(),
        started_slots(s, at).len() > 0 ==> s[at] == 0x05 && (packet_at(s + more, at) matches Some((
            packet,
            _,
        )) ==> packet is Inventory && packet->items == started_slots(s + more, at)),
{
    if at + 7 <= s.len() && s[at] == 0x05 {
        let count = slot_count(u16_in(s, at + 5) as i16);
        let few = readable_slots(s, at + 7, count).len();
        lemma_readable_len(s, at + 7, 0, count);
        lemma_slots_extend(s, more, at + 7, few);
        lemma_readable_len(s + more, at + 7, few, count);
    }
}

} // verus!
