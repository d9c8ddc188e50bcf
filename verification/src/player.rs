//! A player's state, and what the packets of a client do to it.
use crate::blocks::{dig, dug, place, placed, BlockUpdate};
use crate::client::{
    law_reading_goes_on, lemma_reading_end, lemma_started_extend, packets_from, read_packets,
    started_in, started_slots, views, ClientPacket, Decoded, End, PacketView,
    PlayerBlockPlacementPacket, PlayerDiggingPacket,
};
use crate::items::{no_item, Inventory, Item};
use crate::packets::{handshake_reply, keep_alive};
use vstd::prelude::*;

verus! {

/// A position and the direction of the look. Coordinates are the bit patterns of
/// double-precision numbers, angles those of single-precision numbers.
#[derive(Debug, Clone, Copy, PartialEq, Eq, Structural)]
pub struct PositionAndLook {
    pub x: u64,
    pub y: u64,
    pub z: u64,
    pub yaw: u32,
    pub pitch: u32,
    pub on_ground: bool,
}

/// The state of a player.
#[derive(Debug)]
pub struct State {
    pub entity_id: i32,
    pub username: String,
    pub logged_in: bool,
    /// The bit pattern of a double-precision number.
    pub stance: u64,
    pub on_ground: bool,
    pub position_and_look: PositionAndLook,
    pub inventory: Inventory,
    pub health: i8,
    pub is_crouching: bool,
}

/// What the state of a player is.
#[verifier::ext_equal]
pub ghost struct StateView {
    pub entity_id: i32,
    pub username: Seq<char>,
    pub logged_in: bool,
    pub stance: u64,
    pub on_ground: bool,
    pub position_and_look: PositionAndLook,
    pub main: Seq<Item>,
    pub equipped: Seq<Item>,
    pub crafting: Seq<Item>,
    pub health: i8,
    pub is_crouching: bool,
}

impl View for State {
    type V = StateView;

    open spec fn view(&self) -> StateView {
        StateView {
            entity_id: self.entity_id,
            username: self.username@,
            logged_in: self.logged_in,
            stance: self.stance,
            on_ground: self.on_ground,
            position_and_look: self.position_and_look,
            main: self.inventory.main@,
            equipped: self.inventory.equipped@,
            crafting: self.inventory.crafting@,
            health: self.health,
            is_crouching: self.is_crouching,
        }
    }
}

/// The position of a player that has not moved yet: the origin, on the ground.
pub open spec fn origin() -> PositionAndLook {
    PositionAndLook { x: 0, y: 0, z: 0, yaw: 0, pitch: 0, on_ground: true }
}

/// What has to be done after a packet.
#[derive(Debug)]
pub enum Effect {
    Nothing,
    /// Bytes have to be sent back.
    Reply(Vec<u8>),
    /// A chat message has to be passed on.
    Chat(Vec<u8>),
    /// The other players have to learn of the new position.
    Moved(i32, PositionAndLook),
    /// A block has changed.
    Block(BlockUpdate),
    /// An entity moves in some way that the other players have to see.
    Animation(i32, u8),
    /// The player leaves.
    Disconnected(i32),
}

/// What has to be done after a packet.
pub ghost enum EffectView {
    Nothing,
    Reply(Seq<u8>),
    Chat(Seq<u8>),
    Moved(i32, PositionAndLook),
    Block(BlockUpdate),
    Animation(i32, u8),
    Disconnected(i32),
}

impl View for Effect {
    type V = EffectView;

    open spec fn view(&self) -> EffectView {
        match *self {
            Effect::Nothing => EffectView::Nothing,
            Effect::Reply(bytes) => EffectView::Reply(bytes@),
            Effect::Chat(message) => EffectView::Chat(message@),
            Effect::Moved(entity_id, position) => EffectView::Moved(entity_id, position),
            Effect::Block(update) => EffectView::Block(update),
            Effect::Animation(entity_id, animation) => EffectView::Animation(entity_id, animation),
            Effect::Disconnected(entity_id) => EffectView::Disconnected(entity_id),
        }
    }
}

/// Slots with the first ones replaced.
pub open spec fn with_slots(main: Seq<Item>, items: Seq<Item>) -> Seq<Item> {
    Seq::new(
        main.len(),
        |i: int|
            if i < items.len() {
                items[i]
            } else {
                main[i]
            },
    )
}

/// The state after a move, and the news of it.
pub open spec fn moved(state: StateView, position: PositionAndLook) -> (StateView, EffectView) {
    (
        StateView { position_and_look: position, ..state },
        EffectView::Moved(state.entity_id, position),
    )
}

/// The effect of a change of a block, if there is one.
pub open spec fn block_effect(update: Option<BlockUpdate>) -> EffectView {
    match update {
        Some(update) => EffectView::Block(update),
        None => EffectView::Nothing,
    }
}

/// The state after a packet, and what has to be done.
pub open spec fn after(state: StateView, packet: PacketView) -> (StateView, EffectView) {
    let at = state.position_and_look;
    match packet {
        PacketView::KeepAlive => (state, EffectView::Reply(seq![0u8])),
        PacketView::Handshake { username: _ } => (
            state,
            EffectView::Reply(seq![2u8, 0, 1, 0x2d]),
        ),
        PacketView::Chat { message } => (state, EffectView::Chat(message)),
        PacketView::Inventory { inventory_type: _, items } => (
            StateView { main: with_slots(state.main, items), ..state },
            EffectView::Nothing,
        ),
        PacketView::Flying { on_ground } => moved(state, PositionAndLook { on_ground, ..at }),
        PacketView::Position { x, y, stance: _, z, on_ground } => moved(
            state,
            PositionAndLook { x, y, z, on_ground, ..at },
        ),
        PacketView::Look { yaw, pitch, on_ground } => moved(
            state,
            PositionAndLook { yaw, pitch, on_ground, ..at },
        ),
        PacketView::PositionAndLook { x, y, stance: _, z, yaw, pitch, on_ground } => moved(
            state,
            PositionAndLook { x, y, z, yaw, pitch, on_ground },
        ),
        PacketView::Digging { digging } => (state, block_effect(dug(digging))),
        PacketView::Placement { placement } => (state, block_effect(placed(placement))),
        PacketView::HoldingChange { item_id: _ } => (state, EffectView::Nothing),
        PacketView::Animation { entity_id, animation } => (
            state,
            EffectView::Animation(entity_id, animation),
        ),
        PacketView::Disconnect { reason: _ } => (
            state,
            EffectView::Disconnected(state.entity_id),
        ),
    }
}

/// The state after several packets, and what has to be done after each.
pub open spec fn after_all(state: StateView, packets: Seq<PacketView>) -> (
    StateView,
    Seq<EffectView>,
)
    decreases packets.len(),
{
    if packets.len() == 0 {
        (state, seq![])
    } else {
        let (before, effects) = after_all(state, packets.drop_last());
        let (now, effect) = after(before, packets.last());
        (now, effects.push(effect))
    }
}

/// The state after a buffer of packets from `at` on, and what has to be done after each. Of an
/// inventory that is not complete the slots that are there are taken over already.
pub open spec fn after_buffer(state: StateView, s: Seq<u8>, at: int) -> (
    StateView,
    Seq<EffectView>,
) {
    let (now, effects) = after_all(state, packets_from(s, at).0);
    (StateView { main: with_slots(now.main, started_in(s, at)), ..now }, effects)
}

/// Whether a packet has no more items than a player has slots.
pub open spec fn in_slots(packet: PacketView) -> bool {
    packet matches PacketView::Inventory { items, .. } ==> items.len() <= 36
}

/// Whether no packet has more items than a player has slots.
pub open spec fn all_in_slots(packets: Seq<PacketView>) -> bool {
    forall|i: int| 0 <= i < packets.len() ==> in_slots(#[trigger] packets[i])
}

/// What has to be done after several packets.
pub open spec fn effect_views(effects: Seq<Effect>) -> Seq<EffectView> {
    effects.map_values(|e: Effect| e@)
}

/// Finds out whether no packet has more items than a player has slots.
fn check_slots(packets: &Vec<ClientPacket>) -> (r: bool)
    ensures
        r == all_in_slots(views(packets@)),
{
    for i in 0..packets.len()
        invariant
            forall|j: int| 0 <= j < i ==> in_slots(#[trigger] views(packets@)[j]),
    {
        assert(views(packets@)[i as int] == packets@[i as int]@);
        if let ClientPacket::Inventory { inventory_type: _, items } = &packets[i] {
            if items.len() > 36 {
                return false;
            }
        }
    }
    true
}

/// What came of the packets of a buffer.
#[derive(Debug)]
pub struct Parsed {
    /// What has to be done, packet by packet.
    pub effects: Vec<Effect>,
    /// Why reading the packets came to an end.
    pub end: End,
    /// Where reading came to an end.
    pub position: usize,
}

impl State {
    /// The state of a player that has just connected.
    pub fn new() -> (r: State)
        ensures
            r@ == (StateView {
                entity_id: 0,
                username: seq![],
                logged_in: false,
                stance: 0,
                on_ground: true,
                position_and_look: origin(),
                main: Seq::new(36, |i: int| no_item()),
                equipped: Seq::new(4, |i: int| no_item()),
                crafting: Seq::new(4, |i: int| no_item()),
                health: 20,
                is_crouching: false,
            }),
            r.entity_id == 0,
            r.username@.len() == 0,
            !r.logged_in,
            r.stance == 0,
            r.on_ground,
            r.position_and_look == (PositionAndLook {
                x: 0,
                y: 0,
                z: 0,
                yaw: 0,
                pitch: 0,
                on_ground: true,
            }),
            r.health == 20,
            !r.is_crouching,
            forall|i: int|
                0 <= i < 36 ==> #[trigger] r.inventory.main@[i] == (Item {
                    item_type: (-1) as i16,
                    count: 0,
                    life: 0,
                }),
    {
        State {
            entity_id: 0,
            username: String::new(),
            logged_in: false,
            stance: 0,
            on_ground: true,
            position_and_look: PositionAndLook {
                x: 0,
                y: 0,
                z: 0,
                yaw: 0,
                pitch: 0,
                on_ground: true,
            },
            inventory: Inventory::empty(),
            health: 20,
            is_crouching: false,
        }
    }

    /// Moves the player.
    fn move_to(&mut self, position: PositionAndLook) -> (r: Effect)
        ensures
            moved(old(self)@, position) == (final(self)@, r@),
    {
        self.position_and_look = position;
        Effect::Moved(self.entity_id, position)
    }

    /// Replaces the first slots of the inventory.
    fn set_slots(&mut self, items: &Vec<Item>)
        requires
            items@.len() <= 36,
        ensures
            final(self)@ == (StateView {
                main: with_slots(old(self)@.main, items@),
                ..old(self)@
            }),
    {
        let mut main: [Item; 36] = self.inventory.main;
        let ghost before = main@;
        for i in 0..items.len()
            invariant
                items@.len() <= 36,
                before.len() == 36,
                main@ =~= with_slots(before, items@.take(i as int)),
        {
            main[i] = items[i];
        }
        assert(items@.take(items@.len() as int) =~= items@);
        self.inventory.main = main;
    }

    /// Takes a packet into account. An inventory must not have more items than there are slots.
    pub fn apply(&mut self, packet: ClientPacket) -> (r: Effect)
        requires
            in_slots(packet@),
        ensures
            after(old(self)@, packet@) == (final(self)@, r@),
            final(self).entity_id == old(self).entity_id,
            final(self).username@ == old(self).username@,
            final(self).logged_in == old(self).logged_in,
            final(self).stance == old(self).stance,
            final(self).on_ground == old(self).on_ground,
            final(self).health == old(self).health,
            final(self).is_crouching == old(self).is_crouching,
            final(self).inventory.equipped@ == old(self).inventory.equipped@,
            final(self).inventory.crafting@ == old(self).inventory.crafting@,
            forall|i: int|
                0 <= i < 36 ==> #[trigger] final(self).inventory.main@[i] == match packet {
                    ClientPacket::Inventory { inventory_type: _, items } => if i < items@.len() {
                        items@[i]
                    } else {
                        old(self).inventory.main@[i]
                    },
                    _ => old(self).inventory.main@[i],
                },
            final(self).position_and_look == match packet {
                ClientPacket::Flying { on_ground } => PositionAndLook {
                    on_ground,
                    ..old(self).position_and_look
                },
                ClientPacket::Position { x, y, stance: _, z, on_ground } => PositionAndLook {
                    x,
                    y,
                    z,
                    yaw: old(self).position_and_look.yaw,
                    pitch: old(self).position_and_look.pitch,
                    on_ground,
                },
                ClientPacket::Look { yaw, pitch, on_ground } => PositionAndLook {
                    x: old(self).position_and_look.x,
                    y: old(self).position_and_look.y,
                    z: old(self).position_and_look.z,
                    yaw,
                    pitch,
                    on_ground,
                },
                ClientPacket::PositionAndLook { x, y, stance: _, z, yaw, pitch, on_ground } => {
                    PositionAndLook { x, y, z, yaw, pitch, on_ground }
                },
                _ => old(self).position_and_look,
            },
            match packet {
                ClientPacket::KeepAlive => r matches Effect::Reply(bytes) && bytes@ == seq![0u8],
                ClientPacket::Handshake { username: _ } => r matches Effect::Reply(bytes) && bytes@
                    == seq![2u8, 0, 1, 0x2d],
                ClientPacket::Chat { message } => r matches Effect::Chat(passed_on) && passed_on@
                    == message@,
                ClientPacket::Flying { .. } | ClientPacket::Position { .. } | ClientPacket::Look {
                    ..
                } | ClientPacket::PositionAndLook { .. } => r == Effect::Moved(
                    old(self).entity_id,
                    final(self).position_and_look,
                ),
                ClientPacket::Digging { digging } => if digging.status == 3 {
                    r == Effect::Block(BlockUpdate::Break((digging.x, digging.y, digging.z)))
                } else {
                    r == Effect::Nothing
                },
                ClientPacket::Placement { placement } => if placement.item_id == -1 {
                    r == Effect::Nothing
                } else {
                    r == Effect::Block(BlockUpdate::Place(placement))
                },
                ClientPacket::Animation { entity_id, animation } => r == Effect::Animation(
                    entity_id,
                    animation,
                ),
                ClientPacket::Disconnect { reason: _ } => r == Effect::Disconnected(
                    old(self).entity_id,
                ),
                ClientPacket::Inventory { .. } | ClientPacket::HoldingChange { .. } => r
                    == Effect::Nothing,
            },
    {
        let at: PositionAndLook = self.position_and_look;
        match packet {
            ClientPacket::KeepAlive => Effect::Reply(keep_alive()),
            ClientPacket::Handshake { username: _ } => Effect::Reply(handshake_reply()),
            ClientPacket::Chat { message } => Effect::Chat(message),
            ClientPacket::Inventory { inventory_type: _, items } => {
                self.set_slots(&items);
                Effect::Nothing
            },
            ClientPacket::Flying { on_ground } => self.move_to(
                PositionAndLook { on_ground, ..at },
            ),
            ClientPacket::Position { x, y, stance: _, z, on_ground } => self.move_to(
                PositionAndLook { x, y, z, on_ground, ..at },
            ),
            ClientPacket::Look { yaw, pitch, on_ground } => self.move_to(
                PositionAndLook { yaw, pitch, on_ground, ..at },
            ),
            ClientPacket::PositionAndLook { x, y, stance: _, z, yaw, pitch, on_ground } => {
                self.move_to(PositionAndLook { x, y, z, yaw, pitch, on_ground })
            },
            ClientPacket::Digging { digging } => match dig(&digging) {
                Some(update) => Effect::Block(update),
                None => Effect::Nothing,
            },
            ClientPacket::Placement { placement } => match place(&placement) {
                Some(update) => Effect::Block(update),
                None => Effect::Nothing,
            },
            ClientPacket::HoldingChange { item_id: _ } => Effect::Nothing,
            ClientPacket::Animation { entity_id, animation } => Effect::Animation(
                entity_id,
                animation,
            ),
            ClientPacket::Disconnect { reason: _ } => Effect::Disconnected(self.entity_id),
        }
    }
}

impl State {
    /// Takes several packets into account.
    pub fn apply_all(&mut self, packets: Vec<ClientPacket>) -> (r: Vec<Effect>)
        requires
            all_in_slots(views(packets@)),
        ensures
            after_all(old(self)@, views(packets@)) == (final(self)@, effect_views(r@)),
            r@.len() == packets@.len(),
            final(self).entity_id == old(self).entity_id,
            final(self).health == old(self).health,
    {
        let ghost said = views(packets@);
        let mut effects: Vec<Effect> = Vec::new();
        assert(said.take(0) =~= seq![]);
        assert(effect_views(effects@) =~= seq![]);
        for packet in it: packets
            invariant
                it.seq() == packets@,
                said == views(packets@),
                all_in_slots(said),
                effects@.len() == it.index(),
                self.entity_id == old(self).entity_id,
                self.health == old(self).health,
                after_all(old(self)@, said.take(it.index() as int)) == (
                    self@,
                    effect_views(effects@),
                ),
        {
            let ghost before = effects@;
            let ghost k = it.index() as int;
            assert(said[k] == packet@);
            let effect: Effect = self.apply(packet);
            effects.push(effect);
            assert(effect_views(effects@) =~= effect_views(before).push(effect@));
            assert(said.take(k + 1).drop_last() =~= said.take(k));
        }
        assert(said.take(said.len() as int) =~= said);
        effects
    }

    /// Reads the packets of a buffer from `start` on and takes all of them into account, and of an
    /// incomplete inventory at the end the slots that are there. If there are more items than the
    /// player has slots, nothing is done.
    pub fn parse_packets(&mut self, bytes: &[u8], start: usize) -> (r: Option<Parsed>)
        requires
            start <= bytes@.len(),
        ensures
            ({
                let (packets, end, position) = packets_from(bytes@, start as int);
                let fits = all_in_slots(packets) && started_in(bytes@, start as int).len() <= 36;
                match r {
                    Some(parsed) => {
                        &&& fits
                        &&& after_buffer(old(self)@, bytes@, start as int) == (
                            final(self)@,
                            effect_views(parsed.effects@),
                        )
                        &&& parsed.end == end
                        &&& parsed.position == position
                        &&& start <= parsed.position <= bytes@.len()
                    },
                    None => !fits && *final(self) == *old(self),
                }
            }),
    {
        let decoded: Decoded = read_packets(bytes, start);
        let end: End = decoded.end;
        let position: usize = decoded.position;
        if check_slots(&decoded.packets) && decoded.started.len() <= 36 {
            let effects: Vec<Effect> = self.apply_all(decoded.packets);
            self.set_slots(&decoded.started);
            Some(Parsed { effects, end, position })
        } else {
            None
        }
    }
}

/// Watches over a player's falls.
#[derive(Debug, Clone, Copy, PartialEq, Eq, Structural)]
pub struct FallWatch {
    /// Where the player last stood on the ground.
    pub last_ground: PositionAndLook,
    /// Whether the player has ever been in the air.
    pub was_airborne: bool,
}

impl FallWatch {
    /// Starts at a player's position.
    pub fn new(position: PositionAndLook) -> (r: FallWatch)
        ensures
            r == (FallWatch { last_ground: position, was_airborne: false }),
    {
        FallWatch { last_ground: position, was_airborne: false }
    }

    /// Takes a player's position into account, and returns whether the player has landed and is
    /// hurt. `far` tells whether the position is more than three blocks lower than the last
    /// ground.
    pub fn observe(&mut self, position: PositionAndLook, far: bool) -> (hurt: bool)
        ensures
            hurt == (position.on_ground && old(self).was_airborne && far),
            *final(self) == if position.on_ground {
                FallWatch { last_ground: position, ..*old(self) }
            } else {
                FallWatch { was_airborne: true, ..*old(self) }
            },
    {
        if position.on_ground {
            self.last_ground = position;
            self.was_airborne && far
        } else {
            self.was_airborne = true;
            false
        }
    }
}

/// No packet changes who the player is, or their health.
pub proof fn law_packets_keep_identity(state: StateView, packet: PacketView)
    ensures
        after(state, packet).0.entity_id == state.entity_id,
        after(state, packet).0.username == state.username,
        after(state, packet).0.logged_in == state.logged_in,
        after(state, packet).0.health == state.health,
{
}

/// The news of a move carries the position that the player has after it.
pub proof fn law_news_of_move_is_current(state: StateView, packet: PacketView)
    ensures
        after(state, packet).1 matches EffectView::Moved(entity_id, position) ==> entity_id
            == state.entity_id && position == after(state, packet).0.position_and_look,
{
}

/// Whatever the state was before, a part of it is afterwards either what the last packet that
/// speaks of it says, or as it was.
proof fn lemma_last_word(s: StateView, t: StateView, packets: Seq<PacketView>)
    requires
        s.main.len() == t.main.len(),
    ensures
        ({
            let (s2, t2) = (after_all(s, packets).0, after_all(t, packets).0);
            let (sp, tp) = (s.position_and_look, t.position_and_look);
            let (sq, tq) = (s2.position_and_look, t2.position_and_look);
            &&& s2 == StateView { position_and_look: sq, main: s2.main, ..s }
            &&& t2 == StateView { position_and_look: tq, main: t2.main, ..t }
            &&& (sq.x, sq.y, sq.z) == (tq.x, tq.y, tq.z) || ((sq.x, sq.y, sq.z) == (
                sp.x,
                sp.y,
                sp.z,
            ) && (tq.x, tq.y, tq.z) == (tp.x, tp.y, tp.z))
            &&& (sq.yaw, sq.pitch) == (tq.yaw, tq.pitch) || ((sq.yaw, sq.pitch) == (
                sp.yaw,
                sp.pitch,
            ) && (tq.yaw, tq.pitch) == (tp.yaw, tp.pitch))
            &&& sq.on_ground == tq.on_ground || (sq.on_ground == sp.on_ground && tq.on_ground
                == tp.on_ground)
            &&& s2.main.len() == s.main.len()
            &&& t2.main.len() == t.main.len()
            &&& forall|i: int|
                #![trigger s2.main[i]]
                #![trigger t2.main[i]]
                0 <= i < s.main.len() ==> s2.main[i] == t2.main[i] || (s2.main[i] == s.main[i]
                    && t2.main[i] == t.main[i])
        }),
    decreases packets.len(),
{
    if packets.len() > 0 {
        lemma_last_word(s, t, packets.drop_last());
    }
}

/// Packets that follow others are taken into account after them.
proof fn lemma_after_all_appended(
    state: StateView,
    packets: Seq<PacketView>,
    more: Seq<PacketView>,
)
    ensures
        after_all(state, packets + more).0 == after_all(after_all(state, packets).0, more).0,
    decreases more.len(),
{
    if more.len() == 0 {
        assert(packets + more =~= packets);
    } else {
        lemma_after_all_appended(state, packets, more.drop_last());
        assert((packets + more).drop_last() =~= packets + more.drop_last());
    }
}

/// Taking some packets into account once more before going on with others leads to the same
/// state.
pub proof fn law_packets_processed_again(
    state: StateView,
    packets: Seq<PacketView>,
    more: Seq<PacketView>,
)
    ensures
        after_all(after_all(state, packets).0, packets + more).0 == after_all(
            state,
            packets + more,
        ).0,
{
    let once = after_all(state, packets).0;
    lemma_after_all_appended(state, packets, more);
    lemma_after_all_appended(once, packets, more);
    lemma_last_word(state, state, packets);
    lemma_last_word(state, once, packets);
    assert(after_all(once, packets).0.main =~= once.main);
}

/// The first slots may have been replaced already when some packets are taken into account once
/// more and then at least as many slots are replaced.
proof fn lemma_slots_replaced_again(
    state: StateView,
    packets: Seq<PacketView>,
    few: Seq<Item>,
    many: Seq<Item>,
)
    requires
        few.len() <= many.len(),
    ensures
        ({
            let once = after_all(state, packets).0;
            let started = StateView { main: with_slots(once.main, few), ..once };
            let again = after_all(started, packets).0;
            (StateView { main: with_slots(again.main, many), ..again }) == (StateView {
                main: with_slots(once.main, many),
                ..once
            })
        }),
{
    let once = after_all(state, packets).0;
    let started = StateView { main: with_slots(once.main, few), ..once };
    let again = after_all(started, packets).0;
    lemma_last_word(state, state, packets);
    lemma_last_word(state, started, packets);
    assert(with_slots(again.main, many) =~= with_slots(once.main, many));
}

/// As long as the last packet of a buffer is incomplete, the whole buffer is read again when more
/// bytes have come. That the first packets, and the first slots of an incomplete inventory, are
/// then taken into account twice does not change the state that comes of it.
pub proof fn law_buffer_processed_again(state: StateView, s: Seq<u8>, more: Seq<u8>, at: int)
    requires
        0 <= at,
    ensures
        after_buffer(after_buffer(state, s, at).0, s + more, at).0 == after_buffer(
            state,
            s + more,
            at,
        ).0,
{
    let (first, end, position) = packets_from(s, at);
    let (rest, rest_end, last) = packets_from(s + more, position);
    let few = started_in(s, at);
    law_reading_goes_on(s, more, at);
    let once = after_all(state, first).0;
    let started = after_buffer(state, s, at).0;
    lemma_after_all_appended(state, first, rest);
    lemma_after_all_appended(started, first, rest);
    if few.len() == 0 {
        assert(with_slots(once.main, few) =~= once.main);
        law_packets_processed_again(state, first, rest);
    } else {
        lemma_reading_end(s, at);
        lemma_started_extend(s, more, position);
        let many = started_slots(s + more, position);
        lemma_slots_replaced_again(state, first, few, many);
        let again = after_all(started, first).0;
        if rest.len() > 0 {
            assert(rest[0] is Inventory && rest[0]->items == many);
            let (head, tail) = (seq![rest[0]], rest.drop_first());
            assert(rest =~= head + tail);
            assert(head.drop_last() =~= seq![]);
            lemma_after_all_appended(once, head, tail);
            lemma_after_all_appended(again, head, tail);
            assert(after_all(once, head.drop_last()).0 == once);
            assert(after_all(again, head.drop_last()).0 == again);
        }
    }
}

/// Processing the same packet once more leaves the state as it is after the first time.
pub proof fn law_packet_twice(state: StateView, packet: PacketView)
    ensures
        after(after(state, packet).0, packet).0 == after(state, packet).0,
        after(after(state, packet).0, packet).1 == after(state, packet).1,
{
    if let PacketView::Inventory { inventory_type, items } = packet {
        assert(with_slots(with_slots(state.main, items), items) =~= with_slots(
            state.main,
            items,
        ));
    }
}

/// A move takes over exactly what the packet says of the position, keeps the rest of it, and is
/// passed on with the player's number.
pub proof fn law_moves_take_over_what_is_said(
    state: StateView,
    x: u64,
    y: u64,
    stance: u64,
    z: u64,
    yaw: u32,
    pitch: u32,
    on_ground: bool,
)
    ensures
        ({
            let (now, effect) = after(state, PacketView::Position { x, y, stance, z, on_ground });
            let (at, was) = (now.position_and_look, state.position_and_look);
            &&& at.x == x && at.y == y && at.z == z && at.on_ground == on_ground
            &&& at.yaw == was.yaw && at.pitch == was.pitch
            &&& effect == EffectView::Moved(state.entity_id, at)
            &&& now.main == state.main && now.stance == state.stance
        }),
        ({
            let (now, effect) = after(state, PacketView::Look { yaw, pitch, on_ground });
            let (at, was) = (now.position_and_look, state.position_and_look);
            &&& at.yaw == yaw && at.pitch == pitch && at.on_ground == on_ground
            &&& at.x == was.x && at.y == was.y && at.z == was.z
            &&& effect == EffectView::Moved(state.entity_id, at)
            &&& now.main == state.main
        }),
        ({
            let (now, effect) = after(
                state,
                PacketView::PositionAndLook { x, y, stance, z, yaw, pitch, on_ground },
            );
            let at = now.position_and_look;
            &&& at.x == x && at.y == y && at.z == z
            &&& at.yaw == yaw && at.pitch == pitch && at.on_ground == on_ground
            &&& effect == EffectView::Moved(state.entity_id, at)
            &&& now.main == state.main
        }),
        ({
            let (now, effect) = after(state, PacketView::Flying { on_ground });
            let (at, was) = (now.position_and_look, state.position_and_look);
            &&& at.on_ground == on_ground
            &&& at.x == was.x && at.y == was.y && at.z == was.z
            &&& at.yaw == was.yaw && at.pitch == was.pitch
            &&& effect == EffectView::Moved(state.entity_id, at)
            &&& now.main == state.main
        }),
{
}

/// An inventory fills the first slots with its items, in order, and leaves the others.
pub proof fn law_inventory_fills_slots(
    state: StateView,
    inventory_type: i32,
    items: Seq<Item>,
    i: int,
)
    requires
        0 <= i < state.main.len(),
    ensures
        ({
            let (now, effect) = after(state, PacketView::Inventory { inventory_type, items });
            &&& now.main.len() == state.main.len()
            &&& i < items.len() ==> now.main[i] == items[i]
            &&& i >= items.len() ==> now.main[i] == state.main[i]
            &&& now.position_and_look == state.position_and_look
            &&& effect == EffectView::Nothing
        }),
{
}

/// Packets that are no moves and no inventories leave the state as it is, and ask for what they
/// are about.
pub proof fn law_other_packets_ask(
    state: StateView,
    text: Seq<u8>,
    entity_id: i32,
    animation: u8,
    item_id: i16,
)
    ensures
        after(state, PacketView::KeepAlive) == (state, EffectView::Reply(seq![0u8])),
        after(state, PacketView::Handshake { username: text }) == (
            state,
            EffectView::Reply(seq![2u8, 0, 1, 0x2d]),
        ),
        after(state, PacketView::Chat { message: text }) == (state, EffectView::Chat(text)),
        after(state, PacketView::Animation { entity_id, animation }) == (
            state,
            EffectView::Animation(entity_id, animation),
        ),
        after(state, PacketView::HoldingChange { item_id }) == (state, EffectView::Nothing),
        after(state, PacketView::Disconnect { reason: text }) == (
            state,
            EffectView::Disconnected(state.entity_id),
        ),
{
}

/// Only finished digging breaks a block, the one that is dug; every placement with an item in
/// hand places it. The state stays.
pub proof fn law_digging_and_placing(
    state: StateView,
    digging: PlayerDiggingPacket,
    placement: PlayerBlockPlacementPacket,
)
    ensures
        after(state, PacketView::Digging { digging }) == (
            state,
            if digging.status == 3 {
                EffectView::Block(BlockUpdate::Break((digging.x, digging.y, digging.z)))
            } else {
                EffectView::Nothing
            },
        ),
        after(state, PacketView::Placement { placement }) == (
            state,
            if placement.item_id == -1 {
                EffectView::Nothing
            } else {
                EffectView::Block(BlockUpdate::Place(placement))
            },
        ),
{
}

/// Packets are taken into account one after the other, each on the state that the ones before it
/// have led to, and each asks for one thing.
pub proof fn law_packets_are_applied_in_turn(
    state: StateView,
    packets: Seq<PacketView>,
    packet: PacketView,
)
    ensures
        after_all(state, Seq::empty()) == (state, Seq::<EffectView>::empty()),
        ({
            let (before, effects) = after_all(state, packets);
            let (now, effect) = after(before, packet);
            after_all(state, packets.push(packet)) == (now, effects.push(effect))
        }),
        after_all(state, packets).1.len() == packets.len(),
    decreases packets.len(),
{
    assert(packets.push(packet).drop_last() =~= packets);
    if packets.len() > 0 {
        law_packets_are_applied_in_turn(state, packets.drop_last(), packets.last());
        assert(packets.drop_last().push(packets.last()) =~= packets);
    }
}

/// A buffer does what its packets do; of an incomplete inventory at its end the slots that are
/// there are filled besides, and nothing else changes.
pub proof fn law_buffer_does_what_its_packets_do(state: StateView, s: Seq<u8>, at: int, i: int)
    requires
        0 <= i < after_all(state, packets_from(s, at).0).0.main.len(),
    ensures
        ({
            let (now, effects) = after_buffer(state, s, at);
            let (then, asked) = after_all(state, packets_from(s, at).0);
            let started = started_in(s, at);
            &&& effects == asked
            &&& now.main.len() == then.main.len()
            &&& i < started.len() ==> now.main[i] == started[i]
            &&& i >= started.len() ==> now.main[i] == then.main[i]
            &&& now.position_and_look == then.position_and_look
            &&& now.entity_id == then.entity_id && now.username == then.username
            &&& now.logged_in == then.logged_in && now.stance == then.stance
            &&& now.on_ground == then.on_ground && now.health == then.health
            &&& now.equipped == then.equipped && now.crafting == then.crafting
            &&& now.is_crouching == then.is_crouching
        }),
{
}

/// What is to be done is what the effects hold, one by one.
pub proof fn law_effects_say_their_fields(effects: Seq<Effect>, i: int)
    requires
        0 <= i < effects.len(),
    ensures
        effect_views(effects).len() == effects.len(),
        match effects[i] {
            Effect::Nothing => effect_views(effects)[i] == EffectView::Nothing,
            Effect::Reply(bytes) => effect_views(effects)[i] == EffectView::Reply(bytes@),
            Effect::Chat(message) => effect_views(effects)[i] == EffectView::Chat(message@),
            Effect::Moved(eid, position) => effect_views(effects)[i] == EffectView::Moved(
                eid,
                position,
            ),
            Effect::Block(update) => effect_views(effects)[i] == EffectView::Block(update),
            Effect::Animation(eid, animation) => effect_views(effects)[i]
                == EffectView::Animation(eid, animation),
            Effect::Disconnected(eid) => effect_views(effects)[i] == EffectView::Disconnected(eid),
        },
{
}

/// The view of a state holds its fields.
pub proof fn law_state_says_its_fields(state: State)
    ensures
        state@.entity_id == state.entity_id,
        state@.username == state.username@,
        state@.logged_in == state.logged_in,
        state@.stance == state.stance,
        state@.on_ground == state.on_ground,
        state@.position_and_look == state.position_and_look,
        state@.main == state.inventory.main@,
        state@.equipped == state.inventory.equipped@,
        state@.crafting == state.inventory.crafting@,
        state@.health == state.health,
        state@.is_crouching == state.is_crouching,
{
}

/// Exactly the inventories with more than 36 items are too large for a player.
pub proof fn law_player_has_36_slots(packets: Seq<PacketView>)
    ensures
        all_in_slots(packets) <==> forall|i: int|
            0 <= i < packets.len() ==> match #[trigger] packets[i] {
                PacketView::Inventory { inventory_type: _, items } => items.len() <= 36,
                _ => true,
            },
{
    if all_in_slots(packets) {
        assert forall|i: int| 0 <= i < packets.len() implies match #[trigger] packets[i] {
            PacketView::Inventory { inventory_type: _, items } => items.len() <= 36,
            _ => true,
        } by {
            assert(in_slots(packets[i]));
        }
    }
}

} // verus!
