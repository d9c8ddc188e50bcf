use blockworld::blocks::BlockUpdate;
use blockworld::client::{ClientPacket, End};
use blockworld::entities::{
    spawn_pickup_entity, spawned_named_entity, Registry, Seen, Sighting, Type,
};
use blockworld::items::{can_pick_up, pick_up, DroppedItem, Inventory, Item};
use blockworld::player::{Effect, FallWatch, PositionAndLook, State};

fn at(x: u64, on_ground: bool) -> PositionAndLook {
    PositionAndLook { x, y: 0, z: 0, yaw: 0, pitch: 0, on_ground }
}

fn item(eid: i32) -> DroppedItem {
    let item = Item { item_type: 4, count: 1, life: 0 };
    DroppedItem { eid, item, position: at(0, true) }
}

#[test]
fn empty_slots() {
    let nothing = Item::default();
    assert_eq!((nothing.item_type, nothing.count, nothing.life), (-1, 0, 0));
    let inventory = Inventory::empty();
    assert_eq!(inventory.main, [nothing; 36]);
    assert_eq!(inventory.equipped, [nothing; 4]);
    assert_eq!(inventory.crafting, [nothing; 4]);
}

#[test]
fn new_players() {
    let state = State::new();
    assert_eq!(state.entity_id, 0);
    assert_eq!(state.username, "");
    assert!(!state.logged_in);
    assert_eq!(state.health, 20);
    assert_eq!(state.position_and_look, at(0, true));
    assert!(state.on_ground && !state.is_crouching);
    assert_eq!(state.stance, 0);
}

#[test]
fn moves_change_the_position() {
    let mut state = State::new();
    state.entity_id = 5;
    let moved = ClientPacket::Position { x: 1, y: 2, stance: 9, z: 3, on_ground: false };
    let position = PositionAndLook { x: 1, y: 2, z: 3, yaw: 0, pitch: 0, on_ground: false };
    assert!(matches!(state.apply(moved), Effect::Moved(5, p) if p == position));
    assert_eq!(state.position_and_look, position);
    let turned = ClientPacket::Look { yaw: 7, pitch: 8, on_ground: true };
    let position = PositionAndLook { yaw: 7, pitch: 8, on_ground: true, ..position };
    assert!(matches!(state.apply(turned), Effect::Moved(5, p) if p == position));
    let flying = ClientPacket::Flying { on_ground: false };
    let position = PositionAndLook { on_ground: false, ..position };
    assert!(matches!(state.apply(flying), Effect::Moved(5, p) if p == position));
    let both = ClientPacket::PositionAndLook {
        x: 11,
        y: 12,
        stance: 0,
        z: 13,
        yaw: 14,
        pitch: 15,
        on_ground: true,
    };
    let position = PositionAndLook { x: 11, y: 12, z: 13, yaw: 14, pitch: 15, on_ground: true };
    assert!(matches!(state.apply(both), Effect::Moved(5, p) if p == position));
    assert_eq!(state.position_and_look, position);
    assert_eq!((state.entity_id, state.health, state.stance), (5, 20, 0));
}

#[test]
fn inventories_fill_the_first_slots() {
    let mut state = State::new();
    let stone = Item { item_type: 1, count: 2, life: 3 };
    let packet = ClientPacket::Inventory { inventory_type: -1, items: vec![stone; 2] };
    assert!(matches!(state.apply(packet), Effect::Nothing));
    let packet =
        ClientPacket::Inventory { inventory_type: -1, items: vec![Item::default(); 1] };
    state.apply(packet);
    assert_eq!(state.inventory.main[0], Item::default());
    assert_eq!(state.inventory.main[1], stone);
    assert_eq!(state.inventory.main[2], Item::default());
}

#[test]
fn packets_with_other_effects() {
    let mut state = State::new();
    state.entity_id = 5;
    match state.apply(ClientPacket::KeepAlive) {
        Effect::Reply(bytes) => assert_eq!(bytes, vec![0]),
        other => panic!("{other:?}"),
    }
    match state.apply(ClientPacket::Handshake { username: b"me".to_vec() }) {
        Effect::Reply(bytes) => assert_eq!(bytes, vec![2, 0, 1, b'-']),
        other => panic!("{other:?}"),
    }
    match state.apply(ClientPacket::Chat { message: b"hi".to_vec() }) {
        Effect::Chat(message) => assert_eq!(message, b"hi"),
        other => panic!("{other:?}"),
    }
    let effect = state.apply(ClientPacket::Animation { entity_id: 9, animation: 2 });
    assert!(matches!(effect, Effect::Animation(9, 2)));
    let effect = state.apply(ClientPacket::HoldingChange { item_id: 2 });
    assert!(matches!(effect, Effect::Nothing));
    let effect = state.apply(ClientPacket::Disconnect { reason: vec![] });
    assert!(matches!(effect, Effect::Disconnected(5)));
}

#[test]
fn buffers_are_processed_packet_by_packet() {
    let mut state = State::new();
    let bytes = [
        0, 0x0a, 0, 0x0e, 3, 0, 0, 0, 1, 64, 0, 0, 0, 2, 5, 0x0e, 1, 0, 0, 0, 1, 64, 0, 0, 0, 2, 5,
        0x0a,
    ];
    let parsed = state.parse_packets(&bytes, 0).unwrap();
    assert_eq!((parsed.end, parsed.position), (End::Incomplete, 27));
    assert_eq!(parsed.effects.len(), 4);
    assert!(matches!(&parsed.effects[0], Effect::Reply(bytes) if *bytes == vec![0]));
    assert!(matches!(parsed.effects[1], Effect::Moved(0, p) if p == at(0, false)));
    let broken = BlockUpdate::Break((1, 64, 2));
    assert!(matches!(parsed.effects[2], Effect::Block(update) if update == broken));
    assert!(matches!(parsed.effects[3], Effect::Nothing));
    assert_eq!(state.position_and_look, at(0, false));
}

#[test]
fn overfull_inventories_are_refused() {
    let mut state = State::new();
    let mut bytes = vec![0x0a, 0, 5, 0, 0, 0, 0, 0, 37];
    bytes.extend_from_slice(&[255; 74]);
    assert!(state.parse_packets(&bytes, 0).is_none());
    assert_eq!(state.position_and_look, at(0, true));
    bytes[8] = 36;
    bytes.truncate(9 + 72);
    let parsed = state.parse_packets(&bytes, 0).unwrap();
    assert_eq!((parsed.end, parsed.position), (End::Exhausted, 81));
}

#[test]
fn incomplete_inventories_fill_slots_already() {
    let mut state = State::new();
    let stones = Item { item_type: 4, count: 64, life: 7 };
    let bytes = [5, 0, 0, 0, 0, 0, 2, 0, 4, 64, 0, 7, 0, 9];
    let parsed = state.parse_packets(&bytes, 0).unwrap();
    assert!(parsed.effects.is_empty());
    assert_eq!((parsed.end, parsed.position), (End::Incomplete, 0));
    assert_eq!(state.inventory.main[0], stones);
    assert_eq!(state.inventory.main[1], Item::default());
    let mut many = vec![5, 0, 0, 0, 0, 0, 100];
    many.extend_from_slice(&[255; 73]);
    assert!(state.parse_packets(&many, 0).is_some());
    many.push(255);
    assert!(state.parse_packets(&many, 0).is_none());
}

#[test]
fn buffers_may_be_processed_again() {
    let bytes = [0x0a, 0, 0x0c, 0, 0, 0, 1, 0, 0, 0, 2, 1, 5, 0, 0, 0, 0, 0, 1, 0, 4, 1, 0, 9, 0x0a, 0];
    for n in 0..bytes.len() {
        let (mut once, mut again) = (State::new(), State::new());
        once.parse_packets(&bytes, 0).unwrap();
        again.parse_packets(&bytes[..n], 0).unwrap();
        again.parse_packets(&bytes, 0).unwrap();
        assert_eq!(format!("{once:?}"), format!("{again:?}"));
    }
}

#[test]
fn falls_hurt_after_having_been_airborne() {
    let mut watch = FallWatch::new(at(1, true));
    assert!(!watch.observe(at(2, true), true));
    assert_eq!(watch.last_ground, at(2, true));
    assert!(!watch.observe(at(3, false), true));
    assert_eq!(watch.last_ground, at(2, true));
    assert!(!watch.observe(at(4, true), false));
    assert!(watch.observe(at(5, true), true));
    assert!(watch.was_airborne);
}

#[test]
fn one_item_is_picked_up() {
    let mut items = vec![item(1), item(2), item(3)];
    let near = vec![false, true, false];
    assert!(can_pick_up(&near));
    let bytes = pick_up(&mut items, &near, 7);
    assert_eq!(bytes, vec![
        0x16, 0, 0, 0, 2, 0, 0, 0, 7, 0x11, 0, 4, 1, 0, 0, 0x1e, 0, 0, 0, 2
    ]);
    assert_eq!(items, vec![item(1), item(3)]);
}

#[test]
fn several_items_are_removed_in_turn() {
    let mut items = vec![item(1), item(2), item(3), item(4)];
    let near = vec![true, true, false, false];
    assert!(can_pick_up(&near));
    let bytes = pick_up(&mut items, &near, 7);
    assert_eq!(bytes.len(), 40);
    assert_eq!((bytes[4], bytes[24]), (1, 2));
    assert_eq!(items, vec![item(2), item(4)]);
}

#[test]
fn items_that_cannot_be_removed_in_turn() {
    assert!(can_pick_up(&vec![]));
    assert!(can_pick_up(&vec![false, true]));
    assert!(!can_pick_up(&vec![true, true]));
    assert!(!can_pick_up(&vec![true, false, true]));
    assert!(can_pick_up(&vec![true, true, false]));
}

#[test]
fn nothing_near_is_nothing_picked_up() {
    let mut items = vec![item(1), item(2)];
    assert!(pick_up(&mut items, &vec![false, false], 7).is_empty());
    assert_eq!(items, vec![item(1), item(2)]);
}

#[test]
fn spawn_packets() {
    let packet = spawned_named_entity(1, "me", 32, -64, 5, -128, 127);
    assert_eq!((packet.entity_id, packet.name.as_str()), (1, "me"));
    assert_eq!((packet.x, packet.y, packet.z), (32, -64, 5));
    assert_eq!((packet.rotation, packet.pitch, packet.current_item), (-128, 127, 0));
    let packet = spawn_pickup_entity(2, 4, 1, 16, 0, -16);
    assert_eq!((packet.entity_id, packet.item_id, packet.count), (2, 4, 1));
    assert_eq!((packet.x, packet.y, packet.z), (16, 0, -16));
    assert_eq!((packet.rotation, packet.pitch, packet.roll), (0, 0, 0));
}

#[test]
fn newcomers_are_introduced_to_everybody() {
    let mut registry = Registry::new();
    let news = registry.moved(1, at(10, true), Some("one".to_string()));
    assert_eq!(news.len(), 2);
    let news = registry.moved(2, at(20, true), Some("two".to_string()));
    assert_eq!(news.len(), 3);
    let mut introduced: Vec<(i32, u64)> = news[..2].iter().map(|m| (m.eid, m.now.x)).collect();
    introduced.sort();
    assert_eq!(introduced, vec![(1, 10), (2, 20)]);
    assert!(news.iter().all(|m| m.prev.is_none()));
    for m in &news {
        let Type::Player(name) = &m.entity;
        assert_eq!(name, if m.eid == 1 { "one" } else { "two" });
    }
    assert_eq!(news[2].eid, 2);
}

#[test]
fn known_players_are_announced_alone() {
    let mut registry = Registry::new();
    registry.moved(1, at(10, true), Some("one".to_string()));
    registry.moved(2, at(20, true), Some("two".to_string()));
    let news = registry.moved(1, at(11, false), None);
    assert_eq!(news.len(), 1);
    assert_eq!((news[0].eid, news[0].now), (1, at(11, false)));
    assert_eq!(news[0].prev, Some(at(10, true)));
    let Type::Player(name) = &news[0].entity;
    assert_eq!(name, "one");
}

#[test]
fn players_that_leave_are_forgotten() {
    let mut registry = Registry::new();
    registry.moved(1, at(10, true), Some("one".to_string()));
    registry.moved(2, at(20, true), Some("two".to_string()));
    registry.remove(2);
    assert_eq!(registry.positions.len(), 1);
    assert_eq!(registry.usernames.len(), 1);
    let news = registry.moved(2, at(21, true), Some("new".to_string()));
    assert_eq!(news.len(), 3);
    let Type::Player(name) = &news[2].entity;
    assert_eq!((name.as_str(), news[2].prev), ("new", None));
}

#[test]
fn entities_are_announced_once() {
    let mut seen = Seen::new();
    assert_eq!(seen.observe(5, 5), Sighting::Own);
    assert_eq!(seen.observe(5, 6), Sighting::New);
    assert_eq!(seen.observe(5, 6), Sighting::Known);
    assert_eq!(seen.observe(5, 7), Sighting::New);
    assert_eq!(seen.eids.len(), 2);
}
