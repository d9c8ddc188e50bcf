use blockworld::blocks::{block_change, dig, next_step, place, tell, BlockUpdate, Step};
use blockworld::chat::{chat_packet, format_chat};
use blockworld::client::{
    read_login, read_packet, read_packets, read_use_entity, ClientPacket, End,
    PlayerBlockPlacementPacket, PlayerDiggingPacket, UseEntityPacket,
};
use blockworld::items::Item;
use blockworld::packets::{
    add_to_inventory, animation, collect_item, destroy_entity, entity, entity_look_and_move,
    handshake_reply, keep_alive, login_reply, place_player, spawn_position, time_update,
    update_health, BlockChangePacket, NamedEntitySpawnPacket, PickupSpawnPacket,
};
use blockworld::player::PositionAndLook;

const PLACEMENT: PlayerBlockPlacementPacket =
    PlayerBlockPlacementPacket { item_id: 0x0104, x: 1, y: 64, z: -1, direction: 2 };

#[test]
fn packets_without_contents() {
    assert_eq!(keep_alive(), vec![0]);
    assert_eq!(handshake_reply(), vec![2, 0, 1, b'-']);
}

#[test]
fn packets_with_numbers() {
    assert_eq!(time_update(0x0102), vec![4, 0, 0, 0, 0, 0, 0, 1, 2]);
    assert_eq!(time_update(-1), vec![4, 255, 255, 255, 255, 255, 255, 255, 255]);
    assert_eq!(update_health(-2), vec![8, 254]);
    let item = Item { item_type: 0x0102, count: 3, life: -1 };
    assert_eq!(add_to_inventory(&item), vec![0x11, 1, 2, 3, 255, 255]);
    assert_eq!(collect_item(1, 0x02030405), vec![0x16, 0, 0, 0, 1, 2, 3, 4, 5]);
    assert_eq!(destroy_entity(420), vec![0x1d, 0, 0, 1, 164]);
    assert_eq!(entity(420), vec![0x1e, 0, 0, 1, 164]);
    assert_eq!(entity_look_and_move(7, 1, -1, 2, -128, 127), vec![
        0x21, 0, 0, 0, 7, 1, 255, 2, 128, 127
    ]);
}

#[test]
fn packets_with_fields() {
    let pickup = PickupSpawnPacket {
        entity_id: 300000,
        item_id: 4,
        count: 1,
        x: 16,
        y: -1,
        z: 256,
        rotation: 0,
        pitch: 5,
        roll: -1,
    };
    assert_eq!(pickup.encode(), vec![
        0x15, 0, 4, 147, 224, 0, 4, 1, 0, 0, 0, 16, 255, 255, 255, 255, 0, 0, 1, 0, 0, 5, 255
    ]);
    let change = BlockChangePacket { x: -1, y: 64, z: 2, block_type: 3, block_metadata: -1 };
    assert_eq!(change.encode(), vec![0x35, 255, 255, 255, 255, 64, 0, 0, 0, 2, 3, 255]);
}

#[test]
fn packets_with_texts() {
    let packet = NamedEntitySpawnPacket {
        entity_id: 1,
        name: "\u{e9}".to_string(),
        x: 2,
        y: -1,
        z: 3,
        rotation: -1,
        pitch: 4,
        current_item: 0x0102,
    };
    assert_eq!(packet.encode(), vec![
        0x14, 0, 0, 0, 1, 0, 2, 0xc3, 0xa9, 0, 0, 0, 2, 255, 255, 255, 255, 0, 0, 0, 3, 255, 4, 1,
        2
    ]);
}

#[test]
fn packets_at_login() {
    let mut reply = vec![1, 0, 0, 1, 164];
    reply.extend_from_slice(&[0; 13]);
    assert_eq!(login_reply(420), reply);
    assert_eq!(spawn_position([1, -1, 2]), vec![6, 0, 0, 0, 1, 255, 255, 255, 255, 0, 0, 0, 2]);
    let at = PositionAndLook { x: 1, y: 2, z: 3, yaw: 4, pitch: 5, on_ground: true };
    let packet = place_player(&at);
    assert_eq!(packet.len(), 42);
    assert_eq!((packet[0], packet[8], packet[16], packet[24], packet[32]), (0x0d, 1, 2, 2, 3));
    assert_eq!((packet[36], packet[40], packet[41]), (4, 5, 1));
    assert_eq!(animation(9, 2), vec![0x12, 0, 0, 0, 9, 2]);
}

#[test]
fn logins_are_read() {
    let mut bytes = vec![9, 1, 0, 0, 0, 2, 0, 2, b'm', b'e', 0, 1, b'p'];
    bytes.extend_from_slice(&[0, 0, 0, 0, 0, 0, 1, 0, 255]);
    let (login, end) = read_login(&bytes, 1).unwrap();
    assert_eq!(end, bytes.len());
    assert_eq!((login.protocol_version, login.map_seed, login.dimension), (2, 256, -1));
    assert_eq!((login.username, login.password), (b"me".to_vec(), b"p".to_vec()));
    for n in 1..bytes.len() {
        assert!(read_login(&bytes[..n], 1).is_none());
    }
    assert!(read_login(&bytes, 0).is_none());
}

#[test]
fn uses_of_entities_are_read() {
    let bytes = [7, 0, 0, 0, 1, 255, 255, 255, 255, 1, 0];
    let used = UseEntityPacket { user: 1, target: -1, left_click: true };
    assert_eq!(read_use_entity(&bytes, 0), Some((used, 10)));
    assert_eq!(read_use_entity(&bytes[..9], 0), None);
    assert_eq!(read_use_entity(&[1; 20], 0), None);
}

#[test]
fn nothing_is_received_before_login() {
    assert_eq!(next_step(false), Step::Wait);
    assert_eq!(next_step(true), Step::Receive);
}

#[test]
fn block_changes() {
    let placed = block_change(&BlockUpdate::Place(PLACEMENT));
    let expected = BlockChangePacket { x: 1, y: 64, z: -1, block_type: 4, block_metadata: 0 };
    assert_eq!(placed, expected);
    let broken = block_change(&BlockUpdate::Break((5, -1, 6)));
    let expected = BlockChangePacket { x: 5, y: -1, z: 6, block_type: 0, block_metadata: 0 };
    assert_eq!(broken, expected);
}

#[test]
fn clients_are_told_of_each_change_in_order() {
    let (first, second) = (BlockUpdate::Break((1, 2, 3)), BlockUpdate::Place(PLACEMENT));
    let received = [None, Some(first), None, Some(second), Some(first)];
    let told: Vec<BlockChangePacket> = received.iter().filter_map(|r| tell(*r)).collect();
    assert_eq!(told, vec![block_change(&first), block_change(&second), block_change(&first)]);
    assert_eq!(tell(None), None);
}

#[test]
fn only_finished_digging_breaks_blocks() {
    let digging = PlayerDiggingPacket { status: 3, x: 9, y: 8, z: 7, face: 1 };
    assert_eq!(dig(&digging), Some(BlockUpdate::Break((9, 8, 7))));
    for status in [0, 1, 2, 4, -1] {
        assert_eq!(dig(&PlayerDiggingPacket { status, ..digging }), None);
    }
}

#[test]
fn only_items_can_be_placed() {
    assert_eq!(place(&PLACEMENT), Some(BlockUpdate::Place(PLACEMENT)));
    assert_eq!(place(&PlayerBlockPlacementPacket { item_id: -1, ..PLACEMENT }), None);
}

#[test]
fn chat_lines_have_single_spaces() {
    assert_eq!(format_chat("", "hi"), "<> hi");
    assert_eq!(format_chat("a  b", "  x   y z  "), "<a  b>  x y z ");
    assert_eq!(format_chat("u", "no\t\ttabs"), "<u> no\t\ttabs");
    assert_eq!(format_chat("u", ""), "<u> ");
    assert_eq!(format_chat("u", "    "), "<u>  ");
    assert_eq!(format_chat("u", "one two"), "<u> one two");
}

#[test]
fn chat_packets_count_bytes() {
    assert_eq!(chat_packet("", "a  b"), b"\x03\x00\x06<> a b".to_vec());
    let packet = chat_packet("", "\u{e9}");
    assert_eq!(packet, vec![3, 0, 5, b'<', b'>', b' ', 0xc3, 0xa9]);
    assert_eq!(packet[2] as usize, packet.len() - 3);
    let long = chat_packet("", &"x".repeat(65536));
    assert_eq!(long[..3], [3, 0, 3]);
    assert_eq!(long.len(), 3 + 3 + 65536);
}

fn read(bytes: &[u8]) -> (ClientPacket, usize) {
    read_packet(bytes, 0).unwrap()
}

#[test]
fn texts_are_read() {
    assert!(matches!(read(&[0, 9]), (ClientPacket::KeepAlive, 1)));
    match read(b"\x02\x00\x03abcd") {
        (ClientPacket::Handshake { username }, 6) => assert_eq!(username, b"abc"),
        other => panic!("{other:?}"),
    }
    match read(b"\x03\x00\x00") {
        (ClientPacket::Chat { message }, 3) => assert_eq!(message, b""),
        other => panic!("{other:?}"),
    }
    match read(b"\xff\x00\x04quit") {
        (ClientPacket::Disconnect { reason }, 7) => assert_eq!(reason, b"quit"),
        other => panic!("{other:?}"),
    }
}

#[test]
fn inventories_are_read() {
    let bytes = [5, 255, 255, 255, 255, 0, 3, 255, 255, 0, 4, 64, 0, 7, 255, 255, 99];
    match read(&bytes) {
        (ClientPacket::Inventory { inventory_type, items }, 16) => {
            assert_eq!(inventory_type, -1);
            let stones = Item { item_type: 4, count: 64, life: 7 };
            assert_eq!(items, vec![Item::default(), stones, Item::default()]);
        },
        other => panic!("{other:?}"),
    }
    match read(&[5, 0, 0, 0, 1, 255, 254]) {
        (ClientPacket::Inventory { inventory_type: 1, items }, 7) => assert!(items.is_empty()),
        other => panic!("{other:?}"),
    }
}

#[test]
fn moves_are_read() {
    assert!(matches!(read(&[0x0a, 2]), (ClientPacket::Flying { on_ground: true }, 2)));
    let mut bytes = vec![0x0d];
    for n in [1.5_f64, 70.0, 71.62, -8.25] {
        bytes.extend_from_slice(&n.to_be_bytes());
    }
    bytes.extend_from_slice(&90.0_f32.to_be_bytes());
    bytes.extend_from_slice(&(-45.5_f32).to_be_bytes());
    bytes.push(0);
    match read(&bytes) {
        (ClientPacket::PositionAndLook { x, y, stance, z, yaw, pitch, on_ground }, 42) => {
            assert_eq!(f64::from_bits(x), 1.5);
            assert_eq!(f64::from_bits(y), 70.0);
            assert_eq!(f64::from_bits(stance), 71.62);
            assert_eq!(f64::from_bits(z), -8.25);
            assert_eq!(f32::from_bits(yaw), 90.0);
            assert_eq!(f32::from_bits(pitch), -45.5);
            assert!(!on_ground);
        },
        other => panic!("{other:?}"),
    }
    bytes[0] = 0x0b;
    bytes[33] = 1;
    match read(&bytes) {
        (ClientPacket::Position { x, z, on_ground: true, .. }, 34) => {
            assert_eq!((f64::from_bits(x), f64::from_bits(z)), (1.5, -8.25));
        },
        other => panic!("{other:?}"),
    }
    match read(&[0x0c, 0, 0, 0, 1, 0, 0, 0, 2, 0]) {
        (ClientPacket::Look { yaw: 1, pitch: 2, on_ground: false }, 10) => {},
        other => panic!("{other:?}"),
    }
}

#[test]
fn actions_are_read() {
    match read(&[0x0e, 3, 0, 0, 0, 1, 64, 255, 255, 255, 255, 5]) {
        (ClientPacket::Digging { digging }, 12) => {
            let expected = PlayerDiggingPacket { status: 3, x: 1, y: 64, z: -1, face: 5 };
            assert_eq!(digging, expected);
        },
        other => panic!("{other:?}"),
    }
    match read(&[0x0f, 1, 4, 0, 0, 0, 1, 64, 255, 255, 255, 255, 2]) {
        (ClientPacket::Placement { placement }, 13) => assert_eq!(placement, PLACEMENT),
        other => panic!("{other:?}"),
    }
    match read(&[0x10, 0, 0, 0, 0, 255, 255]) {
        (ClientPacket::HoldingChange { item_id: -1 }, 7) => {},
        other => panic!("{other:?}"),
    }
    match read(&[0x12, 0, 0, 0, 9, 1]) {
        (ClientPacket::Animation { entity_id: 9, animation: 1 }, 6) => {},
        other => panic!("{other:?}"),
    }
}

#[test]
fn incomplete_and_unknown_packets_are_not_read() {
    let complete: Vec<Vec<u8>> = vec![
        vec![2, 0, 2, 65, 66],
        vec![5, 0, 0, 0, 1, 0, 1, 0, 4, 1, 0, 0],
        vec![0x0a, 1],
        vec![0x0b; 34],
        vec![0x0c; 10],
        vec![0x0d; 42],
        vec![0x0e; 12],
        vec![0x0f; 13],
        vec![0x10; 7],
        vec![0x12; 6],
    ];
    for packet in complete {
        assert_eq!(read(&packet).1, packet.len());
        for n in 0..packet.len() {
            assert!(read_packet(&packet[..n], 0).is_none());
        }
    }
    for id in [1, 4, 6, 7, 8, 9, 0x11, 0x13, 0xfe] {
        assert!(read_packet(&[id; 100], 0).is_none());
    }
}

#[test]
fn accumulated_packets_are_read_together() {
    let bytes = [0, 0x0a, 1, 2, 0, 1, 65, 0x0a];
    let decoded = read_packets(&bytes, 0);
    assert_eq!(decoded.packets.len(), 3);
    assert_eq!((decoded.end, decoded.position), (End::Incomplete, 7));
    let decoded = read_packets(&bytes[..7], 1);
    assert_eq!(decoded.packets.len(), 2);
    assert_eq!((decoded.end, decoded.position), (End::Exhausted, 7));
    let decoded = read_packets(&[], 0);
    assert!(decoded.packets.is_empty());
    assert_eq!((decoded.end, decoded.position), (End::Exhausted, 0));
    let decoded = read_packets(&[0, 1, 0], 0);
    assert_eq!(decoded.packets.len(), 1);
    assert_eq!((decoded.end, decoded.position), (End::Foreign, 1));
    assert_eq!(read_packets(&[7], 0).end, End::Foreign);
    assert_eq!(read_packets(&[0x55], 0).end, End::Incomplete);
}

#[test]
fn slots_of_incomplete_inventories_are_read() {
    let bytes = [0, 5, 0, 0, 0, 0, 0, 3, 255, 255, 0, 4, 64, 0, 7, 0, 9];
    let stones = Item { item_type: 4, count: 64, life: 7 };
    let started = |n: usize| read_packets(&bytes[..n], 0).started;
    for n in 0..10 {
        assert!(started(n).is_empty());
    }
    for n in 10..15 {
        assert_eq!(started(n), vec![Item::default()]);
    }
    for n in 15..=bytes.len() {
        assert_eq!(started(n), vec![Item::default(), stones]);
    }
    assert!(read_packets(&[5, 0, 0, 0, 0, 0, 1, 255, 255], 0).started.is_empty());
}

#[test]
fn packets_read_the_same_when_more_bytes_follow() {
    let bytes = [0, 3, 0, 1, 65, 0x12, 0, 0, 0, 9, 1, 0x0a, 0, 0x0e, 3];
    let all = format!("{:?}", read_packets(&bytes, 0).packets);
    for n in 0..bytes.len() {
        let some = format!("{:?}", read_packets(&bytes[..n], 0).packets);
        assert!(all.starts_with(some.trim_end_matches(']')));
    }
}
