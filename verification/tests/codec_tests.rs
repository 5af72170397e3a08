use platformer_net::geometry::Position2;
use platformer_net::geometry::Position3;
use platformer_net::messages::ClientMessageReliable;
use platformer_net::messages::ClientMessageUnreliable;
use platformer_net::messages::ServerMessageReliable;
use platformer_net::messages::ServerMessageUnreliable;

fn p3(x: i32, y: i32, z: i32) -> Position3 {
    Position3 { x, y, z }
}

fn p2(x: i32, y: i32) -> Position2 {
    Position2 { x, y }
}

#[test]
fn client_unreliable_round_trip_player_position() {
    let m = ClientMessageUnreliable::PlayerPosition { pos: p3(10, -20, 30), level: 7 };
    let bytes = m.encode();
    assert_eq!(ClientMessageUnreliable::decode(&bytes).unwrap(), m);
}

#[test]
fn client_unreliable_round_trip_zero_vector() {
    let m = ClientMessageUnreliable::PlayerPosition { pos: Position3::zero(), level: 0 };
    let bytes = m.encode();
    assert_eq!(ClientMessageUnreliable::decode(&bytes).unwrap(), m);
}

#[test]
fn client_unreliable_round_trip_level_boundaries() {
    for level in [0u8, 255u8] {
        let m = ClientMessageUnreliable::PlayerPosition {
            pos: p3(i32::MIN, i32::MAX, -1),
            level,
        };
        let bytes = m.encode();
        assert_eq!(ClientMessageUnreliable::decode(&bytes).unwrap(), m);
    }
}

#[test]
fn client_unreliable_round_trip_wall_pos() {
    let m = ClientMessageUnreliable::WallPos { level: 3, wall_id: -783654, pos: p2(400, -80) };
    let bytes = m.encode();
    assert_eq!(ClientMessageUnreliable::decode(&bytes).unwrap(), m);
}

#[test]
fn client_reliable_round_trip_ping() {
    let bytes = ClientMessageReliable::Ping.encode();
    assert_eq!(bytes, vec![1u8]);
    assert_eq!(
        ClientMessageReliable::decode(&bytes).unwrap(),
        ClientMessageReliable::Ping
    );
}

#[test]
fn client_reliable_round_trip_empty_debug_string() {
    let m = ClientMessageReliable::DebugMessage(String::new());
    let bytes = m.encode();
    assert_eq!(ClientMessageReliable::decode(&bytes).unwrap(), m);
}

#[test]
fn client_reliable_round_trip_unicode_debug_string() {
    let m = ClientMessageReliable::DebugMessage(String::from("héllo wörld €"));
    let bytes = m.encode();
    assert_eq!(ClientMessageReliable::decode(&bytes).unwrap(), m);
}

#[test]
fn server_unreliable_round_trip_player_position() {
    let m = ServerMessageUnreliable::PlayerPosition {
        id: 0x0102030405060708,
        position: p3(-5, 6, -7),
        level: 255,
    };
    let bytes = m.encode();
    assert_eq!(ServerMessageUnreliable::decode(&bytes).unwrap(), m);
}

#[test]
fn server_unreliable_round_trip_map_payload() {
    let m = ServerMessageUnreliable::MapPayload {
        map: vec![vec![1, 2, 3], vec![], vec![0, 255]],
        number: 2,
    };
    let bytes = m.encode();
    assert_eq!(ServerMessageUnreliable::decode(&bytes).unwrap(), m);
}

#[test]
fn server_unreliable_round_trip_empty_map() {
    let m = ServerMessageUnreliable::MapPayload { map: vec![], number: 0 };
    let bytes = m.encode();
    assert_eq!(ServerMessageUnreliable::decode(&bytes).unwrap(), m);
}

#[test]
fn server_unreliable_round_trip_wall_pos() {
    let m = ServerMessageUnreliable::WallPos {
        client_id: u64::MAX,
        wall_id: i32::MIN,
        pos: p2(0, 0),
        level: 1,
    };
    let bytes = m.encode();
    assert_eq!(ServerMessageUnreliable::decode(&bytes).unwrap(), m);
}

#[test]
fn server_reliable_round_trip_every_variant() {
    let messages = vec![
        ServerMessageReliable::PlayerConnected { id: 1 },
        ServerMessageReliable::PlayerDisconnected { id: u64::MAX },
        ServerMessageReliable::DebugMessage(String::from("ok")),
        ServerMessageReliable::NumberOfMaps(0),
        ServerMessageReliable::NumberOfMaps(u16::MAX),
        ServerMessageReliable::Pong,
    ];
    for m in messages {
        let bytes = m.encode();
        assert_eq!(ServerMessageReliable::decode(&bytes).unwrap(), m);
    }
}

#[test]
fn number_of_maps_is_little_endian() {
    let bytes = ServerMessageReliable::NumberOfMaps(0x0201).encode();
    assert_eq!(bytes, vec![3u8, 0x01, 0x02]);
}

#[test]
fn player_connected_id_is_little_endian() {
    let bytes = ServerMessageReliable::PlayerConnected { id: 0x0102030405060708 }.encode();
    assert_eq!(
        bytes,
        vec![0u8, 0x08, 0x07, 0x06, 0x05, 0x04, 0x03, 0x02, 0x01]
    );
}

#[test]
fn decode_rejects_empty_datagram() {
    assert!(ClientMessageUnreliable::decode(&vec![]).is_err());
    assert!(ClientMessageReliable::decode(&vec![]).is_err());
    assert!(ServerMessageUnreliable::decode(&vec![]).is_err());
    assert!(ServerMessageReliable::decode(&vec![]).is_err());
}

#[test]
fn decode_rejects_unknown_tag() {
    assert!(ServerMessageReliable::decode(&vec![99u8]).is_err());
    assert!(ClientMessageUnreliable::decode(&vec![7u8, 0, 0, 0]).is_err());
}

#[test]
fn decode_rejects_truncated_datagram() {
    let mut bytes = ServerMessageUnreliable::PlayerPosition {
        id: 9,
        position: Position3 { x: 1, y: 2, z: 3 },
        level: 4,
    }
    .encode();
    bytes.pop();
    assert!(ServerMessageUnreliable::decode(&bytes).is_err());
}

#[test]
fn decode_rejects_trailing_bytes() {
    let mut bytes = ClientMessageReliable::Ping.encode();
    bytes.push(0);
    assert!(ClientMessageReliable::decode(&bytes).is_err());
}

#[test]
fn decode_rejects_bad_code_point() {
    // a debug message of one character whose code point is a surrogate
    let mut bytes = vec![0u8]; // debug-message tag (client reliable)
    bytes.extend_from_slice(&[1, 0, 0, 0, 0, 0, 0, 0]); // one character
    bytes.extend_from_slice(&[0x00, 0xD8, 0x00, 0x00]); // 0xD800
    assert!(ClientMessageReliable::decode(&bytes).is_err());
}
