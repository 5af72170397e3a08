use platformer_net::catalog::Maps;
use platformer_net::geometry::Position2;
use platformer_net::geometry::Position3;
use platformer_net::messages::ClientMessageReliable;
use platformer_net::messages::ClientMessageUnreliable;
use platformer_net::messages::ServerMessageReliable;
use platformer_net::messages::ServerMessageUnreliable;
use platformer_net::registry::ConnectionRegistry;
use platformer_net::registry::ServerEvent;
use platformer_net::relay::relay_message;
use platformer_net::relay::server_handle_event;
use platformer_net::relay::server_handle_reliable;
use platformer_net::relay::server_handle_unreliable;

fn three_peer_registry() -> ConnectionRegistry {
    let mut reg = ConnectionRegistry::new();
    reg.connect(1);
    reg.connect(2);
    reg.connect(3);
    reg
}

#[test]
fn rebroadcast_reaches_everyone_but_the_sender() {
    let reg = three_peer_registry();
    let m = ClientMessageUnreliable::PlayerPosition {
        pos: Position3 { x: 1, y: 2, z: 3 },
        level: 4,
    };
    let out = server_handle_unreliable(&reg, 2, &m);
    let expected = ServerMessageUnreliable::PlayerPosition {
        id: 2,
        position: Position3 { x: 1, y: 2, z: 3 },
        level: 4,
    };
    assert_eq!(out.len(), 2);
    assert_eq!(out[0].0, 1);
    assert_eq!(out[1].0, 3);
    assert_eq!(out[0].1, expected);
    assert_eq!(out[1].1, expected);
}

#[test]
fn rebroadcast_of_wall_reports_carries_the_reporter() {
    let reg = three_peer_registry();
    let m = ClientMessageUnreliable::WallPos {
        level: 2,
        wall_id: 99,
        pos: Position2 { x: -1, y: 1 },
    };
    let out = server_handle_unreliable(&reg, 1, &m);
    assert_eq!(out.len(), 2);
    for (target, msg) in &out {
        assert_ne!(*target, 1);
        assert_eq!(
            *msg,
            ServerMessageUnreliable::WallPos {
                client_id: 1,
                wall_id: 99,
                pos: Position2 { x: -1, y: 1 },
                level: 2,
            }
        );
    }
}

#[test]
fn relay_message_stamps_the_sender() {
    let m = ClientMessageUnreliable::PlayerPosition {
        pos: Position3 { x: 0, y: 0, z: 0 },
        level: 0,
    };
    assert_eq!(
        relay_message(7, &m),
        ServerMessageUnreliable::PlayerPosition {
            id: 7,
            position: Position3 { x: 0, y: 0, z: 0 },
            level: 0,
        }
    );
}

#[test]
fn ping_is_answered_with_pong_count_and_maps() {
    let mut maps = Maps::new();
    maps.insert(1, vec![vec![1, 1], vec![0, 5]]);
    maps.insert(2, vec![vec![3]]);
    let (reliable, unreliable, log) =
        server_handle_reliable(ClientMessageReliable::Ping, &maps);
    assert_eq!(
        reliable,
        vec![
            ServerMessageReliable::Pong,
            ServerMessageReliable::NumberOfMaps(2),
        ]
    );
    assert_eq!(
        unreliable,
        vec![
            ServerMessageUnreliable::MapPayload { map: vec![vec![1, 1], vec![0, 5]], number: 1 },
            ServerMessageUnreliable::MapPayload { map: vec![vec![3]], number: 2 },
        ]
    );
    assert!(log.is_none());
}

#[test]
fn debug_messages_are_logged_not_broadcast() {
    let maps = Maps::new();
    let (reliable, unreliable, log) = server_handle_reliable(
        ClientMessageReliable::DebugMessage(String::from("checking in")),
        &maps,
    );
    assert!(reliable.is_empty());
    assert!(unreliable.is_empty());
    assert_eq!(log, Some(String::from("checking in")));
}

#[test]
fn disconnect_notifies_the_remaining_peers() {
    let mut reg = three_peer_registry();
    let out = server_handle_event(&mut reg, ServerEvent::ClientDisconnected { id: 2 });
    assert_eq!(reg.len(), 2);
    assert!(!reg.is_connected(2));
    assert_eq!(out.len(), 2);
    assert_eq!(out[0].0, 1);
    assert_eq!(out[1].0, 3);
    for (_, msg) in &out {
        assert_eq!(*msg, ServerMessageReliable::PlayerDisconnected { id: 2 });
    }
}

#[test]
fn connect_event_grows_the_registry_once() {
    let mut reg = ConnectionRegistry::new();
    let out = server_handle_event(&mut reg, ServerEvent::ClientConnected { id: 5 });
    assert!(out.is_empty());
    assert!(reg.is_connected(5));
    assert_eq!(reg.len(), 1);
    // a duplicate connect changes nothing
    let _ = server_handle_event(&mut reg, ServerEvent::ClientConnected { id: 5 });
    assert_eq!(reg.len(), 1);
}

#[test]
fn broadcast_targets_cover_the_registry() {
    let reg = three_peer_registry();
    assert_eq!(reg.clients_id(), vec![1, 2, 3]);
    assert_eq!(reg.broadcast_except_targets(2), vec![1, 3]);
    assert_eq!(reg.broadcast_except_targets(9), vec![1, 2, 3]);
}
