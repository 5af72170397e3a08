use platformer_net::client_sync::ClientSync;
use platformer_net::client_sync::SyncPhase;
use platformer_net::geometry::Position3;
use platformer_net::messages::ClientMessageReliable;
use platformer_net::messages::ServerMessageReliable;
use platformer_net::messages::ServerMessageUnreliable;

fn ready_client() -> ClientSync {
    let mut c = ClientSync::new();
    let _ = c.begin_ping();
    let _ = c.handle_reliable(ServerMessageReliable::Pong);
    let _ = c.handle_reliable(ServerMessageReliable::NumberOfMaps(0));
    assert_eq!(c.phase(), SyncPhase::Ready);
    c
}

fn payload(number: u8) -> ServerMessageUnreliable {
    ServerMessageUnreliable::MapPayload { map: vec![vec![number]], number }
}

#[test]
fn handshake_walks_the_phases() {
    let mut c = ClientSync::new();
    assert_eq!(c.phase(), SyncPhase::Connecting);
    let ping = c.begin_ping();
    assert_eq!(ping, ClientMessageReliable::Ping);
    assert_eq!(c.phase(), SyncPhase::Pinging);
    let _ = c.handle_reliable(ServerMessageReliable::Pong);
    assert_eq!(c.phase(), SyncPhase::AwaitingMaps);
}

#[test]
fn transfer_completes_after_the_nth_distinct_level() {
    let mut c = ClientSync::new();
    let _ = c.begin_ping();
    let _ = c.handle_reliable(ServerMessageReliable::Pong);
    let _ = c.handle_reliable(ServerMessageReliable::NumberOfMaps(2));
    assert_eq!(c.phase(), SyncPhase::AwaitingMaps);

    c.handle_unreliable(payload(1));
    assert_eq!(c.phase(), SyncPhase::AwaitingMaps);

    // a duplicate level is deduplicated, not counted
    c.handle_unreliable(payload(1));
    assert_eq!(c.phase(), SyncPhase::AwaitingMaps);
    assert_eq!(c.maps_len(), 1);

    c.handle_unreliable(payload(2));
    assert_eq!(c.phase(), SyncPhase::Ready);
    assert_eq!(c.maps_len(), 2);
}

#[test]
fn transfer_completes_when_the_count_arrives_last() {
    let mut c = ClientSync::new();
    let _ = c.begin_ping();
    let _ = c.handle_reliable(ServerMessageReliable::Pong);

    // payloads first, in reverse order, with a duplicate
    c.handle_unreliable(payload(2));
    c.handle_unreliable(payload(1));
    c.handle_unreliable(payload(2));
    assert_eq!(c.phase(), SyncPhase::AwaitingMaps);
    assert_eq!(c.maps_len(), 2);

    let _ = c.handle_reliable(ServerMessageReliable::NumberOfMaps(2));
    assert_eq!(c.phase(), SyncPhase::Ready);
}

#[test]
fn ready_is_entered_exactly_once() {
    let mut c = ClientSync::new();
    let _ = c.begin_ping();
    let _ = c.handle_reliable(ServerMessageReliable::Pong);
    let _ = c.handle_reliable(ServerMessageReliable::NumberOfMaps(1));
    c.handle_unreliable(payload(1));
    assert_eq!(c.phase(), SyncPhase::Ready);

    // further payloads change nothing
    c.handle_unreliable(payload(3));
    assert_eq!(c.phase(), SyncPhase::Ready);
    assert_eq!(c.maps_len(), 1);
    let timed_out = c.tick(1_000_000);
    assert!(!timed_out);
    assert_eq!(c.phase(), SyncPhase::Ready);
}

#[test]
fn stored_maps_are_retrievable() {
    let mut c = ClientSync::new();
    let _ = c.begin_ping();
    let _ = c.handle_reliable(ServerMessageReliable::Pong);
    c.handle_unreliable(ServerMessageUnreliable::MapPayload {
        map: vec![vec![1, 2], vec![3, 4]],
        number: 1,
    });
    assert_eq!(c.map_for_level(1).unwrap(), &vec![vec![1, 2], vec![3, 4]]);
    assert!(c.map_for_level(2).is_none());
}

#[test]
fn ping_times_out_after_five_seconds() {
    let mut c = ClientSync::new();
    let _ = c.begin_ping();
    assert!(!c.tick(4999));
    assert_eq!(c.phase(), SyncPhase::Pinging);
    assert!(c.tick(1));
    assert_eq!(c.phase(), SyncPhase::Disconnected);
}

#[test]
fn map_transfer_gets_the_extended_deadline() {
    let mut c = ClientSync::new();
    let _ = c.begin_ping();
    assert!(!c.tick(4000));
    let _ = c.handle_reliable(ServerMessageReliable::Pong);
    assert_eq!(c.phase(), SyncPhase::AwaitingMaps);
    // the clock keeps running from the ping; the limit is now 25 s total
    assert!(!c.tick(20999));
    assert_eq!(c.phase(), SyncPhase::AwaitingMaps);
    assert!(c.tick(1));
    assert_eq!(c.phase(), SyncPhase::Disconnected);
}

#[test]
fn cancel_is_terminal() {
    let mut c = ClientSync::new();
    let _ = c.begin_ping();
    c.cancel();
    assert_eq!(c.phase(), SyncPhase::Disconnected);
    // a disconnected session ignores everything
    let _ = c.handle_reliable(ServerMessageReliable::Pong);
    c.handle_unreliable(payload(1));
    assert_eq!(c.phase(), SyncPhase::Disconnected);
    assert_eq!(c.maps_len(), 0);
}

#[test]
fn gameplay_merges_positions_and_walls() {
    let mut c = ready_client();
    // position updates are ignored before gameplay only; now they apply
    c.handle_unreliable(ServerMessageUnreliable::PlayerPosition {
        id: 8,
        position: Position3 { x: 1, y: 2, z: 3 },
        level: 1,
    });
    let e = c.peer(8).unwrap();
    assert_eq!(e.pos, Position3 { x: 1, y: 2, z: 3 });
    assert_eq!(e.level, 1);
    assert!(!e.spawned);

    c.handle_unreliable(ServerMessageUnreliable::WallPos {
        client_id: 8,
        wall_id: 77,
        pos: platformer_net::geometry::Position2 { x: 5, y: 6 },
        level: 1,
    });
    let w = c.wall(1, 8, 77).unwrap();
    assert_eq!(w.pos, platformer_net::geometry::Position2 { x: 5, y: 6 });
}

#[test]
fn position_updates_before_gameplay_are_dropped() {
    let mut c = ClientSync::new();
    let _ = c.begin_ping();
    c.handle_unreliable(ServerMessageUnreliable::PlayerPosition {
        id: 8,
        position: Position3 { x: 1, y: 2, z: 3 },
        level: 1,
    });
    assert!(c.peer(8).is_none());
}

#[test]
fn disconnect_notice_drops_the_presence_entry() {
    let mut c = ready_client();
    c.handle_unreliable(ServerMessageUnreliable::PlayerPosition {
        id: 4,
        position: Position3 { x: 0, y: 0, z: 0 },
        level: 1,
    });
    assert!(c.peer(4).is_some());
    let _ = c.handle_reliable(ServerMessageReliable::PlayerDisconnected { id: 4 });
    assert!(c.peer(4).is_none());
}

#[test]
fn debug_messages_are_surfaced_for_logging() {
    let mut c = ready_client();
    let log = c.handle_reliable(ServerMessageReliable::DebugMessage(String::from("hi")));
    assert_eq!(log, Some(String::from("hi")));
    let log = c.handle_reliable(ServerMessageReliable::Pong);
    assert!(log.is_none());
}
