use platformer_net::geometry::Position3;
use platformer_net::presence::delete_hashmap;
use platformer_net::presence::despawn_everything;
use platformer_net::presence::PresenceOp;
use platformer_net::presence::UserIdMap;

fn p3(x: i32, y: i32, z: i32) -> Position3 {
    Position3 { x, y, z }
}

#[test]
fn spawn_happens_exactly_once_per_level_stay() {
    let mut map = UserIdMap::new();
    map.apply_position(42, p3(1, 2, 3), 1);

    // first sweep on the peer's level: exactly one spawn for it
    let ops = map.sync_visibility(1);
    assert_eq!(ops, vec![PresenceOp::Spawn { id: 42, pos: p3(1, 2, 3) }]);

    // more updates on the same level, then another sweep: no new spawn
    map.apply_position(42, p3(4, 5, 6), 1);
    map.apply_position(42, p3(7, 8, 9), 1);
    let ops = map.sync_visibility(1);
    assert_eq!(ops, vec![PresenceOp::Reposition { id: 42, pos: p3(7, 8, 9) }]);
}

#[test]
fn update_in_place_keeps_spawn_flag() {
    let mut map = UserIdMap::new();
    map.apply_position(7, p3(0, 0, 0), 2);
    assert!(!map.get(7).unwrap().spawned);
    let _ = map.sync_visibility(2);
    assert!(map.get(7).unwrap().spawned);
    map.apply_position(7, p3(9, 9, 9), 2);
    let e = map.get(7).unwrap();
    assert!(e.spawned);
    assert_eq!(e.pos, p3(9, 9, 9));
}

#[test]
fn level_gated_visibility_on_level_change() {
    let mut map = UserIdMap::new();
    map.apply_position(1, p3(10, 0, 0), 1);
    map.apply_position(2, p3(20, 0, 0), 2);

    // local level 1: peer 1 visible, peer 2 not
    let ops = map.sync_visibility(1);
    assert_eq!(ops, vec![PresenceOp::Spawn { id: 1, pos: p3(10, 0, 0) }]);
    assert!(map.get(1).unwrap().spawned);
    assert!(!map.get(2).unwrap().spawned);

    // change the local level to 2: peer 1 despawns, peer 2 spawns
    let ops = map.sync_visibility(2);
    assert_eq!(
        ops,
        vec![
            PresenceOp::Despawn { id: 1 },
            PresenceOp::Spawn { id: 2, pos: p3(20, 0, 0) },
        ]
    );
    // stored positions were not touched
    assert_eq!(map.get(1).unwrap().pos, p3(10, 0, 0));
    assert_eq!(map.get(2).unwrap().pos, p3(20, 0, 0));
}

#[test]
fn entries_survive_level_mismatch_without_rehandshake() {
    let mut map = UserIdMap::new();
    map.apply_position(5, p3(1, 1, 1), 3);
    let _ = map.sync_visibility(3);
    // the peer leaves our level; its entry stays, despawned
    let ops = map.sync_visibility(4);
    assert_eq!(ops, vec![PresenceOp::Despawn { id: 5 }]);
    assert_eq!(map.len(), 1);
    // back on the same level: it spawns again at its stored position
    let ops = map.sync_visibility(3);
    assert_eq!(ops, vec![PresenceOp::Spawn { id: 5, pos: p3(1, 1, 1) }]);
}

#[test]
fn disconnect_cleanup_never_resurrects_stale_state() {
    let mut map = UserIdMap::new();
    map.apply_position(9, p3(1, 2, 3), 1);
    let _ = map.sync_visibility(1);
    assert!(map.get(9).unwrap().spawned);

    // the peer disconnects; an in-flight stale position arrives after
    map.remove_peer(9);
    assert!(map.get(9).is_none());
    map.apply_position(9, p3(7, 7, 7), 1);
    let e = map.get(9).unwrap();
    assert!(!e.spawned);
    assert_eq!(e.pos, p3(7, 7, 7));

    // a fresh reconnect under a new identity is unaffected
    map.apply_position(10, p3(0, 0, 0), 1);
    assert!(map.get(10).is_some());
    assert!(!map.get(10).unwrap().spawned);
}

#[test]
fn remove_unknown_peer_is_a_no_op() {
    let mut map = UserIdMap::new();
    map.apply_position(1, p3(0, 0, 0), 1);
    map.remove_peer(2);
    assert_eq!(map.len(), 1);
    assert!(map.get(1).is_some());
}

#[test]
fn scene_teardown_despawns_everything_and_keeps_entries() {
    let mut map = UserIdMap::new();
    map.apply_position(1, p3(1, 0, 0), 1);
    map.apply_position(2, p3(2, 0, 0), 1);
    let _ = map.sync_visibility(1);
    assert!(map.get(1).unwrap().spawned && map.get(2).unwrap().spawned);
    despawn_everything(&mut map);
    assert!(!map.get(1).unwrap().spawned && !map.get(2).unwrap().spawned);
    assert_eq!(map.get(1).unwrap().pos, p3(1, 0, 0));
    assert_eq!(map.len(), 2);
}

#[test]
fn leaving_an_online_game_clears_the_map() {
    let mut map = UserIdMap::new();
    map.apply_position(1, p3(0, 0, 0), 1);
    map.apply_position(2, p3(0, 0, 0), 2);
    delete_hashmap(&mut map);
    assert_eq!(map.len(), 0);
    assert!(map.get(1).is_none());
}
