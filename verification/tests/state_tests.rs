use platformer_net::blocks::wall_unique_id;
use platformer_net::blocks::BlockEntry;
use platformer_net::blocks::BlockMap;
use platformer_net::catalog::Maps;
use platformer_net::geometry::Position2;
use platformer_net::role::reset_role;
use platformer_net::role::run_if_client;
use platformer_net::role::run_if_host;
use platformer_net::role::run_if_online;
use platformer_net::role::HostClient;
use platformer_net::role::MultiplayerSetting;
use platformer_net::CurrentLevel;
use platformer_net::CLIENT_PORT;
use platformer_net::PROTOCOL_ID;
use platformer_net::SERVER_PORT;

#[test]
fn catalog_insert_is_idempotent_per_level() {
    let mut maps = Maps::new();
    maps.insert(1, vec![vec![1]]);
    maps.insert(2, vec![vec![2]]);
    assert_eq!(maps.len(), 2);
    // overwriting a level keeps the count and replaces the geometry
    maps.insert(1, vec![vec![9, 9]]);
    assert_eq!(maps.len(), 2);
    assert_eq!(maps.get(1).unwrap(), &vec![vec![9, 9]]);
    assert!(maps.contains(2));
    assert!(!maps.contains(3));
    assert!(maps.get(3).is_none());
}

#[test]
fn wall_reports_update_in_place_or_append() {
    let mut blocks = BlockMap::new();
    blocks.apply_wall_update(1, 10, 77, Position2 { x: 0, y: 0 });
    blocks.apply_wall_update(1, 10, 77, Position2 { x: 5, y: 5 });
    assert_eq!(blocks.len(), 1);
    assert_eq!(
        blocks.get(1, 10, 77).unwrap().pos,
        Position2 { x: 5, y: 5 }
    );
    // a different wall identity appends
    blocks.apply_wall_update(1, 10, 78, Position2 { x: 1, y: 1 });
    // the same wall on another level is another entry
    blocks.apply_wall_update(2, 10, 77, Position2 { x: 2, y: 2 });
    assert_eq!(blocks.len(), 3);
}

#[test]
fn wall_sync_splits_updates_and_spawns() {
    let mut blocks = BlockMap::new();
    blocks.apply_wall_update(1, 10, 1, Position2 { x: 1, y: 0 });
    blocks.apply_wall_update(1, 10, 2, Position2 { x: 2, y: 0 });
    blocks.apply_wall_update(2, 10, 3, Position2 { x: 3, y: 0 });
    let spawned = vec![(10u64, 1i32)];
    let (updates, spawns) = blocks.sync_walls(1, &spawned);
    assert_eq!(
        updates,
        vec![BlockEntry { level: 1, owner: 10, wall_id: 1, pos: Position2 { x: 1, y: 0 } }]
    );
    assert_eq!(
        spawns,
        vec![BlockEntry { level: 1, owner: 10, wall_id: 2, pos: Position2 { x: 2, y: 0 } }]
    );
}

#[test]
fn wall_identity_is_deterministic() {
    assert_eq!(wall_unique_id(80, 160, 2), 80 * 1117 + 160 * 4339 + 2 * 27);
    assert_eq!(wall_unique_id(80, 160, 2), 783_654);
    assert_eq!(wall_unique_id(0, 0, 0), 0);
    assert_eq!(wall_unique_id(-80, 0, 1), -80 * 1117 + 27);
}

#[test]
fn roles_gate_the_network_systems() {
    let play = MultiplayerSetting(HostClient::Play);
    let host = MultiplayerSetting(HostClient::Host);
    let client = MultiplayerSetting(HostClient::Client);
    assert!(!run_if_online(&play) && run_if_online(&host) && run_if_online(&client));
    assert!(!run_if_client(&play) && run_if_client(&host) && run_if_client(&client));
    assert!(!run_if_host(&play) && run_if_host(&host) && !run_if_host(&client));
}

#[test]
fn timeouts_and_exits_reset_the_role() {
    let mut setting = MultiplayerSetting(HostClient::Client);
    reset_role(&mut setting);
    assert_eq!(setting.0, HostClient::Play);
}

#[test]
fn the_local_level_is_a_plain_number() {
    let cl = CurrentLevel { level_number: 3 };
    assert_eq!(cl.level_number, 3);
}

#[test]
fn protocol_constants_match_the_deployment() {
    assert_eq!(PROTOCOL_ID, 6);
    assert_eq!(SERVER_PORT, 42069);
    assert_eq!(CLIENT_PORT, 5001);
}
