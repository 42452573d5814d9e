use tileworld::codec::decode_authorized;
use tileworld::connector::{
    AssetEntry, AssetTable, AuthAttempt, AuthError, ServerConnector, SignalRead, make_init_signal,
};
use tileworld::content::Plugin;
use tileworld::signals::{AssetId, Auth, PlayerSignal};
use tileworld::state::{EntityId, State};

fn world() -> (State, AssetTable) {
    let mut state = State::default();
    let _plugin = Plugin::new(&mut state);
    let assets = AssetTable {
        entries: vec![
            AssetEntry { name: "grass".to_string(), id: AssetId(0), data: vec![10u8, 11] },
            AssetEntry { name: "bedrock".to_string(), id: AssetId(1), data: vec![12u8] },
            AssetEntry { name: "skins/suisei".to_string(), id: AssetId(2), data: vec![13u8] },
            AssetEntry { name: "skins/ougi".to_string(), id: AssetId(3), data: vec![14u8] },
        ],
    };
    (state, assets)
}

fn auth_bytes(name: &str) -> Vec<u8> {
    tileworld::codec::encode_auth(&Auth { username: name.to_string() })
}

fn accept(connector: &mut ServerConnector, state: &State, assets: &AssetTable, name: &str) -> (EntityId, Vec<u8>) {
    match connector.try_auth(state, assets, &auth_bytes(name)) {
        AuthAttempt::Accepted { entity_id, response, consumed } => {
            assert_eq!(consumed, auth_bytes(name).len());
            assert!(connector.record_player(name.to_string(), entity_id));
            (entity_id, response)
        }
        other => panic!("expected authorization to succeed, got {:?}", other),
    }
}

#[test]
fn asset_table_resolves_first_match() {
    let (_, assets) = world();
    assert_eq!(assets.asset_to_id(&"grass".to_string()), Some(AssetId(0)));
    assert_eq!(assets.asset_to_id(&"skins/ougi".to_string()), Some(AssetId(3)));
    assert_eq!(assets.asset_to_id(&"lava".to_string()), None);
}

#[test]
fn snapshot_carries_the_whole_world() {
    let (state, assets) = world();
    let update = make_init_signal(&state, &assets);
    assert_eq!(update.assets.len(), 4);
    // the field is 39 columns by 25 rows of grass
    assert_eq!(update.floors.len(), 39 * 25);
    // its border: two full rows plus the columns between them
    assert_eq!(update.walls.len(), 2 * 39 + 2 * 23);
    assert_eq!(update.entities.len(), 2);
    assert!(update.floors.iter().all(|(_, t)| t.asset_id == AssetId(0)));
    assert!(update.walls.iter().all(|(_, t)| t.asset_id == AssetId(1)));
    let entity_assets: Vec<AssetId> = update.entities.iter().map(|(_, e)| e.asset_id).collect();
    assert!(entity_assets.contains(&AssetId(2)));
    assert!(entity_assets.contains(&AssetId(3)));
}

#[test]
fn first_connection_gets_a_player_entity_and_a_snapshot() {
    let (state, assets) = world();
    let mut connector = ServerConnector::new();
    let (entity_id, response) = accept(&mut connector, &state, &assets, "alice");
    let pool = state.player_entity_ids();
    assert!(pool.contains(&entity_id));
    let (answer, used) = decode_authorized(&response, 0).unwrap();
    assert_eq!(used, response.len());
    assert!(!answer.update.entities.is_empty());
    assert_eq!(answer.player_entity_id.0, usize::from(entity_id));
}

#[test]
fn reconnection_resumes_the_same_entity() {
    let (state, assets) = world();
    let mut connector = ServerConnector::new();
    let (first_id, _) = accept(&mut connector, &state, &assets, "alice");
    // the socket drops; the claim stays
    let delivered = connector.handle_client_read(0, SignalRead::Closed);
    assert!(delivered.is_none());
    assert!(!connector.players()[0].connected);
    assert_eq!(connector.players()[0].entity_id, first_id);
    // the same username reconnects and resumes the same entity
    let (second_id, _) = accept(&mut connector, &state, &assets, "alice");
    assert_eq!(first_id, second_id);
}

#[test]
fn concurrent_usernames_never_share_an_entity() {
    let (state, assets) = world();
    let mut connector = ServerConnector::new();
    let (alice_id, _) = accept(&mut connector, &state, &assets, "alice");
    let (bob_id, _) = accept(&mut connector, &state, &assets, "bob");
    assert_ne!(alice_id, bob_id);
    // both player entities are now claimed: the next new username is the
    // one that hits the fatal condition
    match connector.try_auth(&state, &assets, &auth_bytes("carol")) {
        AuthAttempt::NoFreeIdentity => {}
        other => panic!("expected no free identity, got {:?}", other),
    }
    // while the claimed ones still resume
    let (again, _) = accept(&mut connector, &state, &assets, "bob");
    assert_eq!(again, bob_id);
}

#[test]
fn get_or_pick_reports_the_fatal_error() {
    let (state, assets) = world();
    let mut connector = ServerConnector::new();
    let (a, _) = accept(&mut connector, &state, &assets, "alice");
    let (b, _) = accept(&mut connector, &state, &assets, "bob");
    assert_ne!(a, b);
    assert_eq!(
        connector.get_or_pick_entity(&"carol".to_string(), &state),
        Err(AuthError::NoFreeIdentitySlot)
    );
    assert_eq!(connector.get_player_entity(&"alice".to_string()), Some(a));
    assert_eq!(connector.get_player_entity(&"carol".to_string()), None);
}

#[test]
fn silent_connection_is_retried_and_never_promoted() {
    let (state, assets) = world();
    let mut connector = ServerConnector::new();
    let empty: Vec<u8> = Vec::new();
    for _ in 0..5 {
        match connector.try_auth(&state, &assets, &empty) {
            AuthAttempt::Pending => {}
            other => panic!("expected a pending attempt, got {:?}", other),
        }
        assert_eq!(connector.players().len(), 0);
    }
    // a partial handshake stays pending too
    let partial: Vec<u8> = auth_bytes("alice")[..3].to_vec();
    match connector.try_auth(&state, &assets, &partial) {
        AuthAttempt::Pending => {}
        other => panic!("expected a pending attempt, got {:?}", other),
    }
    assert_eq!(connector.players().len(), 0);
}

#[test]
fn incompatible_record_is_refused() {
    let (state, assets) = world();
    let mut connector = ServerConnector::new();
    let (alice_id, _) = accept(&mut connector, &state, &assets, "alice");
    // the same entity under a different name would break the identity map
    assert!(!connector.record_player("mallory".to_string(), alice_id));
    assert_eq!(connector.players().len(), 1);
}

#[test]
fn reads_map_to_roster_transitions() {
    let (state, assets) = world();
    let mut connector = ServerConnector::new();
    let _ = accept(&mut connector, &state, &assets, "alice");
    assert_eq!(
        connector.handle_client_read(0, SignalRead::Signal(PlayerSignal::ReloadServer)),
        Some(PlayerSignal::ReloadServer)
    );
    assert!(connector.players()[0].connected);
    assert_eq!(connector.handle_client_read(0, SignalRead::WouldBlock), None);
    assert!(connector.players()[0].connected);
    assert_eq!(connector.handle_client_read(0, SignalRead::Failed), None);
    assert!(connector.players()[0].connected);
    assert_eq!(connector.handle_client_read(0, SignalRead::Closed), None);
    assert!(!connector.players()[0].connected);
}
