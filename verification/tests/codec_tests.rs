use tileworld::codec::{
    decode_auth, decode_authorized, decode_signal, decode_update, encode_auth, encode_authorized,
    encode_signal, encode_update,
};
use tileworld::signals::{
    AssetId, Auth, Authorized, ClientUpdate, Entity, EntityId, PlayerSignal, Position, Tile,
};

fn sample_update() -> ClientUpdate {
    ClientUpdate {
        assets: vec![(AssetId(0), vec![1u8, 2, 3]), (AssetId(7), vec![])],
        floors: vec![
            (Position::new(-1, -1), Tile { asset_id: AssetId(0) }),
            (Position::new(0, 0), Tile { asset_id: AssetId(0) }),
        ],
        walls: vec![(Position::new(2, -3), Tile { asset_id: AssetId(7) })],
        entities: vec![(
            EntityId(4),
            Entity { asset_id: AssetId(7), pos: Position::new(1, 0) },
        )],
    }
}

fn assert_update_eq(a: &ClientUpdate, b: &ClientUpdate) {
    assert_eq!(a.assets, b.assets);
    assert_eq!(a.floors, b.floors);
    assert_eq!(a.walls, b.walls);
    assert_eq!(a.entities, b.entities);
}

#[test]
fn auth_round_trip() {
    let m = Auth { username: "alice".to_string() };
    let bytes = encode_auth(&m);
    let (back, used) = decode_auth(&bytes, 0).unwrap();
    assert_eq!(back.username, "alice");
    assert_eq!(used, bytes.len());
}

#[test]
fn auth_round_trip_non_ascii() {
    let m = Auth { username: "\u{00e9}\u{4e16}\u{1f600}".to_string() };
    let bytes = encode_auth(&m);
    let (back, used) = decode_auth(&bytes, 0).unwrap();
    assert_eq!(back.username, m.username);
    assert_eq!(used, bytes.len());
}

#[test]
fn auth_known_bytes() {
    let m = Auth { username: "A".to_string() };
    let bytes = encode_auth(&m);
    assert_eq!(bytes, vec![1u8, 0, 0, 0, 0, 0, 0, 0, 0x41]);
}

#[test]
fn auth_rejects_invalid_utf8() {
    // a length prefix of one followed by a lone continuation byte
    let bytes = vec![1u8, 0, 0, 0, 0, 0, 0, 0, 0x80];
    assert!(decode_auth(&bytes, 0).is_none());
}

#[test]
fn auth_incomplete_is_none() {
    let m = Auth { username: "alice".to_string() };
    let bytes = encode_auth(&m);
    for cut in 0..bytes.len() {
        let partial: Vec<u8> = bytes[..cut].to_vec();
        assert!(decode_auth(&partial, 0).is_none());
    }
}

#[test]
fn signal_round_trip() {
    let bytes = encode_signal(&PlayerSignal::ReloadServer);
    assert_eq!(bytes, vec![0u8, 0, 0, 0]);
    let (back, used) = decode_signal(&bytes, 0).unwrap();
    assert!(matches!(back, PlayerSignal::ReloadServer));
    assert_eq!(used, 4);
}

#[test]
fn signal_unknown_discriminant_is_none() {
    let bytes = vec![9u8, 0, 0, 0];
    assert!(decode_signal(&bytes, 0).is_none());
}

#[test]
fn update_round_trip() {
    let m = sample_update();
    let bytes = encode_update(&m);
    let (back, used) = decode_update(&bytes, 0).unwrap();
    assert_update_eq(&back, &m);
    assert_eq!(used, bytes.len());
}

#[test]
fn update_round_trip_empty() {
    let m = ClientUpdate { assets: vec![], floors: vec![], walls: vec![], entities: vec![] };
    let bytes = encode_update(&m);
    assert_eq!(bytes.len(), 32);
    let (back, used) = decode_update(&bytes, 0).unwrap();
    assert_update_eq(&back, &m);
    assert_eq!(used, 32);
}

#[test]
fn authorized_round_trip() {
    let m = Authorized { player_entity_id: EntityId(11), update: sample_update() };
    let bytes = encode_authorized(&m);
    let (back, used) = decode_authorized(&bytes, 0).unwrap();
    assert_eq!(back.player_entity_id, EntityId(11));
    assert_update_eq(&back.update, &m.update);
    assert_eq!(used, bytes.len());
}

#[test]
fn authorized_round_trip_at_offset() {
    let m = Authorized { player_entity_id: EntityId(2), update: sample_update() };
    let mut bytes = vec![0xffu8, 0xee];
    bytes.extend(encode_authorized(&m));
    bytes.push(0xcc);
    let (back, used) = decode_authorized(&bytes, 2).unwrap();
    assert_eq!(back.player_entity_id, EntityId(2));
    assert_eq!(used, bytes.len() - 1);
}

#[test]
fn negative_coordinates_survive() {
    let m = ClientUpdate {
        assets: vec![],
        floors: vec![(Position::new(i32::MIN, i32::MAX), Tile { asset_id: AssetId(1) })],
        walls: vec![],
        entities: vec![],
    };
    let bytes = encode_update(&m);
    let (back, _) = decode_update(&bytes, 0).unwrap();
    assert_eq!(back.floors[0].0, Position::new(i32::MIN, i32::MAX));
}

#[test]
fn truncated_update_is_none() {
    let m = sample_update();
    let bytes = encode_update(&m);
    let partial: Vec<u8> = bytes[..bytes.len() - 1].to_vec();
    assert!(decode_update(&partial, 0).is_none());
}
