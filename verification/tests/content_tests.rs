use tileworld::content::{EntityTypes, FloorTypes, Plugin, WallTypes, init, uninit};
use tileworld::state::{FloorType, ObjectType, State, ToolKind, WallType};
use tileworld::updater::{Server, ServerUpdater};

#[test]
fn content_registers_its_type_families() {
    let mut state = State::default();
    let floors = FloorTypes::new(&mut state);
    let walls = WallTypes::new(&mut state);
    let entities = EntityTypes::new(&mut state);
    let grass: &FloorType = state.get_type(floors.grass);
    assert_eq!(grass.asset, "grass");
    assert!(grass.walkable);
    let planks_floor: &FloorType = state.get_type(floors.planks);
    assert_eq!(planks_floor.asset, "planks");
    let bedrock: &WallType = state.get_type(walls.bedrock);
    assert_eq!(bedrock.asset, "bedrock");
    assert!(bedrock.breakable.is_none());
    let planks_wall: &WallType = state.get_type(walls.planks);
    let b = planks_wall.breakable.unwrap();
    assert!(matches!(b.tool_kind, ToolKind::Axe));
    assert_eq!(b.hits, 2);
    let skeleton: &tileworld::state::EntityType = state.get_type(entities.skeleton);
    assert_eq!(skeleton.asset, "skeleton");
}

#[test]
fn content_populates_the_initial_world() {
    let mut state = State::default();
    let plugin = Plugin::new(&mut state);
    // a 39 by 25 field of grass
    assert_eq!(state.floors().len(), 39 * 25);
    assert!(state.floors().iter().all(|(_, f)| f.type_id == plugin.floors.grass));
    // framed by bedrock
    assert_eq!(state.walls().len(), 2 * 39 + 2 * 23);
    assert!(state.walls().iter().all(|(_, w)| w.type_id == plugin.walls.bedrock));
    // with two player entities beside the center
    assert_eq!(state.entities().len(), 2);
    let ids = state.player_entity_ids();
    assert_eq!(ids.len(), 2);
    let a = &state.entities()[0];
    let b = &state.entities()[1];
    assert_eq!((a.pos.x, a.pos.y), (-1, 0));
    assert_eq!((b.pos.x, b.pos.y), (1, 0));
    assert_eq!(a.asset.as_deref(), Some("skins/suisei"));
    assert_eq!(b.asset.as_deref(), Some("skins/ougi"));
}

#[test]
fn content_stays_inside_the_frame() {
    let mut state = State::default();
    let _plugin = Plugin::new(&mut state);
    for (pos, _) in state.floors() {
        assert!((-19..=19).contains(&pos.x) && (-12..=12).contains(&pos.y));
    }
    for (pos, _) in state.walls() {
        let on_border = pos.y == -12 || pos.y == 12 || pos.x == -19 || pos.x == 19;
        assert!(on_border);
    }
}

#[test]
fn init_and_uninit_run_once_around_the_plugin() {
    let mut state = State::default();
    let plugin = init(&mut state);
    assert_eq!(state.entities().len(), 2);
    uninit(plugin);
}

#[test]
fn updater_ticks_plugins_and_keeps_state() {
    let mut updater = ServerUpdater::new();
    let plugin = *init(&mut updater.state);
    let connector = tileworld::connector::ServerConnector::new();
    let mut server = Server::new(connector, updater);
    server.push_plugin(plugin);
    let floors_before = server.updater.state.floors().len();
    server.updater.handle_signal(tileworld::signals::PlayerSignal::ReloadServer);
    server.updater.tick_plugins();
    assert_eq!(server.updater.state.floors().len(), floors_before);
    assert_eq!(server.updater.plugins.len(), 1);
}
