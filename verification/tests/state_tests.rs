use tileworld::state::{
    EntityType, FloorType, ObjectType, Place, State, ToolKind, Vec2, WallType, vec2,
};

fn floor_at(state: &State, x: i32, y: i32) -> Option<tileworld::state::Floor> {
    let mut found = None;
    for (pos, floor) in state.floors() {
        if pos.x == x && pos.y == y {
            found = Some(*floor);
        }
    }
    found
}

fn wall_at(state: &State, x: i32, y: i32) -> Option<tileworld::state::Wall> {
    let mut found = None;
    for (pos, wall) in state.walls() {
        if pos.x == x && pos.y == y {
            found = Some(*wall);
        }
    }
    found
}

#[test]
fn register_issues_unique_increasing_ids() {
    let mut state = State::default();
    let a = state.insert_type(FloorType::new("grass".to_string()));
    let b = state.insert_type(FloorType::new("planks".to_string()));
    let c = state.insert_type(FloorType::new("sand".to_string()));
    assert_ne!(a, b);
    assert_ne!(b, c);
    assert_ne!(a, c);
    assert!(a < b && b < c);
    let a_def: &FloorType = state.get_type(a);
    assert_eq!(a_def.asset, "grass");
    assert!(a_def.walkable);
    let c_def: &FloorType = state.get_type(c);
    assert_eq!(c_def.asset, "sand");
}

#[test]
fn register_keeps_definitions_across_families() {
    let mut state = State::default();
    let f = state.insert_type(FloorType::new("stone".to_string()).non_walkable());
    let w = state.insert_type(WallType::new("brick".to_string()).breakable(ToolKind::Pickaxe, 3));
    let e = state.insert_type(EntityType::new("slime".to_string()));
    let f_def: &FloorType = state.get_type(f);
    assert!(!f_def.walkable);
    let w_def: &WallType = state.get_type(w);
    let b = w_def.breakable.unwrap();
    assert!(matches!(b.tool_kind, ToolKind::Pickaxe));
    assert_eq!(b.hits, 3);
    let e_def: &EntityType = state.get_type(e);
    assert_eq!(e_def.asset, "slime");
}

#[test]
fn place_last_write_wins() {
    let mut state = State::default();
    let a = state.insert_type(FloorType::new("grass".to_string()));
    let b = state.insert_type(FloorType::new("planks".to_string()));
    let p = vec2(3, -4);
    state.place(p, a.instance());
    state.place(p, b.instance());
    let got = floor_at(&state, 3, -4).unwrap();
    assert_eq!(got.type_id, b);
    let count = state.floors().iter().filter(|(q, _)| q.x == 3 && q.y == -4).count();
    assert_eq!(count, 1);
}

#[test]
fn place_rect_fills_exactly_the_rectangle() {
    let mut state = State::default();
    let t = state.insert_type(FloorType::new("grass".to_string()));
    state.place_rect(vec2(-1, -1), vec2(1, 1), t.instance());
    assert_eq!(state.floors().len(), 9);
    for x in -1..=1 {
        for y in -1..=1 {
            assert_eq!(floor_at(&state, x, y).unwrap().type_id, t);
        }
    }
    assert!(floor_at(&state, 2, 0).is_none());
    assert!(floor_at(&state, 0, 2).is_none());
    assert!(floor_at(&state, -2, -2).is_none());
}

#[test]
fn place_rect_inverted_is_empty() {
    let mut state = State::default();
    let t = state.insert_type(FloorType::new("grass".to_string()));
    state.place_rect(vec2(5, 5), vec2(2, 7), t.instance());
    assert_eq!(state.floors().len(), 0);
}

#[test]
fn place_frame_touches_only_the_border() {
    let mut state = State::default();
    let t = state.insert_type(WallType::new("bedrock".to_string()));
    state.place_frame(vec2(-2, -2), vec2(2, 2), t.instance());
    // a 5x5 border has 16 cells
    assert_eq!(state.walls().len(), 16);
    for x in -2..=2 {
        assert!(wall_at(&state, x, -2).is_some());
        assert!(wall_at(&state, x, 2).is_some());
    }
    for y in -1..=1 {
        assert!(wall_at(&state, -2, y).is_some());
        assert!(wall_at(&state, 2, y).is_some());
    }
    assert!(wall_at(&state, 0, 0).is_none());
    assert!(wall_at(&state, 1, 1).is_none());
    assert!(wall_at(&state, 3, 0).is_none());
}

#[test]
fn place_frame_degenerate_row() {
    let mut state = State::default();
    let t = state.insert_type(WallType::new("bedrock".to_string()));
    state.place_frame(vec2(0, 4), vec2(3, 4), t.instance());
    assert_eq!(state.walls().len(), 4);
    for x in 0..=3 {
        assert!(wall_at(&state, x, 4).is_some());
    }
}

#[test]
fn spawn_never_reuses_ids() {
    let mut state = State::default();
    let player = tileworld::state::player_entity_type_id();
    let a = state.spawn(player.instance(vec2(0, 0)));
    let b = state.spawn(player.instance(vec2(1, 0)));
    let c = state.spawn(player.instance(vec2(2, 0)));
    assert_ne!(a, b);
    assert_ne!(b, c);
    assert_ne!(a, c);
    assert_eq!(usize::from(a), 0);
    assert_eq!(usize::from(b), 1);
    assert_eq!(usize::from(c), 2);
    assert_eq!(state.entities().len(), 3);
}

#[test]
fn player_entity_ids_lists_only_player_entities() {
    let mut state = State::default();
    let player = tileworld::state::player_entity_type_id();
    let skeleton = state.insert_type(EntityType::new("skeleton".to_string()));
    let a = state.spawn(player.instance(vec2(0, 0)));
    let _s = state.spawn(skeleton.instance(vec2(5, 5)));
    let b = state.spawn(player.instance(vec2(1, 0)));
    let ids = state.player_entity_ids();
    assert_eq!(ids, vec![a, b]);
}

#[test]
fn store_scenario_field_with_frame() {
    let mut state = State::default();
    let grass = state.insert_type(FloorType::new("grass".to_string()));
    let bedrock = state.insert_type(WallType::new("bedrock".to_string()));
    state.place_rect(vec2(-1, -1), vec2(1, 1), grass.instance());
    assert_eq!(state.floors().len(), 9);
    state.place_frame(vec2(-1, -1), vec2(1, 1), bedrock.instance());
    assert_eq!(state.walls().len(), 8);
    // the center keeps its floor and carries no wall
    assert_eq!(floor_at(&state, 0, 0).unwrap().type_id, grass);
    assert!(wall_at(&state, 0, 0).is_none());
}

#[test]
fn empty_rect_leaves_the_placement_list_untouched() {
    let mut state = State::default();
    let t = state.insert_type(FloorType::new("grass".to_string()));
    state.place(vec2(7, 7), t.instance());
    state.place(vec2(8, 7), t.instance());
    let before: Vec<(Vec2, tileworld::state::Floor)> = state.floors().clone();
    state.place_rect(vec2(5, 5), vec2(2, 7), t.instance());
    assert_eq!(state.floors(), &before);
}

#[test]
fn overwriting_keeps_the_entry_order() {
    let mut state = State::default();
    let a = state.insert_type(FloorType::new("grass".to_string()));
    let b = state.insert_type(FloorType::new("planks".to_string()));
    state.place(vec2(0, 0), a.instance());
    state.place(vec2(1, 0), a.instance());
    state.place(vec2(0, 0), b.instance());
    let cells: Vec<(i32, i32)> = state.floors().iter().map(|(p, _)| (p.x, p.y)).collect();
    assert_eq!(cells, vec![(0, 0), (1, 0)]);
    assert_eq!(state.floors()[0].1.type_id, b);
}
