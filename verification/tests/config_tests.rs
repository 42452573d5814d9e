use tileworld::config::{ModelConfig, RectEnd, TilePos, TilePoses, Vec2u};

#[test]
fn model_config_picks_the_right_asset() {
    let ty = "oak".to_string();
    assert_eq!(ModelConfig::SameAsType.asset(&ty), Some(&ty));
    assert_eq!(ModelConfig::Omitted.asset(&ty), None);
    let custom = ModelConfig::Custom("oak_dark".to_string());
    assert_eq!(custom.asset(&ty).map(String::as_str), Some("oak_dark"));
}

#[test]
fn rect_end_resolves_max_and_size() {
    let min = TilePos { x: 2, y: 3 };
    assert_eq!(RectEnd::Max(TilePos { x: 7, y: 9 }).max(min), TilePos { x: 7, y: 9 });
    assert_eq!(RectEnd::Size(TilePos { x: 4, y: 2 }).max(min), TilePos { x: 5, y: 4 });
    // a zero extent still covers the starting cell
    assert_eq!(RectEnd::Size(TilePos { x: 0, y: 0 }).max(min), TilePos { x: 2, y: 3 });
}

#[test]
fn tile_pos_vec() {
    assert_eq!(TilePos { x: 5, y: 6 }.vec(), Vec2u { x: 5, y: 6 });
}

#[test]
fn single_position_covers_one_cell() {
    let ps = TilePoses::Pos(TilePos { x: 4, y: 4 }).positions();
    assert_eq!(ps, vec![TilePos { x: 4, y: 4 }]);
}

#[test]
fn solid_rect_covers_every_cell() {
    let shape = TilePoses::Rect {
        min: TilePos { x: 1, y: 1 },
        end: RectEnd::Max(TilePos { x: 3, y: 2 }),
        hollow: false,
    };
    let ps = shape.positions();
    assert_eq!(ps.len(), 6);
    for x in 1..=3 {
        for y in 1..=2 {
            assert!(ps.contains(&TilePos { x, y }));
        }
    }
    assert!(!ps.contains(&TilePos { x: 0, y: 1 }));
    assert!(!ps.contains(&TilePos { x: 4, y: 1 }));
}

#[test]
fn hollow_rect_covers_only_the_border() {
    let shape = TilePoses::Rect {
        min: TilePos { x: 0, y: 0 },
        end: RectEnd::Size(TilePos { x: 4, y: 4 }),
        hollow: true,
    };
    let ps = shape.positions();
    for x in 0..=3 {
        assert!(ps.contains(&TilePos { x, y: 0 }));
        assert!(ps.contains(&TilePos { x, y: 3 }));
    }
    for y in 1..=2 {
        assert!(ps.contains(&TilePos { x: 0, y }));
        assert!(ps.contains(&TilePos { x: 3, y }));
    }
    assert!(!ps.contains(&TilePos { x: 1, y: 1 }));
    assert!(!ps.contains(&TilePos { x: 2, y: 2 }));
}

#[test]
fn for_each_visits_covered_cells() {
    let shape = TilePoses::Rect {
        min: TilePos { x: 0, y: 0 },
        end: RectEnd::Max(TilePos { x: 1, y: 1 }),
        hollow: false,
    };
    // the closure cannot mutate, so just exercise the traversal
    shape.for_each(|p| {
        assert!(p.x <= 1 && p.y <= 1);
    });
    assert_eq!(shape.positions().len(), 4);
}
