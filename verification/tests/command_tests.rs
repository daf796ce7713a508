use rts_core::geometry::Vec2i;
use rts_core::pathfinding_module::{NodeType, PathfindingTerrain};
use rts_core::unit_module::{
    get_path_for_selected_units_system, request_path, CollisionAvoidance, Unit,
};

fn unit_at(x: i64, y: i64) -> Unit {
    Unit {
        position: Vec2i { x, y },
        avoidance: CollisionAvoidance { radius: 500 },
        path: None,
    }
}

#[test]
fn request_attaches_the_route_in_world_coordinates() {
    let terrain = PathfindingTerrain::new(3, 1);
    let mut unit = unit_at(500, 500);
    let got = request_path(&terrain, &mut unit, Vec2i { x: 2500, y: 500 });
    assert!(got);
    let p = unit.path.as_ref().unwrap();
    assert_eq!(p.current_node, 0);
    assert_eq!(
        p.path,
        vec![
            Vec2i { x: 0, y: 0 },
            Vec2i { x: 1000, y: 0 },
            Vec2i { x: 2000, y: 0 },
        ]
    );
}

#[test]
fn request_fails_when_the_target_cell_is_unreachable() {
    let mut terrain = PathfindingTerrain::new(3, 1);
    terrain.set_node_type(1, 0, NodeType::Unwalkable);
    let mut unit = unit_at(500, 500);
    let got = request_path(&terrain, &mut unit, Vec2i { x: 2500, y: 500 });
    assert!(!got);
    assert!(unit.path.is_none());
}

#[test]
fn request_fails_when_a_lookup_misses_the_board() {
    let terrain = PathfindingTerrain::new(3, 1);
    let mut unit = unit_at(500, 500);
    let got = request_path(&terrain, &mut unit, Vec2i { x: 9500, y: 500 });
    assert!(!got);
    assert!(unit.path.is_none());
}

#[test]
fn one_failed_unit_does_not_block_the_batch() {
    let terrain = PathfindingTerrain::new(3, 1);
    // the second unit stands outside the board, the others get routes
    let mut units = vec![unit_at(500, 500), unit_at(500, 5500), unit_at(1500, 500)];
    let selected: Vec<usize> = vec![0, 1, 2];
    get_path_for_selected_units_system(
        &terrain,
        &mut units,
        &selected,
        Vec2i { x: 2500, y: 500 },
    );
    assert!(units[0].path.is_some());
    assert!(units[1].path.is_none());
    assert!(units[2].path.is_some());
    assert_eq!(units[2].path.as_ref().unwrap().path.len(), 2);
}

#[test]
fn unselected_units_are_untouched() {
    let terrain = PathfindingTerrain::new(3, 1);
    let mut units = vec![unit_at(500, 500), unit_at(1500, 500)];
    let selected: Vec<usize> = vec![1];
    get_path_for_selected_units_system(
        &terrain,
        &mut units,
        &selected,
        Vec2i { x: 2500, y: 500 },
    );
    assert!(units[0].path.is_none());
    assert!(units[1].path.is_some());
}
