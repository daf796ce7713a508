use rts_core::pathfinding_module::{Node, NodeType, PathfindingTerrain, Successor};

#[test]
fn test_pathfinding() {
    let mut terrain = PathfindingTerrain::new(2, 2);
    terrain.set_node_type(0, 0, NodeType::Start);
    terrain.set_node_type(1, 1, NodeType::End);

    let start = terrain.get_node_by_position(0, 0).unwrap();
    let end = terrain.get_node_by_position(1, 1).unwrap();

    println!("Start: {:?}", start);
    println!("End: {:?}", end);

    let path = terrain.get_path(start, end);
    println!("Path: {:?}", path);

    assert!(path.is_some());
}

#[test]
fn two_by_two_path_has_three_cells() {
    let mut terrain = PathfindingTerrain::new(2, 2);
    terrain.set_node_type(0, 0, NodeType::Start);
    terrain.set_node_type(1, 1, NodeType::End);
    let start = terrain.get_node_by_position(0, 0).unwrap();
    let end = terrain.get_node_by_position(1, 1).unwrap();
    let path = terrain.get_path(start, end).unwrap();
    assert_eq!(path.len(), 3);
    assert_eq!((path[0].x, path[0].y), (0, 0));
    assert_eq!((path[2].x, path[2].y), (1, 1));
    // the middle cell is one of the two orthogonal detours
    let mid = (path[1].x, path[1].y);
    assert!(mid == (1, 0) || mid == (0, 1));
}

#[test]
fn enclosed_goal_is_unreachable() {
    let mut terrain = PathfindingTerrain::new(5, 5);
    // surround (2, 2) on all four sides
    terrain.set_node_type(1, 2, NodeType::Unwalkable);
    terrain.set_node_type(3, 2, NodeType::Unwalkable);
    terrain.set_node_type(2, 1, NodeType::Unwalkable);
    terrain.set_node_type(2, 3, NodeType::Unwalkable);
    let start = terrain.get_node_by_position(0, 0).unwrap();
    let goal = terrain.get_node_by_position(2, 2).unwrap();
    assert!(terrain.get_path(start, goal).is_none());
}

#[test]
fn start_equals_goal_is_a_single_cell_route() {
    let terrain = PathfindingTerrain::new(3, 3);
    let start = terrain.get_node_by_position(1, 1).unwrap();
    let path = terrain.get_path(start, start).unwrap();
    assert_eq!(path.len(), 1);
    assert_eq!(path[0], start);
}

#[test]
fn path_length_is_minimal_around_a_wall() {
    let mut terrain = PathfindingTerrain::new(5, 5);
    // a vertical wall with a gap at the top
    terrain.set_node_type(2, 1, NodeType::Unwalkable);
    terrain.set_node_type(2, 2, NodeType::Unwalkable);
    terrain.set_node_type(2, 3, NodeType::Unwalkable);
    terrain.set_node_type(2, 4, NodeType::Unwalkable);
    let start = terrain.get_node_by_position(0, 2).unwrap();
    let goal = terrain.get_node_by_position(4, 2).unwrap();
    let path = terrain.get_path(start, goal).unwrap();
    // detour through (2, 0): 2 left + 2 up-and-down pairs + 2 right = 9 cells
    assert_eq!(path.len(), 9);
    // consecutive cells differ by exactly one grid step
    for w in path.windows(2) {
        let d = (w[0].x - w[1].x).abs() + (w[0].y - w[1].y).abs();
        assert_eq!(d, 1);
    }
    // the route never crosses the wall
    for n in &path {
        assert!(n.node_type != NodeType::Unwalkable);
    }
}

#[test]
fn get_successors_skips_walls_and_edges() {
    let mut terrain = PathfindingTerrain::new(3, 3);
    terrain.set_node_type(1, 0, NodeType::Unwalkable);
    let corner = terrain.get_node_by_position(0, 0).unwrap();
    let succ = terrain.get_successors(&corner);
    // of the two in-range neighbors of the corner, (1, 0) is a wall
    assert_eq!(succ.len(), 1);
    assert_eq!((succ[0].node.x, succ[0].node.y), (0, 1));
    assert_eq!(succ[0].cost, 1);

    let center = terrain.get_node_by_position(1, 1).unwrap();
    let succ = terrain.get_successors(&center);
    assert_eq!(succ.len(), 3);
    // deterministic order: left, below, above, right (minus the wall below)
    let coords: Vec<(i32, i32)> = succ.iter().map(|s| (s.node.x, s.node.y)).collect();
    assert_eq!(coords, vec![(0, 1), (1, 2), (2, 1)]);
    assert!(succ.len() <= 4);
    let _: &Successor = &succ[0];
}
