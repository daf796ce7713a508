use rts_core::game_module::{place, refresh_path_markings, GameState, PlaceMode};
use rts_core::pathfinding_module::{NodeType, PathfindingTerrain};

#[test]
fn new_state_has_the_default_walkable_board() {
    let state = GameState::new();
    assert_eq!(state.board.width, 47);
    assert_eq!(state.board.height, 36);
    assert!(state.start.is_none());
    assert!(state.end.is_none());
    assert!(matches!(state.place_mode, PlaceMode::Wall));
    assert!(!state.draw_pathfinding);
    let n = state.board.get_node_by_position(46, 35).unwrap();
    assert_eq!(n.node_type, NodeType::Walkable);
}

#[test]
fn out_of_range_queries_return_none() {
    let state = GameState::new();
    assert!(state.board.get_node_by_position(-1, 0).is_none());
    assert!(state.board.get_node_by_position(0, -1).is_none());
    assert!(state.board.get_node_by_position(47, 0).is_none());
    assert!(state.board.get_node_by_position(0, 36).is_none());
    let n = state.board.get_node_by_position(12, 7).unwrap();
    assert_eq!((n.x, n.y), (12, 7));
}

#[test]
fn placing_a_start_demotes_the_previous_one() {
    let mut state = GameState::new();
    state.place_mode = PlaceMode::Start;
    place(&mut state, 1, 1);
    place(&mut state, 3, 2);
    let t = |s: &GameState, x: i32, y: i32| s.board.get_node_by_position(x, y).unwrap().node_type;
    assert_eq!(t(&state, 1, 1), NodeType::Walkable);
    assert_eq!(t(&state, 3, 2), NodeType::Start);
    let start = state.start.unwrap();
    assert_eq!((start.x, start.y), (3, 2));
}

#[test]
fn placing_walls_and_walkable_edits_one_cell() {
    let mut state = GameState::new();
    state.place_mode = PlaceMode::Wall;
    place(&mut state, 5, 5);
    let t = |s: &GameState, x: i32, y: i32| s.board.get_node_by_position(x, y).unwrap().node_type;
    assert_eq!(t(&state, 5, 5), NodeType::Unwalkable);
    assert_eq!(t(&state, 5, 6), NodeType::Walkable);
    state.place_mode = PlaceMode::Walkable;
    place(&mut state, 5, 5);
    assert_eq!(t(&state, 5, 5), NodeType::Walkable);
}

#[test]
fn refresh_marks_the_route_between_the_endpoints() {
    let mut state = GameState::new();
    state.place_mode = PlaceMode::Start;
    place(&mut state, 0, 0);
    state.place_mode = PlaceMode::End;
    place(&mut state, 3, 0);
    refresh_path_markings(&mut state);
    let t = |s: &GameState, x: i32, y: i32| s.board.get_node_by_position(x, y).unwrap().node_type;
    // the unique shortest route runs along the row; endpoints keep their tags
    assert_eq!(t(&state, 0, 0), NodeType::Start);
    assert_eq!(t(&state, 1, 0), NodeType::Path);
    assert_eq!(t(&state, 2, 0), NodeType::Path);
    assert_eq!(t(&state, 3, 0), NodeType::End);
}

#[test]
fn refresh_clears_stale_markings_when_no_route_exists() {
    let mut state = GameState::new();
    state.place_mode = PlaceMode::Start;
    place(&mut state, 0, 0);
    state.place_mode = PlaceMode::End;
    place(&mut state, 3, 0);
    refresh_path_markings(&mut state);
    // wall the end cell off on all of its in-range sides, then refresh again
    state.place_mode = PlaceMode::Wall;
    place(&mut state, 2, 0);
    place(&mut state, 4, 0);
    place(&mut state, 3, 1);
    refresh_path_markings(&mut state);
    let t = |s: &GameState, x: i32, y: i32| s.board.get_node_by_position(x, y).unwrap().node_type;
    assert_eq!(t(&state, 1, 0), NodeType::Walkable);
    assert_eq!(t(&state, 2, 0), NodeType::Unwalkable);
}

#[test]
fn clearing_path_markings_twice_equals_once() {
    let mut state = GameState::new();
    state.place_mode = PlaceMode::Start;
    place(&mut state, 0, 0);
    state.place_mode = PlaceMode::End;
    place(&mut state, 4, 4);
    refresh_path_markings(&mut state);
    let mut once: PathfindingTerrain = PathfindingTerrain {
        width: state.board.width,
        height: state.board.height,
        nodes: state.board.nodes.clone(),
    };
    once.clear_path();
    let mut twice = PathfindingTerrain {
        width: once.width,
        height: once.height,
        nodes: once.nodes.clone(),
    };
    twice.clear_path();
    assert_eq!(once.nodes, twice.nodes);
}
