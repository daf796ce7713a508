use rts_core::level_module::{parse_tile_tag, str_eq, Tile, TileSource};
use rts_core::pathfinding_module::{NodeType, PathfindingTerrain};

fn tile(x: i32, y: i32, tags: &[&str]) -> Tile {
    Tile {
        x,
        y,
        tags: tags.iter().map(|t| t.to_string()).collect(),
    }
}

#[test]
fn tag_vocabulary_is_closed() {
    assert_eq!(parse_tile_tag("Start"), Some(NodeType::Start));
    assert_eq!(parse_tile_tag("End"), Some(NodeType::End));
    assert_eq!(parse_tile_tag("Unwalkable"), Some(NodeType::Unwalkable));
    assert_eq!(parse_tile_tag("Walkable"), Some(NodeType::Walkable));
    assert_eq!(parse_tile_tag("Lava"), None);
    assert_eq!(parse_tile_tag(""), None);
    assert_eq!(parse_tile_tag("start"), None);
}

#[test]
fn string_comparison_is_exact() {
    assert!(str_eq("Walkable", "Walkable"));
    assert!(!str_eq("Walkable", "Walkabl"));
    assert!(!str_eq("", "W"));
    assert!(str_eq("", ""));
}

#[test]
fn import_resizes_and_reclassifies() {
    let mut terrain = PathfindingTerrain::new(1, 1);
    let source = TileSource {
        grid_size: 16,
        px_wid: 48,
        px_hei: 32,
        tiles: vec![
            tile(0, 0, &["Start"]),
            tile(2, 1, &["End"]),
            tile(1, 0, &["Unwalkable"]),
            tile(1, 1, &["Decoration"]),
            tile(9, 9, &["Walkable"]),
        ],
    };
    terrain.set_pathfinding_based_on_tilemap(&source);
    assert_eq!(terrain.width, 3);
    assert_eq!(terrain.height, 2);
    let t = |x: i32, y: i32| terrain.get_node_by_position(x, y).unwrap().node_type;
    assert_eq!(t(0, 0), NodeType::Start);
    assert_eq!(t(2, 1), NodeType::End);
    assert_eq!(t(1, 0), NodeType::Unwalkable);
    // unrecognized tags leave the default, out-of-range tiles are ignored
    assert_eq!(t(1, 1), NodeType::Empty);
    assert_eq!(t(2, 0), NodeType::Empty);
    assert_eq!(t(0, 1), NodeType::Empty);
}

#[test]
fn import_is_idempotent_for_the_same_source() {
    let source = TileSource {
        grid_size: 8,
        px_wid: 16,
        px_hei: 16,
        tiles: vec![tile(0, 1, &["Unwalkable"]), tile(1, 0, &["Start", "Walkable"])],
    };
    let mut once = PathfindingTerrain::new(1, 1);
    once.set_pathfinding_based_on_tilemap(&source);
    let mut twice = PathfindingTerrain::new(1, 1);
    twice.set_pathfinding_based_on_tilemap(&source);
    twice.set_pathfinding_based_on_tilemap(&source);
    assert_eq!(once.width, twice.width);
    assert_eq!(once.height, twice.height);
    assert_eq!(once.nodes, twice.nodes);
    // the last recognized tag of a tile wins
    assert_eq!(
        once.get_node_by_position(1, 0).unwrap().node_type,
        NodeType::Walkable
    );
}
