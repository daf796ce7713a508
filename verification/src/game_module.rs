//! The interactive game state: the board, the placed start and end
//! cells, the editing mode, and the per-frame recomputation of the
//! visualized route.

use vstd::prelude::*;

use crate::level_module::{import_type, TileSource};
use crate::pathfinding_module::{clear_node, Node, NodeType, PathfindingTerrain};

verus! {

/// What a board edit places on the clicked cell.
#[derive(Clone, Copy, Debug, PartialEq, Eq, Structural)]
pub enum PlaceMode {
    Start,
    End,
    Wall,
    Walkable,
}

/// The interactive state: the board, the optional placed endpoints,
/// the current editing mode, and the debug-overlay toggle.
pub struct GameState {
    pub board: PathfindingTerrain,
    pub start: Option<Node>,
    pub end: Option<Node>,
    pub place_mode: PlaceMode,
    pub draw_pathfinding: bool,
}

impl GameState {
    /// A well-formed board whose placed endpoints, if any, lie on it.
    pub open spec fn wf(self) -> bool {
        &&& self.board.wf()
        &&& match self.start {
            Some(n) => self.board.in_range(n.x as int, n.y as int),
            None => true,
        }
        &&& match self.end {
            Some(n) => self.board.in_range(n.x as int, n.y as int),
            None => true,
        }
    }

    /// The startup state: a walkable board of the default dimensions, no
    /// endpoints placed, wall-placing mode, overlay off.
    pub fn new() -> (r: GameState)
        ensures
            r.wf(),
            r.board.width == 47,
            r.board.height == 36,
            forall|x: int, y: int| r.board.in_range(x, y) ==> #[trigger] r.board.type_at(x, y)
                == NodeType::Walkable,
            r.start is None,
            r.end is None,
            r.place_mode == PlaceMode::Wall,
            !r.draw_pathfinding,
    {
        GameState {
            board: PathfindingTerrain::new(47, 36),
            start: None,
            end: None,
            place_mode: PlaceMode::Wall,
            draw_pathfinding: false,
        }
    }

    /// Records the placed start cell.
    pub fn set_start(&mut self, node: Node)
        requires
            old(self).wf(),
            old(self).board.in_range(node.x as int, node.y as int),
        ensures
            final(self).wf(),
            final(self).start == Some(node),
            final(self).board == old(self).board,
            final(self).end == old(self).end,
            final(self).place_mode == old(self).place_mode,
            final(self).draw_pathfinding == old(self).draw_pathfinding,
    {
        self.start = Some(node);
    }

    /// Records the placed end cell.
    pub fn set_end(&mut self, node: Node)
        requires
            old(self).wf(),
            old(self).board.in_range(node.x as int, node.y as int),
        ensures
            final(self).wf(),
            final(self).end == Some(node),
            final(self).board == old(self).board,
            final(self).start == old(self).start,
            final(self).place_mode == old(self).place_mode,
            final(self).draw_pathfinding == old(self).draw_pathfinding,
    {
        self.end = Some(node);
    }

    /// Rebuilds the board from an external tile source; the placed
    /// endpoints are discarded, since the board they addressed is gone.
    pub fn set_board_based_on_tilemap(&mut self, source: &TileSource)
        requires
            old(self).wf(),
            1 <= source.grid_size,
            0 <= source.px_wid,
            0 <= source.px_hei,
            1 <= source.px_wid / source.grid_size,
            1 <= source.px_hei / source.grid_size,
            (source.px_wid / source.grid_size) * (source.px_hei / source.grid_size) <= i32::MAX,
        ensures
            final(self).wf(),
            final(self).board.width == source.px_wid / source.grid_size,
            final(self).board.height == source.px_hei / source.grid_size,
            forall|x: int, y: int|
                final(self).board.in_range(x, y) ==> #[trigger] final(self).board.type_at(x, y)
                    == import_type(source.tiles@, x, y),
            final(self).start is None,
            final(self).end is None,
            final(self).place_mode == old(self).place_mode,
            final(self).draw_pathfinding == old(self).draw_pathfinding,
    {
        self.board.set_pathfinding_based_on_tilemap(source);
        self.start = None;
        self.end = None;
    }
}

/// What one board edit leaves at `(x2, y2)` when mode `Start` or `End`
/// places `kind` at `(x, y)`: the placed cell gets `kind`, every other
/// cell previously holding `kind` reverts to `Walkable`.
pub open spec fn place_endpoint_type(
    old_type: NodeType,
    kind: NodeType,
    x: int,
    y: int,
    x2: int,
    y2: int,
) -> NodeType {
    if x2 == x && y2 == y {
        kind
    } else if old_type == kind {
        NodeType::Walkable
    } else {
        old_type
    }
}

/// Applies the current editing mode at the in-range cell `(x, y)`:
/// `Wall` and `Walkable` reclassify just that cell; `Start` and `End`
/// first demote every previous cell of that classification to
/// `Walkable`, record the placed endpoint, and classify the cell.
pub fn place(state: &mut GameState, x: i32, y: i32)
    requires
        old(state).wf(),
        old(state).board.in_range(x as int, y as int),
    ensures
        final(state).wf(),
        final(state).board.width == old(state).board.width,
        final(state).board.height == old(state).board.height,
        final(state).place_mode == old(state).place_mode,
        final(state).draw_pathfinding == old(state).draw_pathfinding,
        match old(state).place_mode {
            PlaceMode::Wall => {
                &&& final(state).start == old(state).start
                &&& final(state).end == old(state).end
                &&& final(state).board.type_at(x as int, y as int) == NodeType::Unwalkable
                &&& forall|x2: int, y2: int|
                    final(state).board.in_range(x2, y2) && !(x2 == x as int && y2 == y as int)
                        ==> #[trigger] final(state).board.type_at(x2, y2) == old(
                        state,
                    ).board.type_at(x2, y2)
            },
            PlaceMode::Walkable => {
                &&& final(state).start == old(state).start
                &&& final(state).end == old(state).end
                &&& final(state).board.type_at(x as int, y as int) == NodeType::Walkable
                &&& forall|x2: int, y2: int|
                    final(state).board.in_range(x2, y2) && !(x2 == x as int && y2 == y as int)
                        ==> #[trigger] final(state).board.type_at(x2, y2) == old(
                        state,
                    ).board.type_at(x2, y2)
            },
            PlaceMode::Start => {
                &&& final(state).start == Some(
                    Node { x, y, node_type: NodeType::Start },
                )
                &&& final(state).end == old(state).end
                &&& forall|x2: int, y2: int|
                    final(state).board.in_range(x2, y2) ==> #[trigger] final(state).board.type_at(
                        x2,
                        y2,
                    ) == place_endpoint_type(
                        old(state).board.type_at(x2, y2),
                        NodeType::Start,
                        x as int,
                        y as int,
                        x2,
                        y2,
                    )
            },
            PlaceMode::End => {
                &&& final(state).start == old(state).start
                &&& final(state).end == Some(Node { x, y, node_type: NodeType::End })
                &&& forall|x2: int, y2: int|
                    final(state).board.in_range(x2, y2) ==> #[trigger] final(state).board.type_at(
                        x2,
                        y2,
                    ) == place_endpoint_type(
                        old(state).board.type_at(x2, y2),
                        NodeType::End,
                        x as int,
                        y as int,
                        x2,
                        y2,
                    )
            },
        },
{
    match state.place_mode {
        PlaceMode::Start => {
            let node = Node { x, y, node_type: NodeType::Start };
            demote_type_to_walkable(&mut state.board, NodeType::Start);
            let ghost demoted = state.board;
            state.set_start(node);
            state.board.set_node_type(x, y, NodeType::Start);
            proof {
                assert forall|x2: int, y2: int|
                    state.board.in_range(x2, y2) implies #[trigger] state.board.type_at(x2, y2)
                    == place_endpoint_type(
                    old(state).board.type_at(x2, y2),
                    NodeType::Start,
                    x as int,
                    y as int,
                    x2,
                    y2,
                ) by {
                    assert(demoted.type_at(x2, y2) == (if old(state).board.type_at(x2, y2)
                        == NodeType::Start {
                        NodeType::Walkable
                    } else {
                        old(state).board.type_at(x2, y2)
                    }));
                    if !(x2 == x as int && y2 == y as int) {
                        assert(state.board.node_at(x2, y2) == demoted.node_at(x2, y2));
                    }
                }
            }
        },
        PlaceMode::End => {
            demote_type_to_walkable(&mut state.board, NodeType::End);
            let ghost demoted = state.board;
            state.set_end(Node { x, y, node_type: NodeType::End });
            state.board.set_node_type(x, y, NodeType::End);
            proof {
                assert forall|x2: int, y2: int|
                    state.board.in_range(x2, y2) implies #[trigger] state.board.type_at(x2, y2)
                    == place_endpoint_type(
                    old(state).board.type_at(x2, y2),
                    NodeType::End,
                    x as int,
                    y as int,
                    x2,
                    y2,
                ) by {
                    assert(demoted.type_at(x2, y2) == (if old(state).board.type_at(x2, y2)
                        == NodeType::End {
                        NodeType::Walkable
                    } else {
                        old(state).board.type_at(x2, y2)
                    }));
                    if !(x2 == x as int && y2 == y as int) {
                        assert(state.board.node_at(x2, y2) == demoted.node_at(x2, y2));
                    }
                }
            }
        },
        PlaceMode::Wall => {
            state.board.set_node_type(x, y, NodeType::Unwalkable);
        },
        PlaceMode::Walkable => {
            state.board.set_node_type(x, y, NodeType::Walkable);
        },
    }
}

/// Demotes every cell of the given classification to `Walkable`,
/// scanning the whole board cell by cell.
fn demote_type_to_walkable(board: &mut PathfindingTerrain, from: NodeType)
    requires
        old(board).wf(),
    ensures
        final(board).wf(),
        final(board).width == old(board).width,
        final(board).height == old(board).height,
        forall|x2: int, y2: int|
            final(board).in_range(x2, y2) ==> #[trigger] final(board).type_at(x2, y2) == (if old(
                board,
            ).type_at(x2, y2) == from {
                NodeType::Walkable
            } else {
                old(board).type_at(x2, y2)
            }),
{
    let height = board.height;
    let width = board.width;
    let mut y: i32 = 0;
    while y < height
        invariant
            board.wf(),
            width == board.width,
            height == board.height,
            width == old(board).width,
            height == old(board).height,
            0 <= y <= height,
            forall|x2: int, y2: int|
                board.in_range(x2, y2) && y2 < y ==> #[trigger] board.type_at(x2, y2) == (if old(
                    board,
                ).type_at(x2, y2) == from {
                    NodeType::Walkable
                } else {
                    old(board).type_at(x2, y2)
                }),
            forall|x2: int, y2: int|
                board.in_range(x2, y2) && y2 >= y ==> #[trigger] board.type_at(x2, y2) == old(
                    board,
                ).type_at(x2, y2),
        decreases height - y,
    {
        let mut x: i32 = 0;
        while x < width
            invariant
                board.wf(),
                width == board.width,
                height == board.height,
                width == old(board).width,
                height == old(board).height,
                0 <= y < height,
                0 <= x <= width,
                forall|x2: int, y2: int|
                    board.in_range(x2, y2) && (y2 < y || (y2 == y && x2 < x))
                        ==> #[trigger] board.type_at(x2, y2) == (if old(board).type_at(x2, y2)
                        == from {
                        NodeType::Walkable
                    } else {
                        old(board).type_at(x2, y2)
                    }),
                forall|x2: int, y2: int|
                    board.in_range(x2, y2) && (y2 > y || (y2 == y && x2 >= x))
                        ==> #[trigger] board.type_at(x2, y2) == old(board).type_at(x2, y2),
            decreases width - x,
        {
            let ghost pre = *board;
            let node = board.get_node_by_position(x, y);
            if let Some(node) = node {
                if node.node_type == from {
                    board.set_node_type(x, y, NodeType::Walkable);
                }
            }
            x = x + 1;
            proof {
                assert forall|x2: int, y2: int|
                    board.in_range(x2, y2) && (y2 < y || (y2 == y && x2 < x))
                    implies #[trigger] board.type_at(x2, y2) == (if old(board).type_at(x2, y2)
                    == from {
                    NodeType::Walkable
                } else {
                    old(board).type_at(x2, y2)
                }) by {
                    if x2 == x - 1 && y2 == y {
                        assert(pre.type_at(x2, y2) == old(board).type_at(x2, y2));
                    } else {
                        assert(board.type_at(x2, y2) == pre.type_at(x2, y2));
                    }
                }
                assert forall|x2: int, y2: int|
                    board.in_range(x2, y2) && (y2 > y || (y2 == y && x2 >= x))
                    implies #[trigger] board.type_at(x2, y2) == old(board).type_at(x2, y2) by {
                    assert(board.type_at(x2, y2) == pre.type_at(x2, y2));
                }
            }
        }
        y = y + 1;
    }
}

/// The cells after a route `p` is painted onto `nodes`: every route
/// cell not classified `Start` or `End` becomes `Path`, in route order.
pub open spec fn mark_route_nodes(nodes: Seq<Node>, w: int, p: Seq<Node>) -> Seq<Node>
    decreases p.len(),
{
    if p.len() == 0 {
        nodes
    } else {
        let prev = mark_route_nodes(nodes, w, p.drop_last());
        let n = p.last();
        if n.node_type == NodeType::Start || n.node_type == NodeType::End {
            prev
        } else {
            prev.update(n.y * w + n.x, Node { x: n.x, y: n.y, node_type: NodeType::Path })
        }
    }
}

/// Recomputes the visualized route for the current frame: stale `Path`
/// markings are cleared first; then, when both endpoints are placed and
/// a route connects them on the cleared board, a minimal route is
/// painted onto the board (skipping `Start`- and `End`-classified
/// cells).  Must run before each new route is drawn.
pub fn refresh_path_markings(state: &mut GameState)
    requires
        old(state).wf(),
    ensures
        final(state).wf(),
        final(state).start == old(state).start,
        final(state).end == old(state).end,
        final(state).place_mode == old(state).place_mode,
        final(state).draw_pathfinding == old(state).draw_pathfinding,
        final(state).board.width == old(state).board.width,
        final(state).board.height == old(state).board.height,
        exists|mid: PathfindingTerrain|
            {
                &&& mid.width == old(state).board.width
                &&& mid.height == old(state).board.height
                &&& (#[trigger] mid.nodes@) == old(state).board.nodes@.map_values(
                    |n: Node| clear_node(n),
                )
                &&& match (old(state).start, old(state).end) {
                    (Some(s), Some(g)) => {
                        if exists|q: Seq<Node>| mid.is_route(q, s, g) {
                            exists|p: Seq<Node>|
                                {
                                    &&& mid.is_route(p, s, g)
                                    &&& (forall|q: Seq<Node>|
                                        mid.is_route(q, s, g) ==> p.len() <= q.len())
                                    &&& final(state).board.nodes@ == mark_route_nodes(
                                        mid.nodes@,
                                        mid.width as int,
                                        p,
                                    )
                                }
                        } else {
                            final(state).board.nodes@ == mid.nodes@
                        }
                    },
                    _ => final(state).board.nodes@ == mid.nodes@,
                }
            },
{
    state.board.clear_path();
    let ghost mid = state.board;
    let (s, g) = match (state.start, state.end) {
        (Some(s), Some(g)) => (s, g),
        _ => {
            return ;
        },
    };
    match state.board.get_path(s, g) {
        Some(path) => {
            proof {
                mid.lemma_route_properties(path@, s, g);
            }
            let n = path.len();
            let mut i: usize = 0;
            while i < n
                invariant
                    n == path@.len(),
                    i <= n,
                    state.board.wf(),
                    state.board.width == mid.width,
                    state.board.height == mid.height,
                    state.wf(),
                    state.start == old(state).start,
                    state.end == old(state).end,
                    state.place_mode == old(state).place_mode,
                    state.draw_pathfinding == old(state).draw_pathfinding,
                    forall|j: int|
                        0 <= j < n ==> mid.in_range(
                            (#[trigger] path@[j]).x as int,
                            path@[j].y as int,
                        ),
                    state.board.nodes@ == mark_route_nodes(
                        mid.nodes@,
                        mid.width as int,
                        path@.take(i as int),
                    ),
                decreases n - i,
            {
                let ghost pre = path@.take(i as int);
                let node = path[i];
                if node.node_type == NodeType::Start || node.node_type == NodeType::End {
                } else {
                    state.board.set_node_type(node.x, node.y, NodeType::Path);
                }
                i = i + 1;
                proof {
                    let cur = path@.take(i as int);
                    assert(cur.last() == path@[i - 1]);
                    assert(cur.drop_last() =~= pre);
                }
            }
            proof {
                assert(path@.take(n as int) =~= path@);
            }
        },
        None => (),
    }
}

} // verus!
