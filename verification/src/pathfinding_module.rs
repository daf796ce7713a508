//! The grid terrain: a dense row-major board of classified cells, with
//! neighbor queries and shortest-path search over its 4-connected,
//! unit-cost graph.

use vstd::prelude::*;

use crate::geometry::abs_i;

verus! {

/// The walkability / role classification of one cell.
#[derive(Clone, Copy, Debug, PartialEq, Eq, Hash, Structural)]
pub enum NodeType {
    Empty,
    Walkable,
    Unwalkable,
    Path,
    Start,
    End,
    Neighbor,
}

/// One grid-addressable cell: immutable coordinates plus a mutable
/// classification.
#[derive(Clone, Copy, Debug, PartialEq, Eq, Hash, Structural)]
pub struct Node {
    pub x: i32,
    pub y: i32,
    pub node_type: NodeType,
}

/// The Manhattan (grid-step) separation of two cells.
pub open spec fn manhattan(a: Node, b: Node) -> int {
    abs_i(a.x - b.x) + abs_i(a.y - b.y)
}

impl Node {
    /// Manhattan distance to `other`, saturating at `u32::MAX`; the
    /// admissible heuristic for search on a unit-cost 4-connected grid.
    pub fn manhattan_distance(&self, other: &Node) -> (r: u32)
        ensures
            r == if manhattan(*self, *other) > u32::MAX {
                u32::MAX as int
            } else {
                manhattan(*self, *other)
            },
    {
        let dx = self.x as i64 - other.x as i64;
        let dy = self.y as i64 - other.y as i64;
        let mx = if dx >= 0 { dx } else { -dx };
        let my = if dy >= 0 { dy } else { -dy };
        let sum = mx + my;
        if sum > u32::MAX as i64 {
            u32::MAX
        } else {
            sum as u32
        }
    }
}

/// A step the search may take: an adjacent reachable cell and the cost
/// of moving onto it.
#[derive(Clone, Copy, Debug, PartialEq, Eq, Structural)]
pub struct Successor {
    pub node: Node,
    pub cost: u32,
}

/// The board: exactly `width * height` cells in row-major order, the
/// cell for `(x, y)` at index `y * width + x` carrying those coordinates.
pub struct PathfindingTerrain {
    pub width: i32,
    pub height: i32,
    pub nodes: Vec<Node>,
}

pub proof fn lemma_idx_bounds(w: int, h: int, x: int, y: int) by (nonlinear_arith)
    requires
        0 <= x < w,
        0 <= y < h,
    ensures
        0 <= y * w + x < w * h,
{
}

pub proof fn lemma_idx_injective(w: int, x1: int, y1: int, x2: int, y2: int) by (nonlinear_arith)
    requires
        0 <= x1 < w,
        0 <= x2 < w,
        y1 * w + x1 == y2 * w + x2,
    ensures
        x1 == x2 && y1 == y2,
{
}

impl PathfindingTerrain {
    /// Whether `(x, y)` addresses a cell of the board.
    pub open spec fn in_range(self, x: int, y: int) -> bool {
        0 <= x < self.width && 0 <= y < self.height
    }

    /// Row-major index of `(x, y)`.
    pub open spec fn idx(self, x: int, y: int) -> int {
        y * self.width + x
    }

    /// The cell stored for `(x, y)`.
    pub open spec fn node_at(self, x: int, y: int) -> Node {
        self.nodes@[self.idx(x, y)]
    }

    /// The classification stored for `(x, y)`.
    pub open spec fn type_at(self, x: int, y: int) -> NodeType {
        self.node_at(x, y).node_type
    }

    /// The board invariant: positive dimensions, a dense row-major cell
    /// vector, and every cell carrying its own coordinates.
    pub open spec fn wf(self) -> bool {
        &&& 1 <= self.width
        &&& 1 <= self.height
        &&& self.width * self.height <= i32::MAX
        &&& self.nodes@.len() == self.width * self.height
        &&& forall|x: int, y: int|
            self.in_range(x, y) ==> (#[trigger] self.node_at(x, y)).x == x && self.node_at(
                x,
                y,
            ).y == y
    }

    /// Two boards hold the same classification everywhere.
    pub open spec fn same_types(self, other: Self) -> bool {
        &&& self.width == other.width
        &&& self.height == other.height
        &&& forall|x: int, y: int|
            self.in_range(x, y) ==> #[trigger] self.type_at(x, y) == other.type_at(x, y)
    }

    /// A fresh board with every cell classified `Walkable`.
    pub fn new(width: i32, height: i32) -> (r: Self)
        requires
            1 <= width,
            1 <= height,
            width * height <= i32::MAX,
        ensures
            r.wf(),
            r.width == width,
            r.height == height,
            forall|x: int, y: int| r.in_range(x, y) ==> #[trigger] r.type_at(x, y)
                == NodeType::Walkable,
    {
        let nodes = grid_nodes(width, height, NodeType::Walkable);
        let r = PathfindingTerrain { width, height, nodes };
        proof {
            assert forall|x: int, y: int| r.in_range(x, y) implies (#[trigger] r.node_at(x, y)).x
                == x && r.node_at(x, y).y == y && r.type_at(x, y) == NodeType::Walkable by {
                lemma_idx_bounds(width as int, height as int, x, y);
            }
        }
        r
    }

    /// Discards all cells and reinitializes to the given dimensions with
    /// every cell `Empty`; used when importing a differently-sized map.
    pub fn resize(&mut self, width: i32, height: i32)
        requires
            1 <= width,
            1 <= height,
            width * height <= i32::MAX,
        ensures
            final(self).wf(),
            final(self).width == width,
            final(self).height == height,
            forall|x: int, y: int| final(self).in_range(x, y) ==> #[trigger] final(self).type_at(
                x,
                y,
            ) == NodeType::Empty,
    {
        self.width = width;
        self.height = height;
        self.nodes = grid_nodes(width, height, NodeType::Empty);
        proof {
            assert forall|x: int, y: int| self.in_range(x, y) implies (#[trigger] self.node_at(
                x,
                y,
            )).x == x && self.node_at(x, y).y == y && self.type_at(x, y) == NodeType::Empty by {
                lemma_idx_bounds(width as int, height as int, x, y);
            }
        }
    }

    /// Returns the cell at `(x, y)`, or `None` for out-of-range
    /// coordinates: the sanctioned way to query a coordinate.
    pub fn get_node_by_position(&self, x: i32, y: i32) -> (r: Option<Node>)
        requires
            self.wf(),
        ensures
            match r {
                Some(n) => self.in_range(x as int, y as int) && n == self.node_at(
                    x as int,
                    y as int,
                ) && n.x == x && n.y == y,
                None => !self.in_range(x as int, y as int),
            },
    {
        if x < 0 || x >= self.width || y < 0 || y >= self.height {
            return None;
        }
        proof {
            lemma_idx_bounds(self.width as int, self.height as int, x as int, y as int);
        }
        Some(self.nodes[(y * self.width + x) as usize])
    }

    /// Reclassifies the in-range cell `(x, y)`; callers must validate the
    /// coordinates against `width` and `height` first.
    pub fn set_node_type(&mut self, x: i32, y: i32, node_type: NodeType)
        requires
            old(self).wf(),
            old(self).in_range(x as int, y as int),
        ensures
            final(self).wf(),
            final(self).width == old(self).width,
            final(self).height == old(self).height,
            final(self).node_at(x as int, y as int) == (Node { x, y, node_type }),
            final(self).nodes@ == old(self).nodes@.update(
                old(self).idx(x as int, y as int),
                Node { x, y, node_type },
            ),
            forall|x2: int, y2: int|
                final(self).in_range(x2, y2) && !(x2 == x as int && y2 == y as int)
                    ==> #[trigger] final(self).node_at(x2, y2) == old(self).node_at(x2, y2),
    {
        proof {
            lemma_idx_bounds(self.width as int, self.height as int, x as int, y as int);
        }
        let i = (y * self.width + x) as usize;
        self.nodes.set(i, Node { x, y, node_type });
        proof {
            let w = self.width as int;
            let h = self.height as int;
            assert forall|x2: int, y2: int|
                self.in_range(x2, y2) && !(x2 == x as int && y2 == y as int)
                implies #[trigger] self.node_at(x2, y2) == old(self).node_at(x2, y2) by {
                lemma_idx_bounds(w, h, x2, y2);
                if self.idx(x2, y2) == self.idx(x as int, y as int) {
                    lemma_idx_injective(w, x2, y2, x as int, y as int);
                }
            }
            assert forall|x2: int, y2: int| self.in_range(x2, y2) implies (
            #[trigger] self.node_at(x2, y2)).x == x2 && self.node_at(x2, y2).y == y2 by {
                lemma_idx_bounds(w, h, x2, y2);
                if self.idx(x2, y2) == self.idx(x as int, y as int) {
                    lemma_idx_injective(w, x2, y2, x as int, y as int);
                }
            }
        }
    }
}

/// `Path` markings revert to `Walkable`; everything else is untouched.
pub open spec fn clear_node(n: Node) -> Node {
    if n.node_type == NodeType::Path {
        Node { x: n.x, y: n.y, node_type: NodeType::Walkable }
    } else {
        n
    }
}

/// Clearing path markings twice yields the same cells as clearing once.
pub proof fn lemma_clear_path_idempotent(nodes: Seq<Node>)
    ensures
        nodes.map_values(|n: Node| clear_node(n)).map_values(|n: Node| clear_node(n))
            == nodes.map_values(|n: Node| clear_node(n)),
{
    let once = nodes.map_values(|n: Node| clear_node(n));
    let twice = once.map_values(|n: Node| clear_node(n));
    assert forall|i: int| 0 <= i < twice.len() implies twice[i] == once[i] by {
        assert(once[i] == clear_node(nodes[i]));
    }
    assert(twice =~= once);
}

impl PathfindingTerrain {
    /// The candidate step onto `(x, y)`: a one-element sequence when the
    /// cell is in range and not `Unwalkable`, else empty.
    pub open spec fn succ_one(self, x: int, y: int) -> Seq<Successor> {
        if self.in_range(x, y) && self.type_at(x, y) != NodeType::Unwalkable {
            seq![Successor { node: self.node_at(x, y), cost: 1u32 }]
        } else {
            seq![]
        }
    }

    /// The steps out of `(x, y)`: the four orthogonally-adjacent in-range
    /// cells not classified `Unwalkable`, at unit cost, in the fixed
    /// deterministic order left, below, above, right.
    pub open spec fn successors_of(self, x: int, y: int) -> Seq<Successor> {
        self.succ_one(x - 1, y) + self.succ_one(x, y - 1) + self.succ_one(x, y + 1) + self.succ_one(
            x + 1,
            y,
        )
    }

    /// Every step out of a cell stays in range, never lands on an
    /// `Unwalkable` cell, moves exactly one grid step, and there are at
    /// most four of them.
    pub proof fn lemma_successors_sound(self, x: int, y: int)
        requires
            self.wf(),
        ensures
            self.successors_of(x, y).len() <= 4,
            forall|i: int|
                0 <= i < self.successors_of(x, y).len() ==> {
                    let s = #[trigger] self.successors_of(x, y)[i];
                    &&& self.in_range(s.node.x as int, s.node.y as int)
                    &&& s.node.node_type != NodeType::Unwalkable
                    &&& s.node == self.node_at(s.node.x as int, s.node.y as int)
                    &&& manhattan(s.node, Node { x: x as i32, y: y as i32, node_type: s.node.node_type })
                        == 1
                    &&& s.cost == 1
                },
    {
        let w = self.width as int;
        let h = self.height as int;
        assert forall|i: int| 0 <= i < self.successors_of(x, y).len() implies {
            let s = #[trigger] self.successors_of(x, y)[i];
            &&& self.in_range(s.node.x as int, s.node.y as int)
            &&& s.node.node_type != NodeType::Unwalkable
            &&& s.node == self.node_at(s.node.x as int, s.node.y as int)
            &&& manhattan(s.node, Node { x: x as i32, y: y as i32, node_type: s.node.node_type })
                == 1
            &&& s.cost == 1
        } by {
            let s = self.successors_of(x, y)[i];
            if self.in_range(x - 1, y) {
                lemma_idx_bounds(w, h, x - 1, y);
            }
            if self.in_range(x, y - 1) {
                lemma_idx_bounds(w, h, x, y - 1);
            }
            if self.in_range(x, y + 1) {
                lemma_idx_bounds(w, h, x, y + 1);
            }
            if self.in_range(x + 1, y) {
                lemma_idx_bounds(w, h, x + 1, y);
            }
        }
    }

    /// The four orthogonally-adjacent reachable cells, in the fixed
    /// deterministic order; out-of-range and `Unwalkable` cells are
    /// excluded, each step at unit cost.
    pub fn get_successors(&self, node: &Node) -> (r: Vec<Successor>)
        requires
            self.wf(),
        ensures
            r@ == self.successors_of(node.x as int, node.y as int),
    {
        let mut successors: Vec<Successor> = Vec::new();
        let x = node.x as i64;
        let y = node.y as i64;
        self.push_candidate(&mut successors, x - 1, y);
        self.push_candidate(&mut successors, x, y - 1);
        self.push_candidate(&mut successors, x, y + 1);
        self.push_candidate(&mut successors, x + 1, y);
        proof {
            assert(successors@ =~= self.successors_of(node.x as int, node.y as int));
        }
        successors
    }

    /// Appends the step onto `(x, y)` when that cell is in range and
    /// reachable.
    fn push_candidate(&self, successors: &mut Vec<Successor>, x: i64, y: i64)
        requires
            self.wf(),
        ensures
            final(successors)@ == old(successors)@ + self.succ_one(x as int, y as int),
    {
        if 0 <= x && x < self.width as i64 && 0 <= y && y < self.height as i64 {
            proof {
                lemma_idx_bounds(self.width as int, self.height as int, x as int, y as int);
            }
            let n = self.nodes[(y * self.width as i64 + x) as usize];
            if !matches!(n.node_type, NodeType::Unwalkable) {
                successors.push(Successor { node: n, cost: 1 });
                proof {
                    assert(successors@ =~= old(successors)@ + self.succ_one(x as int, y as int));
                }
                return ;
            }
        }
        proof {
            assert(successors@ =~= old(successors)@ + self.succ_one(x as int, y as int));
        }
    }

    /// Reclassifies every cell of the board at once.
    pub fn fill(&mut self, node_type: NodeType)
        requires
            old(self).wf(),
        ensures
            final(self).wf(),
            final(self).width == old(self).width,
            final(self).height == old(self).height,
            forall|x: int, y: int| final(self).in_range(x, y) ==> #[trigger] final(self).type_at(
                x,
                y,
            ) == node_type,
    {
        let mut i: usize = 0;
        let n = self.nodes.len();
        while i < n
            invariant
                n == self.nodes@.len(),
                n == old(self).nodes@.len(),
                i <= n,
                self.width == old(self).width,
                self.height == old(self).height,
                forall|j: int|
                    0 <= j < i ==> (#[trigger] self.nodes@[j]).x == old(self).nodes@[j].x
                        && self.nodes@[j].y == old(self).nodes@[j].y && self.nodes@[j].node_type
                        == node_type,
                forall|j: int| i <= j < n ==> self.nodes@[j] == #[trigger] old(self).nodes@[j],
            decreases n - i,
        {
            let node = self.nodes[i];
            self.nodes.set(i, Node { x: node.x, y: node.y, node_type });
            i = i + 1;
        }
        proof {
            assert forall|x2: int, y2: int| self.in_range(x2, y2) implies (
            #[trigger] self.node_at(x2, y2)).x == x2 && self.node_at(x2, y2).y == y2
                && self.type_at(x2, y2) == node_type by {
                lemma_idx_bounds(self.width as int, self.height as int, x2, y2);
                assert(old(self).node_at(x2, y2).x == x2 && old(self).node_at(x2, y2).y == y2);
            }
        }
    }

    /// Reverts every `Path`-classified cell to `Walkable`, leaving all
    /// other classifications untouched.
    pub fn clear_path(&mut self)
        requires
            old(self).wf(),
        ensures
            final(self).wf(),
            final(self).width == old(self).width,
            final(self).height == old(self).height,
            final(self).nodes@ == old(self).nodes@.map_values(|n: Node| clear_node(n)),
    {
        let mut i: usize = 0;
        let n = self.nodes.len();
        while i < n
            invariant
                n == self.nodes@.len(),
                n == old(self).nodes@.len(),
                i <= n,
                self.width == old(self).width,
                self.height == old(self).height,
                forall|j: int| 0 <= j < i ==> self.nodes@[j] == clear_node(#[trigger] old(
                    self,
                ).nodes@[j]),
                forall|j: int| i <= j < n ==> self.nodes@[j] == #[trigger] old(self).nodes@[j],
            decreases n - i,
        {
            let node = self.nodes[i];
            if matches!(node.node_type, NodeType::Path) {
                self.nodes.set(i, Node { x: node.x, y: node.y, node_type: NodeType::Walkable });
            }
            i = i + 1;
        }
        proof {
            assert(self.nodes@ =~= old(self).nodes@.map_values(|n: Node| clear_node(n)));
            assert forall|x2: int, y2: int| self.in_range(x2, y2) implies (
            #[trigger] self.node_at(x2, y2)).x == x2 && self.node_at(x2, y2).y == y2 by {
                let w = self.width as int;
                let h = self.height as int;
                lemma_idx_bounds(w, h, x2, y2);
                assert(self.nodes@[self.idx(x2, y2)] == clear_node(
                    old(self).nodes@[self.idx(x2, y2)],
                ));
                assert(old(self).node_at(x2, y2).x == x2 && old(self).node_at(x2, y2).y == y2);
            }
        }
    }
}

impl PathfindingTerrain {
    /// `p` is a route of this board from `start` to `goal`: nonempty,
    /// beginning at `start`, ending at `goal`, every step moving onto a
    /// successor of the cell before it.
    pub open spec fn is_route(self, p: Seq<Node>, start: Node, goal: Node) -> bool {
        &&& p.len() >= 1
        &&& p[0] == start
        &&& p[p.len() - 1] == goal
        &&& forall|i: int|
            0 <= i < p.len() - 1 ==> (#[trigger] self.successors_of(
                p[i].x as int,
                p[i].y as int,
            )).contains(Successor { node: p[i + 1], cost: 1u32 })
    }

    /// A route is a contiguous sequence of cells on the board: every
    /// cell is in range, consecutive cells are 4-adjacent (one grid step
    /// apart), and no cell after the first is `Unwalkable`.
    pub proof fn lemma_route_properties(self, p: Seq<Node>, start: Node, goal: Node)
        requires
            self.wf(),
            self.is_route(p, start, goal),
            self.in_range(start.x as int, start.y as int),
        ensures
            forall|i: int|
                0 <= i < p.len() ==> self.in_range((#[trigger] p[i]).x as int, p[i].y as int),
            forall|i: int| 0 <= i < p.len() - 1 ==> manhattan(#[trigger] p[i], p[i + 1]) == 1,
            forall|i: int| 1 <= i < p.len() ==> (#[trigger] p[i]).node_type != NodeType::Unwalkable,
            forall|i: int|
                1 <= i < p.len() ==> #[trigger] p[i] == self.node_at(p[i].x as int, p[i].y as int),
    {
        assert forall|i: int|
            0 <= i < p.len() implies self.in_range((#[trigger] p[i]).x as int, p[i].y as int) && (i
            >= 1 ==> p[i].node_type != NodeType::Unwalkable && p[i] == self.node_at(
            p[i].x as int,
            p[i].y as int,
        )) by {
            if i > 0 {
                let succ = self.successors_of(p[i - 1].x as int, p[i - 1].y as int);
                assert(succ.contains(Successor { node: p[i], cost: 1u32 }));
                let j = choose|j: int| 0 <= j < succ.len() && succ[j] == Successor {
                    node: p[i],
                    cost: 1u32,
                };
                self.lemma_successors_sound(p[i - 1].x as int, p[i - 1].y as int);
            }
        }
        assert forall|i: int| 0 <= i < p.len() - 1 implies manhattan(#[trigger] p[i], p[i + 1])
            == 1 by {
            let succ = self.successors_of(p[i].x as int, p[i].y as int);
            assert(succ.contains(Successor { node: p[i + 1], cost: 1u32 }));
            let j = choose|j: int| 0 <= j < succ.len() && succ[j] == Successor {
                node: p[i + 1],
                cost: 1u32,
            };
            self.lemma_successors_sound(p[i].x as int, p[i].y as int);
            assert(manhattan(
                succ[j].node,
                Node { x: p[i].x, y: p[i].y, node_type: succ[j].node.node_type },
            ) == 1);
        }
    }

    /// A minimal-cost route from `start` to a cell equal to `goal`, both
    /// included, or `None` exactly when no route exists.  Search order and
    /// tie-breaking follow the deterministic neighbor order.
    pub fn get_path(&self, start: Node, goal: Node) -> (r: Option<Vec<Node>>)
        requires
            self.wf(),
            self.in_range(start.x as int, start.y as int),
            self.in_range(goal.x as int, goal.y as int),
        ensures
            match r {
                Some(p) => self.is_route(p@, start, goal) && forall|q: Seq<Node>|
                    self.is_route(q, start, goal) ==> p@.len() <= q.len(),
                None => forall|q: Seq<Node>| !self.is_route(q, start, goal),
            },
            r is Some <==> exists|q: Seq<Node>| self.is_route(q, start, goal),
    {
        let r = astar_search(self, start, goal);
        proof {
            if r is Some {
                assert(self.is_route(r.unwrap()@, start, goal));
            }
        }
        r
    }
}

/// Relies on pathfinding's `astar`: it returns a lowest-cost path from
/// `start` to a node for which the success check holds, comprising both
/// endpoints, or `None` exactly when no such path exists.  The graph
/// handed to it is the board's unit-cost 4-neighborhood (`get_successors`),
/// success is equality with `goal`, and the heuristic is the Manhattan
/// distance, which never overestimates the remaining cost on such a grid;
/// with unit edge costs a lowest-cost path is a shortest one.  The graph
/// is finite (at most one node per board cell, plus `start`), so the
/// search always terminates, and with both endpoints on the board every
/// cost it accumulates stays far below `u32::MAX`.
#[verifier::external_body]
fn astar_search(terrain: &PathfindingTerrain, start: Node, goal: Node) -> (r: Option<Vec<Node>>)
    requires
        terrain.wf(),
        terrain.in_range(start.x as int, start.y as int),
        terrain.in_range(goal.x as int, goal.y as int),
    ensures
        match r {
            Some(p) => terrain.is_route(p@, start, goal) && forall|q: Seq<Node>|
                terrain.is_route(q, start, goal) ==> p@.len() <= q.len(),
            None => forall|q: Seq<Node>| !terrain.is_route(q, start, goal),
        },
{
    pathfinding::prelude::astar(
        &start,
        |node: &Node| {
            terrain.get_successors(node).iter().map(|s| (s.node, s.cost)).collect::<Vec<_>>()
        },
        |node: &Node| node.manhattan_distance(&goal),
        |node: &Node| *node == goal,
    ).map(|(path, _cost)| path)
}

/// Builds the dense row-major cell vector for a `width` by `height`
/// board, every cell carrying its coordinates and the given type.
fn grid_nodes(width: i32, height: i32, node_type: NodeType) -> (r: Vec<Node>)
    requires
        1 <= width,
        1 <= height,
        width * height <= i32::MAX,
    ensures
        r@.len() == width * height,
        forall|x: int, y: int|
            0 <= x < width && 0 <= y < height ==> #[trigger] r@[y * width + x] == (Node {
                x: x as i32,
                y: y as i32,
                node_type,
            }),
{
    let mut nodes: Vec<Node> = Vec::new();
    let mut y: i32 = 0;
    while y < height
        invariant
            0 <= y <= height,
            1 <= width,
            1 <= height,
            width * height <= i32::MAX,
            nodes@.len() == y * width,
            forall|xx: int, yy: int|
                0 <= xx < width && 0 <= yy < y ==> #[trigger] nodes@[yy * width + xx] == (Node {
                    x: xx as i32,
                    y: yy as i32,
                    node_type,
                }),
        decreases height - y,
    {
        let mut x: i32 = 0;
        proof {
            lemma_idx_bounds(width as int, height as int, 0, y as int);
        }
        while x < width
            invariant
                0 <= x <= width,
                0 <= y < height,
                1 <= width,
                1 <= height,
                width * height <= i32::MAX,
                nodes@.len() == y * width + x,
                y * width + x <= width * height,
                forall|xx: int, yy: int|
                    0 <= xx < width && 0 <= yy < y ==> #[trigger] nodes@[yy * width + xx] == (Node {
                        x: xx as i32,
                        y: yy as i32,
                        node_type,
                    }),
                forall|xx: int|
                    0 <= xx < x ==> #[trigger] nodes@[y * width + xx] == (Node {
                        x: xx as i32,
                        y: y as i32,
                        node_type,
                    }),
            decreases width - x,
        {
            nodes.push(Node { x, y, node_type });
            x = x + 1;
            proof {
                let w = width as int;
                assert(y * width + x <= width * height) by (nonlinear_arith)
                    requires
                        0 <= x <= width,
                        0 <= y < height,
                ;
                assert forall|xx: int, yy: int| 0 <= xx < w && 0 <= yy < y
                    implies #[trigger] nodes@[yy * w + xx] == (Node {
                    x: xx as i32,
                    y: yy as i32,
                    node_type,
                }) by {
                    lemma_idx_bounds(w, y as int, xx, yy);
                    assert(w * y == y * w) by (nonlinear_arith);
                }
                assert forall|xx: int| 0 <= xx < x implies #[trigger] nodes@[y * w + xx] == (Node {
                    x: xx as i32,
                    y: y as i32,
                    node_type,
                }) by {
                }
            }
        }
        y = y + 1;
        proof {
            let w = width as int;
            assert(y * w == (y - 1) * w + w) by (nonlinear_arith);
            assert forall|xx: int, yy: int| 0 <= xx < w && 0 <= yy < y
                implies #[trigger] nodes@[yy * w + xx] == (Node {
                x: xx as i32,
                y: yy as i32,
                node_type,
            }) by {
                lemma_idx_bounds(w, y as int, xx, yy);
                assert(w * y == y * w) by (nonlinear_arith);
                if yy == y - 1 {
                    assert(nodes@[(y - 1) * w + xx] == Node {
                        x: xx as i32,
                        y: (y - 1) as i32,
                        node_type,
                    });
                }
            }
        }
    }
    proof {
        assert(nodes@.len() == height * width);
        assert(height * width == width * height) by (nonlinear_arith);
    }
    nodes
}

} // verus!
