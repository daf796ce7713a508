//! The drag-selection rectangle: its state machine over mouse events
//! and the strict-interior membership test that picks units.

use vstd::prelude::*;

use crate::geometry::Vec2i;
use crate::unit_module::Unit;

verus! {

/// Marker attached to a unit inside the selection rectangle.
pub struct SelectedUnit {}

/// An axis-aligned drag rectangle between two corners, with its signed
/// extent cached.
pub struct SelectionBox {
    pub start: Vec2i,
    pub end: Vec2i,
    pub width: i64,
    pub height: i64,
}

impl SelectionBox {
    pub open spec fn wf(self) -> bool {
        &&& self.start.in_world()
        &&& self.end.in_world()
        &&& self.width == self.end.x - self.start.x
        &&& self.height == self.end.y - self.start.y
    }

    /// Whether a point lies strictly inside the rectangle.
    pub open spec fn contains_point(self, p: Vec2i) -> bool {
        let min_x = if self.start.x <= self.end.x {
            self.start.x
        } else {
            self.end.x
        };
        let max_x = if self.start.x <= self.end.x {
            self.end.x
        } else {
            self.start.x
        };
        let min_y = if self.start.y <= self.end.y {
            self.start.y
        } else {
            self.end.y
        };
        let max_y = if self.start.y <= self.end.y {
            self.end.y
        } else {
            self.start.y
        };
        min_x < p.x < max_x && min_y < p.y < max_y
    }

    /// A collapsed rectangle at the origin.
    pub fn new() -> (r: SelectionBox)
        ensures
            r.wf(),
            r.start == (Vec2i { x: 0, y: 0 }),
            r.end == (Vec2i { x: 0, y: 0 }),
            r.width == 0,
            r.height == 0,
    {
        SelectionBox {
            start: Vec2i { x: 0, y: 0 },
            end: Vec2i { x: 0, y: 0 },
            width: 0,
            height: 0,
        }
    }

    /// A drag begins: both corners move to the press point.
    pub fn begin_drag(&mut self, pos: Vec2i)
        requires
            old(self).wf(),
            pos.in_world(),
        ensures
            final(self).wf(),
            final(self).start == pos,
            final(self).end == pos,
    {
        self.start = pos;
        self.end = pos;
        self.width = 0;
        self.height = 0;
    }

    /// The drag continues: the far corner follows the cursor and the
    /// cached extent is recomputed.
    pub fn drag_to(&mut self, pos: Vec2i)
        requires
            old(self).wf(),
            pos.in_world(),
        ensures
            final(self).wf(),
            final(self).start == old(self).start,
            final(self).end == pos,
    {
        self.end = pos;
        self.width = pos.x - self.start.x;
        self.height = pos.y - self.start.y;
    }

    /// The drag ends: the rectangle collapses back to the origin.
    pub fn release(&mut self)
        ensures
            final(self).wf(),
            final(self).start == (Vec2i { x: 0, y: 0 }),
            final(self).end == (Vec2i { x: 0, y: 0 }),
            final(self).width == 0,
            final(self).height == 0,
    {
        self.start = Vec2i { x: 0, y: 0 };
        self.end = Vec2i { x: 0, y: 0 };
        self.width = 0;
        self.height = 0;
    }
}

/// Whether a point lies strictly inside the rectangle.
pub fn point_in_selection(sel: &SelectionBox, p: Vec2i) -> (r: bool)
    ensures
        r == sel.contains_point(p),
{
    let min_x = if sel.start.x <= sel.end.x {
        sel.start.x
    } else {
        sel.end.x
    };
    let max_x = if sel.start.x <= sel.end.x {
        sel.end.x
    } else {
        sel.start.x
    };
    let min_y = if sel.start.y <= sel.end.y {
        sel.start.y
    } else {
        sel.end.y
    };
    let max_y = if sel.start.y <= sel.end.y {
        sel.end.y
    } else {
        sel.start.y
    };
    min_x < p.x && p.x < max_x && min_y < p.y && p.y < max_y
}

/// The indices of the units inside the rectangle, in index order.
pub open spec fn selection_indices(sel: SelectionBox, units: Seq<Unit>) -> Seq<usize>
    decreases units.len(),
{
    if units.len() == 0 {
        seq![]
    } else {
        let rest = selection_indices(sel, units.drop_last());
        if sel.contains_point(units.last().position) {
            rest.push((units.len() - 1) as usize)
        } else {
            rest
        }
    }
}

/// Picks the units strictly inside the selection rectangle, returning
/// their indices in increasing order.
pub fn get_units_in_selection_system(sel: &SelectionBox, units: &Vec<Unit>) -> (r: Vec<usize>)
    ensures
        r@ == selection_indices(*sel, units@),
{
    let mut picked: Vec<usize> = Vec::new();
    let n = units.len();
    let mut i: usize = 0;
    while i < n
        invariant
            n == units@.len(),
            i <= n,
            picked@ == selection_indices(*sel, units@.take(i as int)),
        decreases n - i,
    {
        let ghost pre = units@.take(i as int);
        if point_in_selection(sel, units[i].position) {
            picked.push(i);
        }
        i = i + 1;
        proof {
            let cur = units@.take(i as int);
            assert(cur.last() == units@[i - 1]);
            assert(cur.drop_last() =~= pre);
        }
    }
    proof {
        assert(units@.take(n as int) =~= units@);
    }
    picked
}

} // verus!
