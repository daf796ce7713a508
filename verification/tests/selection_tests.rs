use rts_core::geometry::Vec2i;
use rts_core::selection_module::{
    get_units_in_selection_system, point_in_selection, SelectionBox,
};
use rts_core::unit_module::{CollisionAvoidance, Unit};

fn unit_at(x: i64, y: i64) -> Unit {
    Unit {
        position: Vec2i { x, y },
        avoidance: CollisionAvoidance { radius: 500 },
        path: None,
    }
}

#[test]
fn drag_updates_the_box_and_release_collapses_it() {
    let mut sel = SelectionBox::new();
    sel.begin_drag(Vec2i { x: 100, y: 200 });
    sel.drag_to(Vec2i { x: 500, y: 50 });
    assert_eq!(sel.start, Vec2i { x: 100, y: 200 });
    assert_eq!(sel.end, Vec2i { x: 500, y: 50 });
    assert_eq!(sel.width, 400);
    assert_eq!(sel.height, -150);
    sel.release();
    assert_eq!(sel.width, 0);
    assert_eq!(sel.height, 0);
    assert_eq!(sel.start, Vec2i { x: 0, y: 0 });
}

#[test]
fn membership_is_strictly_inside_whatever_the_drag_direction() {
    let mut sel = SelectionBox::new();
    sel.begin_drag(Vec2i { x: 1000, y: 1000 });
    sel.drag_to(Vec2i { x: 0, y: 0 });
    assert!(point_in_selection(&sel, Vec2i { x: 500, y: 500 }));
    // the border does not count
    assert!(!point_in_selection(&sel, Vec2i { x: 0, y: 500 }));
    assert!(!point_in_selection(&sel, Vec2i { x: 500, y: 1000 }));
    assert!(!point_in_selection(&sel, Vec2i { x: 1500, y: 500 }));
}

#[test]
fn selection_picks_unit_indices_in_order() {
    let mut sel = SelectionBox::new();
    sel.begin_drag(Vec2i { x: 0, y: 0 });
    sel.drag_to(Vec2i { x: 1000, y: 1000 });
    let units = vec![
        unit_at(500, 500),
        unit_at(2000, 500),
        unit_at(999, 999),
        unit_at(1000, 500),
    ];
    let picked = get_units_in_selection_system(&sel, &units);
    assert_eq!(picked, vec![0, 2]);
}
