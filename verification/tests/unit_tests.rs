use rts_core::geometry::Vec2i;
use rts_core::unit_module::{
    cleanup_move_points_system, collision_avoidance_system, initialize_units,
    move_units_along_path_system, spawn_unit, update_move_point_timer_system, CollisionAvoidance,
    MovePoint, Unit, UnitPath,
};

fn unit_at(x: i64, y: i64) -> Unit {
    Unit {
        position: Vec2i { x, y },
        avoidance: CollisionAvoidance { radius: 500 },
        path: None,
    }
}

fn unit_with_route(x: i64, y: i64, route: Vec<(i64, i64)>) -> Unit {
    Unit {
        position: Vec2i { x, y },
        avoidance: CollisionAvoidance { radius: 500 },
        path: Some(UnitPath {
            path: route.into_iter().map(|(px, py)| Vec2i { x: px, y: py }).collect(),
            current_node: 0,
        }),
    }
}

#[test]
fn unit_follows_route_to_the_end_and_goes_idle() {
    // route over cells (0,0), (1,0), (2,0) in milli-units, speed 10/s
    let mut units = vec![unit_with_route(0, 0, vec![(0, 0), (1000, 0), (2000, 0)])];
    let mut cursors: Vec<usize> = vec![0];
    for _ in 0..40 {
        move_units_along_path_system(&mut units, 100);
        if let Some(p) = &units[0].path {
            // the cursor never decreases
            assert!(p.current_node >= *cursors.last().unwrap());
            cursors.push(p.current_node);
        }
    }
    assert_eq!(units[0].position, Vec2i { x: 2000, y: 0 });
    assert!(units[0].path.is_none());
}

#[test]
fn movement_step_is_exact() {
    // 1 unit away from the waypoint, one 16 ms tick at 10 units/s:
    // 1000 * 10000 * 16 / (1000 * 1000) = 160 milli-units
    let mut units = vec![unit_with_route(0, 0, vec![(1000, 0)])];
    move_units_along_path_system(&mut units, 16);
    assert_eq!(units[0].position, Vec2i { x: 160, y: 0 });
    let p = units[0].path.as_ref().unwrap();
    assert_eq!(p.current_node, 0);
}

#[test]
fn waypoint_within_epsilon_advances_cursor_without_moving() {
    let mut units = vec![unit_with_route(950, 0, vec![(1000, 0)])];
    move_units_along_path_system(&mut units, 100);
    assert_eq!(units[0].position, Vec2i { x: 950, y: 0 });
    assert_eq!(units[0].path.as_ref().unwrap().current_node, 1);
}

#[test]
fn overlapping_units_push_apart() {
    // radius 0.5 each, placed 0.2 apart: each receives a non-zero,
    // oppositely-signed displacement and the separation grows
    let mut units = vec![unit_at(0, 0), unit_at(200, 0)];
    collision_avoidance_system(&mut units, 16);
    // avoidance velocity is -/+ 4000 milli/s; over 16 ms that is 64 milli
    assert_eq!(units[0].position, Vec2i { x: -64, y: 0 });
    assert_eq!(units[1].position, Vec2i { x: 264, y: 0 });
    let separation = units[1].position.x - units[0].position.x;
    assert!(separation > 200);
}

#[test]
fn distant_units_receive_no_avoidance() {
    // more than 1.0 world unit apart: no displacement at all
    let mut units = vec![unit_at(0, 0), unit_at(1001, 0)];
    collision_avoidance_system(&mut units, 16);
    assert_eq!(units[0].position, Vec2i { x: 0, y: 0 });
    assert_eq!(units[1].position, Vec2i { x: 1001, y: 0 });
}

#[test]
fn coincident_units_are_skipped_as_degenerate() {
    let mut units = vec![unit_at(300, 300), unit_at(300, 300)];
    collision_avoidance_system(&mut units, 16);
    assert_eq!(units[0].position, Vec2i { x: 300, y: 300 });
    assert_eq!(units[1].position, Vec2i { x: 300, y: 300 });
}

#[test]
fn initial_population_stands_on_a_row() {
    let units = initialize_units();
    assert_eq!(units.len(), 3);
    assert_eq!(units[0].position, Vec2i { x: 10_000, y: 2_100 });
    assert_eq!(units[1].position, Vec2i { x: 11_200, y: 2_100 });
    assert_eq!(units[2].position, Vec2i { x: 11_500, y: 2_100 });
    for u in &units {
        assert_eq!(u.avoidance.radius, 500);
        assert!(u.path.is_none());
    }
}

#[test]
fn spawned_unit_appends_to_the_population() {
    let mut units = initialize_units();
    spawn_unit(&mut units, Vec2i { x: 1, y: 2 });
    assert_eq!(units.len(), 4);
    assert_eq!(units[3].position, Vec2i { x: 1, y: 2 });
}

#[test]
fn move_point_timers_advance_and_expire() {
    let mut points = vec![
        MovePoint { point: Vec2i { x: 0, y: 0 }, time: 0 },
        MovePoint { point: Vec2i { x: 5, y: 5 }, time: 990 },
    ];
    update_move_point_timer_system(&mut points, 16);
    assert_eq!(points[0].time, 16);
    assert_eq!(points[1].time, 1006);
    cleanup_move_points_system(&mut points);
    assert_eq!(points.len(), 1);
    assert_eq!(points[0].point, Vec2i { x: 0, y: 0 });
}
