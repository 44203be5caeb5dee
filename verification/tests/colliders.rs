use rosten::colliders::{Hitbox, HitboxChunk, HitboxManager, Line};
use rosten::frac::Frac;

fn frac(n: i128, d: i128) -> Frac {
    Frac { num: n, den: d }
}

#[test]
fn test_line_collision() {
    let l1 = Line::from_start_end((0, 0), (0, 10));
    let l2 = Line::from_start_end((10, 0), (10, 10));

    assert!(HitboxManager::line_collision(&l1, (10, 0), &l2).eq_frac(&frac(1, 1)));
    assert!(HitboxManager::line_collision(&l1, (20, 0), &l2).eq_frac(&frac(1, 2)));

    let l1 = Line::from_start_end((-2, 0), (0, 10));
    let l2 = Line::from_start_end((12, 0), (10, 10));

    assert!(HitboxManager::line_collision(&l1, (10, 0), &l2).eq_frac(&frac(1, 1)));
    assert!(HitboxManager::line_collision(&l1, (20, 0), &l2).eq_frac(&frac(1, 2)));

    let l1 = Line::from_start_end((0, 0), (0, 10));
    let l2 = Line::from_start_end((5, 10), (10, 10));

    assert!(HitboxManager::line_collision(&l1, (5, 5), &l2).eq_frac(&frac(1, 1)));
    assert!(HitboxManager::line_collision(&l1, (10, 10), &l2).eq_frac(&frac(1, 2)));

    // A near-grazing case, in 1/65536 world units rounded to the
    // nearest unit.
    let l1 = Line::from_position_direction((8438497, 2542566), (0, 1048576));
    let l2 = Line::from_position_direction((10420224, 2162688), (-917504, 0));
    let movement = (33418, 0);

    let result = HitboxManager::line_collision(&l1, movement, &l2);
    // -1 <= result <= 1
    assert!(result.den > 0);
    assert!(result.num <= result.den && -result.num <= result.den);
}

#[test]
fn swept_collision_orthogonal_wall() {
    let mut manager = HitboxManager::new(128, 128);
    let wall = Hitbox { min_x: 15, min_y: -5, max_x: 25, max_y: 15 };
    manager.insert(wall);

    let moving = Hitbox { min_x: 0, min_y: 0, max_x: 10, max_y: 10 };
    let (rx, ry) = manager.moving_hit_test(moving, (20, 0));
    // stops after five units: clamped movement (5, 0), t = 1/4
    assert!(rx.eq_frac(&frac(5, 1)));
    assert!(ry.eq_frac(&frac(0, 1)));
}

#[test]
fn swept_collision_no_obstruction() {
    let mut manager = HitboxManager::new(128, 128);
    let far_wall = Hitbox { min_x: 2015, min_y: -5, max_x: 2025, max_y: 15 };
    manager.insert(far_wall);

    let moving = Hitbox { min_x: 0, min_y: 0, max_x: 10, max_y: 10 };
    let (rx, ry) = manager.moving_hit_test(moving, (20, 0));
    // the full unmodified movement comes back (t = 1)
    assert!(rx.eq_frac(&frac(20, 1)));
    assert!(ry.eq_frac(&frac(0, 1)));
}

#[test]
fn swept_collision_vertical_wall() {
    let mut manager = HitboxManager::new(128, 128);
    let wall = Hitbox { min_x: -5, min_y: 30, max_x: 15, max_y: 40 };
    manager.insert(wall);

    let moving = Hitbox { min_x: 0, min_y: 0, max_x: 10, max_y: 10 };
    let (rx, ry) = manager.moving_hit_test(moving, (0, 25));
    // contact after twenty units, the rest absorbed by the wall
    assert!(rx.eq_frac(&frac(0, 1)));
    assert!(ry.eq_frac(&frac(20, 1)));
}

#[test]
fn chunk_bounding_box_tracks_inserts_and_removals() {
    let mut chunk = HitboxChunk::new();
    assert!(chunk.bounding_box().is_none());

    let a = Hitbox { min_x: 0, min_y: 0, max_x: 10, max_y: 10 };
    let b = Hitbox { min_x: 20, min_y: -5, max_x: 30, max_y: 5 };
    chunk.insert(a);
    assert_eq!(
        chunk.bounding_box(),
        Some(Hitbox { min_x: 0, min_y: 0, max_x: 10, max_y: 10 })
    );
    chunk.insert(b);
    assert_eq!(
        chunk.bounding_box(),
        Some(Hitbox { min_x: 0, min_y: -5, max_x: 30, max_y: 10 })
    );
    // duplicate insert has no effect
    chunk.insert(a);
    assert_eq!(chunk.elements().len(), 2);

    // removal recomputes the box from scratch and matches a fresh scan
    chunk.remove(b);
    assert_eq!(
        chunk.bounding_box(),
        Some(Hitbox { min_x: 0, min_y: 0, max_x: 10, max_y: 10 })
    );
    chunk.remove(a);
    assert!(chunk.bounding_box().is_none());
}

#[test]
fn manager_routes_by_minimum_corner_chunk() {
    let mut manager = HitboxManager::new(128, 128);
    let near = Hitbox { min_x: -1, min_y: -1, max_x: 5, max_y: 5 };
    manager.insert(near);
    // the hitbox straddles the origin but is indexed by its minimum
    // corner's chunk (-1, -1); a query from the origin chunk still
    // reaches it through the 3-by-3 neighbourhood
    let moving = Hitbox { min_x: 10, min_y: 0, max_x: 14, max_y: 4 };
    let (rx, _ry) = manager.moving_hit_test(moving, (-8, 0));
    // moving left by eight units hits the wall's right edge at x = 5
    // after five units
    assert!(rx.eq_frac(&Frac { num: -5, den: 1 }));
}

#[test]
fn hitbox_new_validates() {
    assert!(Hitbox::new([0, 0], [5, 5]).is_some());
    assert!(Hitbox::new([6, 0], [5, 5]).is_none());
    assert!(Hitbox::new([0, 0], [5000, 5]).is_none());
    let h = Hitbox::new([1, 2], [3, 4]).unwrap();
    assert_eq!((h.min_x, h.min_y, h.max_x, h.max_y), (1, 2, 3, 4));
}

#[test]
fn hitbox_intersects_is_open() {
    let a = Hitbox { min_x: 0, min_y: 0, max_x: 10, max_y: 10 };
    let touching = Hitbox { min_x: 10, min_y: 0, max_x: 20, max_y: 10 };
    let overlapping = Hitbox { min_x: 9, min_y: 9, max_x: 20, max_y: 20 };
    assert!(!a.intersects(&touching));
    assert!(a.intersects(&overlapping));
}

#[test]
fn floor_div_rounds_toward_negative_infinity() {
    assert_eq!(rosten::floor_div(5, 128), 0);
    assert_eq!(rosten::floor_div(-5, 128), -1);
    assert_eq!(rosten::floor_div(-128, 128), -1);
    assert_eq!(rosten::floor_div(-129, 128), -2);
    assert_eq!(rosten::floor_div(255, 128), 1);
}
