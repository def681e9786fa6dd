//! Concrete scenarios for the solver's stated properties.

use xpbd::balls::{handle_ball_ball_collision, simulate_ball, Ball};
use xpbd::fixed::SCALE;
use xpbd::particles::solve_distance_constraints;
use xpbd::softbody::SoftBody;
use xpbd::spatial_hash::SpatialHash;
use xpbd::vec3::Vec3;

fn v(x: i64, y: i64, z: i64) -> Vec3 {
    Vec3 { x, y, z }
}

/// A unit tetrahedron: four vertices, volume one sixth.
fn unit_tet() -> SoftBody {
    let verts = vec![v(0, 0, 0), v(SCALE, 0, 0), v(0, SCALE, 0), v(0, 0, SCALE)];
    let tets = vec![0usize, 1, 2, 3];
    let edges = vec![0usize, 1, 0, 2, 0, 3, 1, 2, 1, 3, 2, 3];
    SoftBody::new(verts, tets, edges, Vec::new(), Vec::new(), 0, 0)
        .expect("valid tetrahedral mesh")
}

#[test]
fn mass_conservation_positive_tet() {
    let sb = unit_tet();
    // A positive-volume tetrahedron leaves every incident vertex with a
    // finite, strictly positive inverse mass.
    for j in 0..4 {
        assert!(sb.inv_mass[j] > 0);
        assert!(sb.inv_mass[j] <= 1_000_000_000_000);
    }
    // Volume 1/6, quarter 1/24, inverse mass 24 per vertex.
    let quarter = 166_666 / 4;
    let expected = (SCALE as i128 * SCALE as i128 / quarter as i128) as i64;
    assert_eq!(sb.inv_mass[0], expected);
}

#[test]
fn distance_constraint_converges() {
    // Two particles of equal mass, zero compliance, displaced from their
    // rest length of one unit to one and a half units.
    let mut pos = vec![v(0, 0, 0), v(1_500_000, 0, 0)];
    let inv_mass = vec![SCALE, SCALE];
    let ids = vec![0usize, 1usize];
    let rests = vec![SCALE];
    for _ in 0..20 {
        solve_distance_constraints(&mut pos, &inv_mass, &ids, &rests, 0);
    }
    let dx = pos[1].x - pos[0].x;
    assert!((dx - SCALE).abs() <= 1_000, "length settled at {}", dx);
    assert_eq!(pos[0].y, 0);
    assert_eq!(pos[1].y, 0);
}

#[test]
fn elastic_collision_exchanges_velocities() {
    // Equal masses, head on, restitution one: the velocities swap, so the
    // relative speed is preserved exactly.
    let mut a = Ball {
        pos: v(0, 0, 0),
        vel: v(SCALE, 0, 0),
        radius: SCALE,
        mass: SCALE,
        restitution: SCALE,
    };
    let mut b = Ball {
        pos: v(1_500_000, 0, 0),
        vel: v(-SCALE, 0, 0),
        radius: SCALE,
        mass: SCALE,
        restitution: SCALE,
    };
    let rel_before = a.vel.x - b.vel.x;
    handle_ball_ball_collision(&mut a, &mut b, SCALE);
    assert_eq!(a.vel.x, -SCALE);
    assert_eq!(b.vel.x, SCALE);
    assert_eq!((a.vel.x - b.vel.x).abs(), rel_before.abs());
}

#[test]
fn plastic_collision_zeroes_relative_velocity() {
    // Restitution zero: both bodies leave with the common mean velocity,
    // a relative normal velocity of exactly zero.
    let mut a = Ball {
        pos: v(0, 0, 0),
        vel: v(SCALE, 0, 0),
        radius: SCALE,
        mass: SCALE,
        restitution: 0,
    };
    let mut b = Ball {
        pos: v(1_500_000, 0, 0),
        vel: v(-SCALE, 0, 0),
        radius: SCALE,
        mass: SCALE,
        restitution: 0,
    };
    handle_ball_ball_collision(&mut a, &mut b, 0);
    assert_eq!(a.vel.x, b.vel.x);
}

#[test]
fn spatial_hash_has_no_false_negatives() {
    let points = vec![
        v(0, 0, 0),
        v(500_000, 0, 0),
        v(0, 800_000, 0),
        v(2_500_000, 0, 0),
        v(-700_000, 0, 0),
        v(0, 0, 900_000),
        v(5_000_000, 5_000_000, 5_000_000),
        v(-5_000_000, 0, 0),
        v(100_000, 100_000, 100_000),
        v(0, -600_000, 0),
    ];
    let mut hash = SpatialHash::new(SCALE, points.len());
    hash.create(&points);
    let radius = SCALE;
    let query_index = 0usize;
    hash.query(&points, query_index, radius);
    // Brute force: every point within the radius of the query point must
    // be in the result buffer.
    let q = points[query_index];
    for (i, p) in points.iter().enumerate() {
        let dx = (p.x - q.x) as i128;
        let dy = (p.y - q.y) as i128;
        let dz = (p.z - q.z) as i128;
        let d2 = dx * dx + dy * dy + dz * dz;
        if d2 <= (radius as i128) * (radius as i128) {
            assert!(
                hash.query_ids.contains(&i),
                "point {} within radius but missing from the query result",
                i
            );
        }
    }
}

#[test]
fn grab_release_restores_state() {
    let mut sb = unit_tet();
    let pos_before = sb.positions.clone();
    let vel_before = sb.velocities.clone();
    let mass_before = sb.inv_mass.clone();
    // Pick exactly at particle 2 and release without any movement, with
    // the particle's own (zero) velocity as the drag velocity.
    let p = sb.positions[2];
    sb.start_grab(p);
    assert_eq!(sb.grab_id, Some(2));
    assert_eq!(sb.inv_mass[2], 0);
    sb.end_grab(p, vel_before[2]);
    assert_eq!(sb.positions, pos_before);
    assert_eq!(sb.velocities, vel_before);
    assert_eq!(sb.inv_mass, mass_before);
    assert_eq!(sb.grab_id, None);
}

#[test]
fn dropped_ball_settles_on_ground() {
    // A ball of radius one dropped from height ten under standard gravity
    // with zero restitution comes to rest with its centre one radius above
    // the ground and no vertical velocity.
    let gravity = v(0, -9_810_000, 0);
    let mut ball = Ball {
        pos: v(0, 10 * SCALE, 0),
        vel: v(0, 0, 0),
        radius: SCALE,
        mass: SCALE,
        restitution: 0,
    };
    let dt = 16_666;
    for _ in 0..600 {
        simulate_ball(&mut ball, gravity, dt, 1, SCALE, 20 * SCALE, 0);
    }
    assert_eq!(ball.pos.y, SCALE);
    assert_eq!(ball.vel.y, 0);
}

#[test]
fn overlapping_balls_separate_to_contact() {
    // Two balls of radius one with centres one and a half apart: one
    // resolution pass leaves the centres exactly two apart along the
    // original separation axis.
    let mut a = Ball {
        pos: v(0, 0, 0),
        vel: v(0, 0, 0),
        radius: SCALE,
        mass: SCALE,
        restitution: SCALE,
    };
    let mut b = Ball {
        pos: v(1_500_000, 0, 0),
        vel: v(0, 0, 0),
        radius: SCALE,
        mass: SCALE,
        restitution: SCALE,
    };
    handle_ball_ball_collision(&mut a, &mut b, SCALE);
    assert_eq!(a.pos.x, -250_000);
    assert_eq!(b.pos.x, 1_750_000);
    assert_eq!(b.pos.x - a.pos.x, 2 * SCALE);
    assert_eq!(a.pos.y, 0);
    assert_eq!(b.pos.y, 0);
}
