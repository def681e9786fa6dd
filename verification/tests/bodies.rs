//! Behaviour of the bodies and the interaction layer.

use xpbd::balls::{
    flipper_simulate, handle_ball_border_collision, handle_ball_flipper_collision,
    handle_ball_obstacle_collision, handle_wall_collisions, simulate, Ball, Flipper, Obstacle,
};
use xpbd::beads::{solve_pendulum_chain, Bead};
use xpbd::skinning::compute_skinning_info;
use xpbd::cloth::{find_tri_neighbors, Cloth};
use xpbd::fixed::SCALE;
use xpbd::grab::{handle_grab_end, handle_grab_start, Grabbed, GrabbedEntity};
use xpbd::intersect::Ray;
use xpbd::skinning::{update_visual_vertices, SkinWeight};
use xpbd::softbody::SoftBody;
use xpbd::vec3::Vec3;

fn v(x: i64, y: i64, z: i64) -> Vec3 {
    Vec3 { x, y, z }
}

fn unit_tet_body() -> SoftBody {
    let verts = vec![v(0, 0, 0), v(SCALE, 0, 0), v(0, SCALE, 0), v(0, 0, SCALE)];
    let tets = vec![0usize, 1, 2, 3];
    let edges = vec![0usize, 1, 0, 2, 0, 3, 1, 2, 1, 3, 2, 3];
    SoftBody::new(verts, tets, edges, Vec::new(), Vec::new(), 0, 0)
        .expect("valid tetrahedral mesh")
}

#[test]
fn tet_volume_of_unit_tetrahedron() {
    let sb = unit_tet_body();
    // One sixth, truncated in raw millionths.
    assert_eq!(sb.get_tet_volume(0), 166_666);
    assert_eq!(sb.rest_volumes[0], 166_666);
    // All six edges carry their rest lengths; the axis edges are exactly
    // one unit.
    assert_eq!(sb.edge_lengths[0], SCALE);
    assert_eq!(sb.edge_lengths[1], SCALE);
    assert_eq!(sb.edge_lengths[2], SCALE);
}

#[test]
fn pinned_particles_never_move() {
    let mut sb = unit_tet_body();
    // Pin vertex zero by hand, then integrate under gravity.
    sb.inv_mass[0] = 0;
    let before = sb.positions[0];
    for _ in 0..10 {
        sb.pre_solve(16_666, v(0, -9_810_000, 0));
        sb.solve(16_666);
        sb.post_solve(16_666);
    }
    assert_eq!(sb.positions[0], before);
    assert_eq!(sb.velocities[0], v(0, 0, 0));
    // Free vertices did fall.
    assert!(sb.positions[1].y < 0 || sb.positions[1].y == 0);
    assert!(sb.velocities[1].y < 0 || sb.positions[1].y == 0);
}

#[test]
fn degenerate_time_step_is_a_no_op() {
    let mut sb = unit_tet_body();
    let pos = sb.positions.clone();
    let vel = sb.velocities.clone();
    sb.pre_solve(0, v(0, -9_810_000, 0));
    sb.solve(0);
    sb.post_solve(0);
    assert_eq!(sb.positions, pos);
    assert_eq!(sb.velocities, vel);
}

#[test]
fn ground_clamp_stops_falling_particles() {
    let mut sb = unit_tet_body();
    // Long free fall: the ground plane at height zero catches every free
    // particle.
    for _ in 0..2000 {
        sb.pre_solve(16_666, v(0, -9_810_000, 0));
        sb.solve(16_666);
        sb.post_solve(16_666);
    }
    // The constraint passes may leave a slight penetration; the next
    // integration's ground clamp lifts every free particle back out.
    sb.pre_solve(16_666, v(0, -9_810_000, 0));
    for j in 0..4 {
        assert!(sb.positions[j].y >= 0);
    }
}

#[test]
fn bumper_pushes_ball_and_scores() {
    let mut ball = Ball {
        pos: v(1_500_000, 0, 0),
        vel: v(-SCALE, 0, 0),
        radius: SCALE,
        mass: SCALE,
        restitution: SCALE,
    };
    let bumper = Obstacle { pos: v(0, 0, 0), radius: SCALE, push_velocity: 3 * SCALE };
    let mut score = 0u64;
    handle_ball_obstacle_collision(&mut ball, &bumper, &mut score);
    assert_eq!(score, 1);
    // Pushed out to exact contact and fired outward with the push speed.
    assert_eq!(ball.pos.x, 2 * SCALE);
    assert_eq!(ball.vel.x, 3 * SCALE);
    // Once clearly separated, another pass does not score.
    ball.pos.x = 3 * SCALE;
    handle_ball_obstacle_collision(&mut ball, &bumper, &mut score);
    assert_eq!(score, 1);
}

#[test]
fn border_pushes_inside_ball_off_the_wall() {
    // A counter-clockwise square border of half-width ten.
    let pts = vec![
        v(10 * SCALE, -10 * SCALE, 0),
        v(10 * SCALE, 10 * SCALE, 0),
        v(-10 * SCALE, 10 * SCALE, 0),
        v(-10 * SCALE, -10 * SCALE, 0),
    ];
    let mut ball = Ball {
        pos: v(9_500_000, 0, 0),
        vel: v(SCALE, 0, 0),
        radius: SCALE,
        mass: SCALE,
        restitution: 0,
    };
    handle_ball_border_collision(&mut ball, &pts);
    // Pushed back to one radius from the right wall, the outward velocity
    // absorbed by the zero restitution.
    assert_eq!(ball.pos.x, 9 * SCALE);
    assert_eq!(ball.vel.x, 0);
}

#[test]
fn flipper_drive_clamps_at_the_stop() {
    let mut f = Flipper {
        pos: v(0, 0, 0),
        tip: v(SCALE, 0, 0),
        radius: 500_000,
        rotation: 0,
        prev_rotation: 0,
        rest_angle: 0,
        max_rotation: SCALE,
        angular_velocity: 10 * SCALE,
        sign: SCALE,
        current_angular_velocity: 0,
    };
    // Held pressed long enough, the rotation pins at the stop and the
    // measured angular velocity drops to zero.
    for _ in 0..20 {
        flipper_simulate(&mut f, 16_666, true);
    }
    assert_eq!(f.rotation, SCALE);
    assert_eq!(f.current_angular_velocity, 0);
    // Released, it returns to rest.
    for _ in 0..20 {
        flipper_simulate(&mut f, 16_666, false);
    }
    assert_eq!(f.rotation, 0);
}

#[test]
fn still_flipper_pushes_ball_out() {
    let f = Flipper {
        pos: v(0, 0, 0),
        tip: v(2 * SCALE, 0, 0),
        radius: 500_000,
        rotation: 0,
        prev_rotation: 0,
        rest_angle: 0,
        max_rotation: SCALE,
        angular_velocity: 10 * SCALE,
        sign: SCALE,
        current_angular_velocity: 0,
    };
    let mut ball = Ball {
        pos: v(SCALE, SCALE, 0),
        vel: v(0, -SCALE, 0),
        radius: SCALE,
        mass: SCALE,
        restitution: SCALE,
    };
    // Overlapping the capsule from above: the ball is pushed up to exact
    // contact and, the flipper standing still, its approach is cancelled.
    handle_ball_flipper_collision(&mut ball, &f);
    assert_eq!(ball.pos, v(SCALE, 1_500_000, 0));
    assert_eq!(ball.vel.y, 0);
}

#[test]
fn pinball_tick_scores_and_separates() {
    let mut balls = vec![
        Ball {
            pos: v(0, 0, 0),
            vel: v(0, 0, 0),
            radius: SCALE,
            mass: SCALE,
            restitution: SCALE,
        },
        Ball {
            pos: v(1_500_000, 0, 0),
            vel: v(0, 0, 0),
            radius: SCALE,
            mass: SCALE,
            restitution: SCALE,
        },
    ];
    let obstacles = vec![Obstacle {
        pos: v(0, -2_500_000, 0),
        radius: SCALE,
        push_velocity: 2 * SCALE,
    }];
    let flippers: Vec<Flipper> = vec![];
    let border: Vec<Vec3> = vec![];
    let mut score = 0u64;
    simulate(
        &mut balls,
        &obstacles,
        &flippers,
        &border,
        v(0, 0, 0),
        16_666,
        &mut score,
    );
    // The overlapping pair separated to exact contact.
    assert_eq!(balls[1].pos.x - balls[0].pos.x, 2 * SCALE);
    assert_eq!(score, 0);
}

#[test]
fn cloth_builder_finds_edges_and_pairs() {
    // Two triangles sharing the edge between vertices one and two.
    let verts = vec![v(0, 0, 0), v(SCALE, 0, 0), v(0, SCALE, 0), v(SCALE, SCALE, 0)];
    let indices = vec![0usize, 1, 2, 1, 3, 2];
    let neighbors = find_tri_neighbors(&indices);
    // Half-edge 1 runs from vertex one to two; half-edge 5 runs back.
    assert_eq!(neighbors[1], 5);
    assert_eq!(neighbors[5], 1);
    assert_eq!(neighbors[0], 6);
    let cloth = Cloth::new(verts, indices, 100, 0, &vec![0usize]).expect("valid sheet");
    // Five unique edges, and one shared edge contributing a bending pair
    // from each side.
    assert_eq!(cloth.stretching_lengths.len(), 5);
    assert_eq!(cloth.bending_lengths.len(), 2);
    // The pinned vertex holds inverse mass zero; the free corners do not.
    assert_eq!(cloth.inv_mass[0], 0);
    assert!(cloth.inv_mass[3] > 0);
}

#[test]
fn pinned_cloth_corner_hangs() {
    let verts = vec![v(0, 0, 0), v(SCALE, 0, 0), v(0, SCALE, 0), v(SCALE, SCALE, 0)];
    let indices = vec![0usize, 1, 2, 1, 3, 2];
    let mut cloth = Cloth::new(verts, indices, 100, 0, &vec![2usize]).expect("valid sheet");
    let anchor = cloth.positions[2];
    for _ in 0..100 {
        cloth.pre_solve(16_666, v(0, -9_810_000, 0));
        cloth.solve(16_666);
        cloth.post_solve(16_666);
    }
    // The pin never moves; the rest of the sheet stays connected to it
    // within the stretch limits of the solve.
    assert_eq!(cloth.positions[2], anchor);
    assert_eq!(cloth.inv_mass[2], 0);
}

#[test]
fn grab_state_machine_picks_and_releases_a_ball() {
    let mut balls = vec![Ball {
        pos: v(0, 0, 5 * SCALE),
        vel: v(SCALE, 0, 0),
        radius: SCALE,
        mass: SCALE,
        restitution: SCALE,
    }];
    let mut bodies: Vec<SoftBody> = vec![];
    let mut grabbed = Grabbed {
        entity: GrabbedEntity::Idle,
        distance: 0,
        time: 0,
        prev_pos: v(0, 0, 0),
        offset: v(0, 0, 0),
    };
    let ray = Ray { origin: v(0, 0, 0), direction: v(0, 0, SCALE) };
    handle_grab_start(&mut grabbed, ray, &mut balls, &mut bodies);
    // The ball under the ray is held at its entry distance with its
    // velocity zeroed.
    assert_eq!(grabbed.entity, GrabbedEntity::Ball(0));
    assert_eq!(grabbed.distance, 4 * SCALE);
    assert_eq!(balls[0].vel, v(0, 0, 0));
    handle_grab_end(&mut grabbed, ray, 16_666, &mut balls, &mut bodies);
    assert_eq!(grabbed.entity, GrabbedEntity::Idle);
}

#[test]
fn soft_body_picking_reports_the_surface_hit() {
    let mut sb = unit_tet_body();
    sb.recompute_bounds();
    // The surface triangle on the first three vertices lies in the plane
    // of the first two axes; a ray across that plane through the
    // triangle's interior reports a hit.
    let ray = Ray { origin: v(200_000, 200_000, -5 * SCALE), direction: v(0, 0, SCALE) };
    let hit = sb.intersect(ray);
    assert!(hit.is_some());
    assert_eq!(hit, Some(5 * SCALE));
}

#[test]
fn skinned_body_picks_through_its_skin() {
    // A body whose skin is a single large triangle ahead of the
    // tetrahedron: picking reports the skin hit, not the tetrahedral
    // faces.
    let verts = vec![v(0, 0, 0), v(SCALE, 0, 0), v(0, SCALE, 0), v(0, 0, SCALE)];
    let tets = vec![0usize, 1, 2, 3];
    let edges = vec![0usize, 1, 0, 2, 0, 3, 1, 2, 1, 3, 2, 3];
    let skin_verts = vec![
        v(-SCALE, -SCALE, 2 * SCALE),
        v(3 * SCALE, -SCALE, 2 * SCALE),
        v(-SCALE, 3 * SCALE, 2 * SCALE),
    ];
    let skin_ids = vec![0usize, 1, 2];
    let mut sb = SoftBody::new(verts, tets, edges, skin_verts, skin_ids, 0, 0)
        .expect("valid tetrahedral mesh");
    sb.center = v(0, 0, 2 * SCALE);
    sb.radius = 5 * SCALE;
    let ray = Ray { origin: v(200_000, 200_000, 0), direction: v(0, 0, SCALE) };
    assert_eq!(sb.intersect(ray), Some(2 * SCALE));
}

#[test]
fn skin_follows_the_simulated_particles() {
    // One skin vertex bound at the centroid follows a shifted body.
    let verts = vec![v(0, 0, 0), v(SCALE, 0, 0), v(0, SCALE, 0), v(0, 0, SCALE)];
    let tets = vec![0usize, 1, 2, 3];
    let edges = vec![0usize, 1, 0, 2, 0, 3, 1, 2, 1, 3, 2, 3];
    let skin_verts = vec![v(250_000, 250_000, 250_000)];
    let skin_ids: Vec<usize> = vec![];
    let mut sb = SoftBody::new(verts, tets, edges, skin_verts, skin_ids, 0, 0)
        .expect("valid tetrahedral mesh");
    assert_eq!(sb.skin[0].tet, 0);
    // Translate every particle by one unit and re-skin.
    for j in 0..4 {
        let p = sb.positions[j];
        sb.positions[j] = v(p.x + SCALE, p.y, p.z);
    }
    sb.update_visual();
    let moved = sb.visual_vertices[0];
    assert!((moved.x - 1_250_000).abs() <= 10);
    assert!((moved.y - 250_000).abs() <= 10);
}

#[test]
fn skinning_follows_the_tetrahedron() {
    let sb = unit_tet_body();
    let skin = vec![SkinWeight { tet: 0, b0: 250_000, b1: 250_000, b2: 250_000 }];
    let mut visual = vec![v(0, 0, 0)];
    update_visual_vertices(&mut visual, &skin, &sb.positions, &sb.tet_ids);
    // Equal barycentric weights land on the centroid of the four corners.
    assert_eq!(visual[0], v(250_000, 250_000, 250_000));
}

#[test]
fn bead_snaps_back_onto_the_wire() {
    let mut bead = Bead {
        pos: v(2 * SCALE, 0, 0),
        prev_pos: v(2 * SCALE, 0, 0),
        vel: v(0, 0, 0),
        radius: 100_000,
        mass: SCALE,
    };
    bead.keep_on_wire(v(0, 0, 0), SCALE);
    assert_eq!(bead.pos, v(SCALE, 0, 0));
    // A bead already on the wire stays put.
    bead.keep_on_wire(v(0, 0, 0), SCALE);
    assert_eq!(bead.pos, v(SCALE, 0, 0));
}

#[test]
fn bead_step_recovers_velocity() {
    let mut bead = Bead {
        pos: v(0, 2 * SCALE, 0),
        prev_pos: v(0, 2 * SCALE, 0),
        vel: v(0, 0, 0),
        radius: 100_000,
        mass: SCALE,
    };
    bead.start_step(16_666, v(0, -9_810_000, 0));
    assert_eq!(bead.prev_pos, v(0, 2 * SCALE, 0));
    assert!(bead.pos.y < 2 * SCALE);
    assert!(bead.vel.y < 0);
    bead.end_step(16_666);
    assert!(bead.vel.y < 0);
}

#[test]
fn pendulum_chain_pulls_links_to_length() {
    // One link of rest length one, stretched to one and a half below the
    // origin anchor.
    let mut pos = vec![v(0, -1_500_000, 0)];
    let inv_mass = vec![SCALE];
    let lengths = vec![SCALE];
    for _ in 0..30 {
        solve_pendulum_chain(&mut pos, &inv_mass, &lengths);
    }
    assert!((pos[0].y + SCALE).abs() <= 1_000, "link settled at {}", pos[0].y);
}

#[test]
fn skinning_info_binds_an_interior_vertex() {
    let sb = unit_tet_body();
    // The centroid lies strictly inside the single tetrahedron.
    let visual = vec![v(250_000, 250_000, 250_000)];
    let skin = compute_skinning_info(&visual, &sb.positions, &sb.tet_ids);
    assert_eq!(skin.len(), 1);
    assert_eq!(skin[0].tet, 0);
    assert!(skin[0].b0 >= 200_000 && skin[0].b0 <= 300_000);
    assert!(skin[0].b1 >= 200_000 && skin[0].b1 <= 300_000);
    assert!(skin[0].b2 >= 200_000 && skin[0].b2 <= 300_000);
}

#[test]
fn flat_walls_reflect_both_axes() {
    let mut ball = Ball {
        pos: v(11 * SCALE, -12 * SCALE, 0),
        vel: v(2 * SCALE, -3 * SCALE, 0),
        radius: SCALE,
        mass: SCALE,
        restitution: SCALE,
    };
    handle_wall_collisions(&mut ball, 10 * SCALE, 10 * SCALE, SCALE);
    // Clamped to both walls, both velocity components fully reflected.
    assert_eq!(ball.pos, v(10 * SCALE, -10 * SCALE, 0));
    assert_eq!(ball.vel, v(-2 * SCALE, 3 * SCALE, 0));
}

#[test]
fn grid_cloth_builds_the_sheet() {
    // A three-by-three grid: nine vertices, eight triangles, with no
    // jitter and the top row pinned.
    let jitter = vec![0i64; 27];
    let pins = vec![2usize, 5, 8];
    let cloth = Cloth::new_grid(3, 3, SCALE, 100, 0, &jitter, &pins).expect("valid grid");
    assert_eq!(cloth.vert_count(), 9);
    assert_eq!(cloth.tri_count(), 8);
    // Vertex (1, 0) sits one spacing right of the left column, centred:
    // x = 1 - 3/2 = -0.5.
    assert_eq!(cloth.positions[3], v(-500_000, 0, 0));
    assert_eq!(cloth.positions[4], v(-500_000, SCALE, 0));
    // Pins hold, interior vertices carry mass.
    assert_eq!(cloth.inv_mass[2], 0);
    assert!(cloth.inv_mass[4] > 0);
}

#[test]
fn grid_cloth_rejects_bad_jitter() {
    let jitter = vec![0i64; 5];
    assert!(Cloth::new_grid(3, 3, SCALE, 100, 0, &jitter, &vec![]).is_none());
    assert!(Cloth::new_grid(0, 3, SCALE, 100, 0, &vec![], &vec![]).is_none());
}

#[test]
fn builders_reject_out_of_range_indices() {
    // A tetrahedron index past the vertex buffer is refused.
    let verts = vec![v(0, 0, 0), v(SCALE, 0, 0), v(0, SCALE, 0), v(0, 0, SCALE)];
    let tets = vec![0usize, 1, 2, 9];
    let edges: Vec<usize> = vec![];
    assert!(SoftBody::new(verts.clone(), tets, edges, Vec::new(), Vec::new(), 0, 0).is_none());
    // A triangle index past the vertex buffer is refused.
    let indices = vec![0usize, 1, 7];
    assert!(Cloth::new(verts, indices, 100, 0, &vec![]).is_none());
}

#[test]
fn cloth_picking_gates_on_its_bounds() {
    let verts = vec![v(0, 0, 0), v(SCALE, 0, 0), v(0, SCALE, 0), v(SCALE, SCALE, 0)];
    let indices = vec![0usize, 1, 2, 1, 3, 2];
    let mut cloth = Cloth::new(verts, indices, 100, 0, &vec![]).expect("valid sheet");
    cloth.recompute_bounds();
    // Through the sheet's interior: a hit at the plane.
    let ray = Ray { origin: v(500_000, 500_000, -5 * SCALE), direction: v(0, 0, SCALE) };
    assert_eq!(cloth.intersect(ray), Some(5 * SCALE));
    // Far off to the side, the sphere gate already answers a miss.
    let miss = Ray { origin: v(50 * SCALE, 0, -5 * SCALE), direction: v(0, 0, SCALE) };
    assert_eq!(cloth.intersect(miss), None);
}

#[test]
fn degenerate_tick_leaves_bead_and_ball_alone() {
    let mut ball = Ball {
        pos: v(0, -5 * SCALE, 0),
        vel: v(SCALE, SCALE, 0),
        radius: SCALE,
        mass: SCALE,
        restitution: SCALE,
    };
    let before = ball;
    xpbd::balls::simulate_ball(&mut ball, v(0, -9_810_000, 0), 0, 4, SCALE, 3 * SCALE, SCALE);
    assert_eq!(ball, before);
    let mut bead = Bead {
        pos: v(SCALE, 0, 0),
        prev_pos: v(0, 0, 0),
        vel: v(7, 7, 7),
        radius: 100_000,
        mass: SCALE,
    };
    let vel_before = bead.vel;
    bead.end_step(0);
    assert_eq!(bead.vel, vel_before);
}
