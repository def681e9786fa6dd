//! The interactive grab state machine.
//!
//! At most one entity is held at a time: nothing, a rigid ball, or a soft
//! body's particle. A grab begins with a pick ray from the host's camera:
//! every ball is tested with the sphere test, then every soft body with
//! its sphere-then-triangle test, and the globally closest hit wins. While
//! held, each frame derives a target point at the stored distance along
//! the fresh ray and the instantaneous drag velocity; release hands that
//! velocity to the target.

use vstd::prelude::*;

verus! {

use crate::fixed::SCALE;
use crate::vec3::{Vec3, V3, v_add, v_sub, v_scale, v_div, in_b};
use crate::particles::{PLIM, in_lim};
use crate::balls::{Ball, to_vec3};
use crate::softbody::{SoftBody, started_grab, moved_grab, ended_grab};
use crate::intersect::{Ray, ray_sphere, ray_sphere_intersect};
use vstd::pervasive::VecAdditionalExecFns;

/// What the pointer currently holds.
#[derive(Clone, Copy, PartialEq, Eq, Structural, Debug)]
pub enum GrabbedEntity {
    /// Nothing is held.
    Idle,
    /// A rigid ball, by its index.
    Ball(usize),
    /// A soft body, by its index; the body itself remembers which of its
    /// particles is pinned.
    SoftBody(usize),
}

/// The grab state: the held entity, the pick distance along the ray, the
/// elapsed drag time, the previous drag point and the centre offset kept
/// for balls.
#[derive(Clone, Copy, PartialEq, Eq, Structural, Debug)]
pub struct Grabbed {
    /// The held entity.
    pub entity: GrabbedEntity,
    /// Distance along the pick ray at which the grab engaged.
    pub distance: i64,
    /// Time since the drag velocity was last derived.
    pub time: i64,
    /// The drag point of the previous frame.
    pub prev_pos: Vec3,
    /// Offset from the pick point to a grabbed ball's centre.
    pub offset: Vec3,
}

/// The smaller of the two roots of a ball's sphere test: the caller
/// treats it as the entry point.
pub open spec fn ball_hit(b: Ball, o: V3, d: V3) -> Option<int> {
    match ray_sphere(o, d, b.pos@, b.radius as int) {
        Option::Some((t0, t1)) => Option::Some(
            if t0 < t1 {
                t0
            } else {
                t1
            },
        ),
        Option::None => Option::None,
    }
}

/// The closest ball hit among the first `k` balls, by strictly smaller
/// ray distance.
pub open spec fn best_ball(bs: Seq<Ball>, o: V3, d: V3, k: int) -> Option<(int, int)>
    decreases k,
{
    if k <= 0 {
        Option::None
    } else {
        let prev = best_ball(bs, o, d, k - 1);
        match (prev, ball_hit(bs[k - 1], o, d)) {
            (Option::None, Option::None) => Option::None,
            (Option::None, Option::Some(t)) => Option::Some((k - 1, t)),
            (Option::Some(p), Option::None) => Option::Some(p),
            (Option::Some(p), Option::Some(t)) => if t < p.1 {
                Option::Some((k - 1, t))
            } else {
                Option::Some(p)
            },
        }
    }
}

/// A soft body's pick distance: the sphere test against its bounds, then
/// the nearest triangle hit of its render skin (or of the tetrahedron
/// triples when no skin exists).
pub open spec fn body_hit(sb: SoftBody, o: V3, d: V3) -> Option<int> {
    crate::softbody::body_pick(sb, o, d)
}

/// The winning pick over the ball result and the first `k` soft bodies:
/// `(entity, distance)`. Strictly closer hits win, so the earlier
/// candidate keeps a tie.
pub open spec fn best_pick_upto(bs: Seq<Ball>, sbs: Seq<SoftBody>, o: V3, d: V3, k: int) -> (
    GrabbedEntity,
    int,
)
    decreases k,
{
    if k <= 0 {
        match best_ball(bs, o, d, bs.len() as int) {
            Option::Some((i, t)) => (GrabbedEntity::Ball(i as usize), t),
            Option::None => (GrabbedEntity::Idle, 0),
        }
    } else {
        let prev = best_pick_upto(bs, sbs, o, d, k - 1);
        match body_hit(sbs[k - 1], o, d) {
            Option::None => prev,
            Option::Some(t) => if prev.0 is Idle || t < prev.1 {
                (GrabbedEntity::SoftBody((k - 1) as usize), t)
            } else {
                prev
            },
        }
    }
}

/// The winning pick over everything under the ray.
pub open spec fn best_pick(bs: Seq<Ball>, sbs: Seq<SoftBody>, o: V3, d: V3) -> (
    GrabbedEntity,
    int,
) {
    best_pick_upto(bs, sbs, o, d, sbs.len() as int)
}

/// The target point at distance `dist` along a ray: origin plus the
/// scaled direction, or the origin alone when anything leaves the
/// solver's range.
pub open spec fn ray_point(o: V3, d: V3, dist: int) -> V3 {
    let step = v_scale(d, dist);
    if in_b(o, PLIM as int) && in_b(d, PLIM as int) && 0 <= dist <= PLIM && in_b(
        step,
        PLIM as int,
    ) {
        v_add(o, step)
    } else {
        o
    }
}

/// The drag velocity: the drag delta over the elapsed time, or zero for a
/// degenerate elapsed time or out-of-range points.
pub open spec fn drag_velocity(p: V3, prev: V3, time: int) -> V3 {
    if time >= 1 && in_b(p, PLIM as int) && in_b(prev, PLIM as int) {
        v_div(v_sub(p, prev), time)
    } else {
        V3 { x: 0, y: 0, z: 0 }
    }
}

/// The target point, as computed.
pub fn ray_point_exec(ray: Ray, dist: i64) -> (r: Vec3)
    ensures
        r@ == ray_point(ray.origin@, ray.direction@, dist as int),
{
    if !(in_lim(ray.origin, PLIM) && in_lim(ray.direction, PLIM) && 0 <= dist && dist <= PLIM) {
        return ray.origin;
    }
    proof {
        crate::vec3::lemma_scale_bounds(ray.direction@, dist as int, PLIM as int, PLIM as int);
    }
    let step = ray.direction.scale(dist);
    if in_lim(step, PLIM) {
        ray.origin.add(step)
    } else {
        ray.origin
    }
}

/// The drag velocity, as computed.
pub fn drag_velocity_exec(p: Vec3, prev: Vec3, time: i64) -> (r: Vec3)
    ensures
        r@ == drag_velocity(p@, prev@, time as int),
{
    if time >= 1 && in_lim(p, PLIM) && in_lim(prev, PLIM) {
        proof {
            crate::vec3::lemma_sub_in_b(p@, prev@, PLIM as int);
        }
        p.sub(prev).div(time)
    } else {
        Vec3 { x: 0, y: 0, z: 0 }
    }
}

/// Picks the closest target under the ray and engages the grab: all balls
/// are tested first, then every soft body, and the strictly closest hit
/// wins. A grabbed ball's velocity is zeroed and the centre offset to the
/// pick point is kept; a grabbed soft body pins its nearest particle to
/// the pick point. Without a hit the state returns to idle.
#[verifier::rlimit(100)]
pub fn handle_grab_start(
    grabbed: &mut Grabbed,
    ray: Ray,
    balls: &mut Vec<Ball>,
    bodies: &mut Vec<SoftBody>,
)
    requires
        forall|j: int| 0 <= j < old(bodies)@.len() ==> #[trigger] old(bodies)@[j].wf(),
    ensures
        forall|j: int| 0 <= j < final(bodies)@.len() ==> #[trigger] final(bodies)@[j].wf(),
        final(balls)@.len() == old(balls)@.len(),
        final(bodies)@.len() == old(bodies)@.len(),
        ({
            let o = ray.origin@;
            let d = ray.direction@;
            let pick = best_pick(old(balls)@, old(bodies)@, o, d);
            match pick.0 {
                GrabbedEntity::Idle => final(grabbed).entity == GrabbedEntity::Idle
                    && *final(balls) == *old(balls) && *final(bodies) == *old(bodies),
                GrabbedEntity::Ball(i) => {
                    &&& final(grabbed).entity == GrabbedEntity::Ball(i)
                    &&& final(grabbed).distance == pick.1
                    &&& final(grabbed).time == 0
                    &&& final(grabbed).prev_pos@ == ray_point(o, d, pick.1)
                    &&& *final(bodies) == *old(bodies)
                    &&& final(balls)@ == old(balls)@.update(
                        i as int,
                        Ball { vel: Vec3 { x: 0, y: 0, z: 0 }, ..old(balls)@[i as int] },
                    )
                },
                GrabbedEntity::SoftBody(i) => {
                    &&& final(grabbed).entity == GrabbedEntity::SoftBody(i)
                    &&& final(grabbed).distance == pick.1
                    &&& final(grabbed).time == 0
                    &&& final(grabbed).prev_pos@ == ray_point(o, d, pick.1)
                    &&& *final(balls) == *old(balls)
                    &&& forall|j: int|
                        0 <= j < old(bodies)@.len() && j != i as int
                            ==> #[trigger] final(bodies)@[j] == old(bodies)@[j]
                    &&& started_grab(
                        old(bodies)@[i as int],
                        final(bodies)@[i as int],
                        final(grabbed).prev_pos,
                    )
                },
            }
        }),
{
    grabbed.time = 0;
    let ghost o = ray.origin@;
    let ghost d = ray.direction@;
    let nb = balls.len();
    let mut best_b: Option<(usize, i64)> = Option::None;
    let mut i: usize = 0;
    while i < nb
        invariant
            nb == balls@.len(),
            o == ray.origin@,
            d == ray.direction@,
            i <= nb,
            ({
                let bb = best_ball(balls@, o, d, i as int);
                match best_b {
                    Option::Some((bi, t)) => bb == Option::Some((bi as int, t as int)) && bi < nb,
                    Option::None => bb is None,
                }
            }),
        decreases nb - i,
    {
        let b = balls[i];
        let sph = ray_sphere_intersect(ray, b.pos, b.radius);
        let hit: Option<i64> = match sph {
            Option::Some((t0, t1)) => Option::Some(
                if t0 < t1 {
                    t0
                } else {
                    t1
                },
            ),
            Option::None => Option::None,
        };
        best_b = match (best_b, hit) {
            (Option::None, Option::None) => Option::None,
            (Option::None, Option::Some(t)) => Option::Some((i, t)),
            (Option::Some(p), Option::None) => Option::Some(p),
            (Option::Some(p), Option::Some(t)) => if t < p.1 {
                Option::Some((i, t))
            } else {
                Option::Some(p)
            },
        };
        i += 1;
    }
    let mut target: GrabbedEntity = match best_b {
        Option::Some((bi, _)) => GrabbedEntity::Ball(bi),
        Option::None => GrabbedEntity::Idle,
    };
    let mut closest: i64 = match best_b {
        Option::Some((_, t)) => t,
        Option::None => 0,
    };
    let nbod = bodies.len();
    let mut j: usize = 0;
    while j < nbod
        invariant
            nbod == bodies@.len(),
            nb == balls@.len(),
            o == ray.origin@,
            d == ray.direction@,
            j <= nbod,
            forall|k: int| 0 <= k < bodies@.len() ==> #[trigger] bodies@[k].wf(),
            (target, closest as int) == best_pick_upto(balls@, bodies@, o, d, j as int),
            match target {
                GrabbedEntity::Ball(bi) => bi < nb,
                GrabbedEntity::SoftBody(si) => si < nbod,
                GrabbedEntity::Idle => closest == 0,
            },
        decreases nbod - j,
    {
        let hit = bodies[j].intersect(ray);
        match hit {
            Option::Some(t) => {
                let better = match target {
                    GrabbedEntity::Idle => true,
                    _ => t < closest,
                };
                if better {
                    target = GrabbedEntity::SoftBody(j);
                    closest = t;
                }
            },
            Option::None => {},
        }
        j += 1;
    }
    match target {
        GrabbedEntity::Idle => {
            grabbed.entity = GrabbedEntity::Idle;
        },
        GrabbedEntity::Ball(bi) => {
            let b = balls[bi];
            let pos = ray_point_exec(ray, closest);
            grabbed.entity = GrabbedEntity::Ball(bi);
            grabbed.distance = closest;
            grabbed.prev_pos = pos;
            grabbed.offset = if in_lim(b.pos, PLIM) && in_lim(pos, PLIM) {
                proof {
                    crate::vec3::lemma_sub_in_b(b.pos@, pos@, PLIM as int);
                }
                b.pos.sub(pos)
            } else {
                Vec3 { x: 0, y: 0, z: 0 }
            };
            balls.set(bi, Ball { vel: Vec3 { x: 0, y: 0, z: 0 }, ..b });
        },
        GrabbedEntity::SoftBody(si) => {
            let pos = ray_point_exec(ray, closest);
            grabbed.entity = GrabbedEntity::SoftBody(si);
            grabbed.distance = closest;
            grabbed.prev_pos = pos;
            grabbed.offset = Vec3 { x: 0, y: 0, z: 0 };
            let mut sb = bodies.remove(si);
            sb.start_grab(pos);
            bodies.insert(si, sb);
            proof {
                assert(bodies@ =~= old(bodies)@.update(si as int, bodies@[si as int]));
            }
        },
    }
}

/// A dragged ball's new centre: the target point plus the stored offset,
/// when both are in the solver's range, else the target point alone.
pub open spec fn ball_drag_pos(pos: V3, offset: V3) -> Vec3 {
    if in_b(pos, PLIM as int) && in_b(offset, PLIM as int) {
        to_vec3(v_add(pos, offset))
    } else {
        to_vec3(pos)
    }
}

/// Drags the held entity to the fresh ray: the target point sits at the
/// stored distance, the drag velocity is the delta over the elapsed time
/// (zero for a degenerate time), and the drag clock restarts on a move.
pub fn handle_grab_move(
    grabbed: &mut Grabbed,
    ray: Ray,
    dt: i64,
    balls: &mut Vec<Ball>,
    bodies: &mut Vec<SoftBody>,
)
    requires
        forall|j: int| 0 <= j < old(bodies)@.len() ==> #[trigger] old(bodies)@[j].wf(),
        0 <= dt <= SCALE,
        0 <= old(grabbed).time <= 1_000_000_000,
    ensures
        forall|j: int| 0 <= j < final(bodies)@.len() ==> #[trigger] final(bodies)@[j].wf(),
        final(balls)@.len() == old(balls)@.len(),
        final(bodies)@.len() == old(bodies)@.len(),
        ({
            let pos = ray_point(ray.origin@, ray.direction@, old(grabbed).distance as int);
            let vel = drag_velocity(pos, old(grabbed).prev_pos@, old(grabbed).time + dt);
            match old(grabbed).entity {
                GrabbedEntity::Idle => *final(grabbed) == (Grabbed {
                    time: (old(grabbed).time + dt) as i64,
                    ..*old(grabbed)
                }) && *final(balls) == *old(balls) && *final(bodies) == *old(bodies),
                GrabbedEntity::Ball(i) => {
                    &&& *final(bodies) == *old(bodies)
                    &&& if (i as int) < old(balls)@.len() {
                        &&& final(balls)@ == old(balls)@.update(
                            i as int,
                            Ball {
                                pos: ball_drag_pos(pos, old(grabbed).offset@),
                                vel: to_vec3(vel),
                                ..old(balls)@[i as int]
                            },
                        )
                        &&& final(grabbed).prev_pos@ == pos
                        &&& final(grabbed).time == 0
                    } else {
                        *final(balls) == *old(balls) && *final(grabbed) == (Grabbed {
                            time: (old(grabbed).time + dt) as i64,
                            ..*old(grabbed)
                        })
                    }
                },
                GrabbedEntity::SoftBody(i) => {
                    &&& *final(balls) == *old(balls)
                    &&& if (i as int) < old(bodies)@.len() {
                        &&& forall|j: int|
                            0 <= j < old(bodies)@.len() && j != i as int
                                ==> #[trigger] final(bodies)@[j] == old(bodies)@[j]
                        &&& moved_grab(
                            old(bodies)@[i as int],
                            final(bodies)@[i as int],
                            to_vec3(pos),
                        )
                        &&& final(grabbed).prev_pos@ == pos
                        &&& final(grabbed).time == 0
                    } else {
                        *final(bodies) == *old(bodies) && *final(grabbed) == (Grabbed {
                            time: (old(grabbed).time + dt) as i64,
                            ..*old(grabbed)
                        })
                    }
                },
            }
        }),
{
    grabbed.time = grabbed.time + dt;
    let pos = ray_point_exec(ray, grabbed.distance);
    let vel = drag_velocity_exec(pos, grabbed.prev_pos, grabbed.time);
    match grabbed.entity {
        GrabbedEntity::Idle => {},
        GrabbedEntity::Ball(i) => {
            if i < balls.len() {
                let b = balls[i];
                let np = if in_lim(pos, PLIM) && in_lim(grabbed.offset, PLIM) {
                    pos.add(grabbed.offset)
                } else {
                    pos
                };
                balls.set(i, Ball { pos: np, vel, ..b });
                grabbed.prev_pos = pos;
                grabbed.time = 0;
            }
        },
        GrabbedEntity::SoftBody(i) => {
            if i < bodies.len() {
                let mut sb = bodies.remove(i);
                sb.move_grabbed(pos, vel);
                bodies.insert(i, sb);
                proof {
                    assert(bodies@ =~= old(bodies)@.update(i as int, bodies@[i as int]));
                }
                grabbed.prev_pos = pos;
                grabbed.time = 0;
            }
        },
    }
}

/// Releases the held entity: a soft body's particle gets the final drag
/// velocity and its saved inverse mass back, and the state returns to
/// idle. A released ball keeps the velocity of its last drag.
pub fn handle_grab_end(
    grabbed: &mut Grabbed,
    ray: Ray,
    dt: i64,
    balls: &mut Vec<Ball>,
    bodies: &mut Vec<SoftBody>,
)
    requires
        forall|j: int| 0 <= j < old(bodies)@.len() ==> #[trigger] old(bodies)@[j].wf(),
        0 <= dt <= SCALE,
        0 <= old(grabbed).time <= 1_000_000_000,
    ensures
        forall|j: int| 0 <= j < final(bodies)@.len() ==> #[trigger] final(bodies)@[j].wf(),
        *final(balls) == *old(balls),
        final(bodies)@.len() == old(bodies)@.len(),
        final(grabbed).entity == GrabbedEntity::Idle,
        ({
            let pos = ray_point(ray.origin@, ray.direction@, old(grabbed).distance as int);
            let vel = drag_velocity(pos, old(grabbed).prev_pos@, old(grabbed).time + dt);
            match old(grabbed).entity {
                GrabbedEntity::SoftBody(i) => if (i as int) < old(bodies)@.len() {
                    &&& forall|j: int|
                        0 <= j < old(bodies)@.len() && j != i as int
                            ==> #[trigger] final(bodies)@[j] == old(bodies)@[j]
                    &&& ended_grab(
                        old(bodies)@[i as int],
                        final(bodies)@[i as int],
                        to_vec3(vel),
                    )
                } else {
                    *final(bodies) == *old(bodies)
                },
                _ => *final(bodies) == *old(bodies),
            }
        }),
{
    match grabbed.entity {
        GrabbedEntity::SoftBody(i) => {
            grabbed.time = grabbed.time + dt;
            let pos = ray_point_exec(ray, grabbed.distance);
            let vel = drag_velocity_exec(pos, grabbed.prev_pos, grabbed.time);
            if i < bodies.len() {
                let mut sb = bodies.remove(i);
                sb.end_grab(pos, vel);
                bodies.insert(i, sb);
                proof {
                    assert(bodies@ =~= old(bodies)@.update(i as int, bodies@[i as int]));
                }
                grabbed.prev_pos = pos;
                grabbed.time = 0;
            }
        },
        _ => {},
    }
    grabbed.entity = GrabbedEntity::Idle;
}

} // verus!
