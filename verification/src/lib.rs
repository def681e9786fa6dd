//! Constraint-based particle physics: an XPBD (extended position-based
//! dynamics) solver for soft tetrahedral bodies and cloth, a uniform spatial
//! hash broad-phase, rigid ball collision responses, ray picking and an
//! interactive grab state machine.
//!
//! All quantities are fixed-point scalars: an `i64` raw value counts
//! millionths of a unit (see [`fixed`]), so every computation is exact
//! integer arithmetic with stated rounding, and every contract pins the
//! result down.

pub mod balls;
pub mod beads;
pub mod cloth;
pub mod fixed;
pub mod grab;
pub mod intersect;
pub mod particles;
pub mod skinning;
pub mod softbody;
pub mod spatial_hash;
pub mod vec3;
