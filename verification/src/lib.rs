//! Position-based dynamics over deterministic fixed-point arithmetic.
//!
//! The solver advances a particle system by fixed timesteps split into
//! substeps: predict positions under gravity, project distance and volume
//! constraints sequentially (Gauss-Seidel order, so every correction is
//! visible to the next constraint in the same pass), resolve ground and
//! self collisions, then reconstruct velocities from position deltas.
//! A uniform spatial hash provides neighbour candidates for self collision.
//!
//! All scalars are saturating fixed-point values so that every arithmetic
//! step is total and exactly mirrored by its specification.
mod collisions;
mod constraints;
mod fixed;
mod jitter;
mod laws;
mod renderer;
mod solver;
mod spatial_hash;
mod topology;
mod vec3;

pub use constraints::{ConstraintKind, DistanceConstraint, VolumeConstraint};
pub use fixed::Fx;
pub use jitter::jitter_positions;
pub use laws::{lemma_compliance_monotonic, lemma_distance_within_radius, lemma_grab_exact_restore, lemma_softer_correction, lemma_zero_radius_covers_own_cell};
pub use renderer::Renderer;
pub use solver::Body;
pub use spatial_hash::SpatialHash;
pub use topology::{cloth_grid_constraints, cloth_grid_positions, find_tri_neighbors, tet_inv_masses, tri_inv_masses};
pub use vec3::Vec3;
