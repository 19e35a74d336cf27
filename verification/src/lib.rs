//! Per-tick core of a large-population agent simulation on a toroidal grid
//! world: a bucket-chained spatial index, a cached terrain traversability map
//! with three-tier move resolution, and the discrete decisions of steering and
//! integration.  All numeric kernels are supplied by the caller; this crate
//! owns indices, flags, ranges and the order in which things happen.

pub mod collision;
pub mod movement;
pub mod physics;
pub mod sim;
pub mod spatial_hash;
pub mod spatial_laws;
pub mod types;

pub use collision::{BiomeCollisionMap, MoveOutcome, MoveProbes};
pub use movement::{process_entity_movement, Sighting, SteeringPlan};
pub use sim::{SimCore, SimView};
pub use spatial_hash::{CellRange, SpatialHash};
pub use types::EntityGenes;
