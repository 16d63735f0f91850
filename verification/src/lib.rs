//! Compact block storage for a voxel schematic exchange format.
//!
//! A region is a rectangular cuboid of labeled cells addressed by absolute
//! 3D coordinates through two arbitrary corner points. Cell values are
//! deduplicated in a growth-only palette, and the serialized form packs the
//! per-cell palette ids into 64-bit words at the minimum sufficient bit
//! width, so storage cost scales with the number of distinct values rather
//! than the number of cells.

use vstd::prelude::*;

pub mod block;
pub mod codec;
pub mod litematic;
pub mod region;
pub mod schema;
pub mod util;

pub use block::{BlockState, Entity, PendingTick, Property, TileEntity};
pub use litematic::Litematic;
pub use region::{Blocks, DecodeError, Region, RegionV};
pub use util::{UVec3, Vec3};

verus! {

} // verus!
