//! A chunked 2D particle world: a versioned spatial bucket grid with a 3x3
//! neighbor fan-out, chunk indexing and streaming, a chunk persistence state
//! machine, a chunk byte codec, and the integer bookkeeping of the particle
//! store (density caps, the moving set, collision-pair deduplication).
//!
//! Continuous-valued physics (velocities, impulse resolution, terrain noise)
//! lives outside this library; everything here works on lattice coordinates
//! and plain integers, and every function carries a proved contract.

pub mod codec;
pub mod color;
pub mod grid;
pub mod gridsystem;
pub mod multigrid;
pub mod pairset;
pub mod universe;
pub mod v2;

use vstd::prelude::*;

verus! {

/// Fixed edge length, in cells, of one square world chunk.
pub const CHUNK_SIZE: usize = 64;

} // verus!
