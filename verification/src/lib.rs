//! Core data structures for Bader charge partitioning of a periodic
//! volumetric grid.
//!
//! The density values themselves are floating-point data that the
//! surrounding application owns; this crate holds the parts of the
//! pipeline whose behaviour is exact and proved:
//!
//! - [`grid`]: index arithmetic on the periodic voxel grid, including the
//!   wrap-around neighbour lookups used by the Voronoi-vector sweep;
//! - [`voxel_map`]: the per-voxel classification (maximum / boundary
//!   mixture / vacuum), its packed signed-integer representation and the
//!   bookkeeping that the analysis pass relies on;
//! - [`analysis`]: basin-to-atom bookkeeping, the neighbour matrix of
//!   basins that share a boundary voxel, and voxel-count conservation;
//! - [`output`]: the ACF/BCF plain-text tables built from already
//!   formatted cell entries, and the grouping of basins by atom;
//! - [`text`]: decimal rendering and cell padding, specified character
//!   by character.

pub mod analysis;
pub mod grid;
pub mod output;
pub mod text;
pub mod voxel_map;
