//! Integer geometry on the plane for discrete grid worlds.
//!
//! The crate offers a 2-D vector type ([`coord::Vec2`]) over integer
//! coordinates, the four cardinal directions and the two axes
//! ([`direc::Direction`], [`axis::Axis`]), rectangles ([`rect::Rect`]),
//! a spatial map and set keyed by grid points with straight-line
//! neighbour queries ([`map::SpatialMap`], [`set::SpatialSet`]), a graph
//! of grid points whose edges run along the cardinal directions
//! ([`graph::Graph`]), and a turn-penalised A* path maker that writes
//! the corners of the paths it finds back into the graph.
//!
//! Every operation carries a contract describing its effect on the
//! mathematical view of the structure, and the key structural laws
//! (index duality of the spatial map, edge symmetry and consistency of
//! the graph, faithfulness of produced paths) are stated and proved as
//! lemmas next to the operations they describe.

pub mod axis;
pub mod bits;
pub mod coord;
pub mod direc;
pub mod graph;
pub mod map;
pub mod path;
pub mod rect;
pub mod set;
pub mod table;
