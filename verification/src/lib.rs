//! Marching tetrahedra on an integer lattice.
//!
//! The library holds the combinatorial side of isosurface extraction: the
//! lattice of sample points and its decomposition into tetrahedra, the
//! classification of each tetrahedron by the signs of the field at its
//! corners, the cache that gives every crossed grid edge one mesh point, and
//! the triangles over those points. Coordinates are lattice coordinates and a
//! field sample is its [`Sign`]; a caller that works with real coordinates
//! places the lattice in space and locates each crossing on its edge.
//!
//! - [`edge`]: grid indices and undirected edges.
//! - [`field`]: the field as one sign per grid point.
//! - [`grid`]: the lattice, its tetrahedra, and the points near the surface.
//! - [`tiling`]: the tetrahedra of a lattice fill its box without gap or
//!   overlap, and their cuts through shared faces agree.
//! - [`cache`]: one mesh point per crossed edge.
//! - [`mesh`]: the walk over the tetrahedra that gives a mesh.
//! - [`winding`]: turning triangles to face the way of their references.
//! - [`root`]: the decisions of the bisection along a crossed edge.
//! - [`stl`]: a mesh as ASCII STL text.

pub mod cache;
pub mod edge;
pub mod field;
pub mod grid;
pub mod mesh;
pub mod root;
pub mod stl;
pub mod tiling;
pub mod winding;

pub use cache::EdgePoints;
pub use edge::{normal_edge, Edge, GIndex};
pub use field::{OnTheFlyPointValues, PointValues, Sign};
pub use grid::{Grid, Point, Tetrahedron};
pub use mesh::{make_mesh, Mesh, Reference, Triangle};
pub use root::{bisect, bracket_is_final, open_bracket, Opening, Step};
pub use stl::{stl_text, Coordinates};
pub use winding::orient_triangle;
