//! Binary greedy meshing of padded voxel chunks: hidden-face culling on
//! per-column bitmasks, greedy merging of visible faces into quads, and the
//! packed encodings of quads and vertices.

pub mod bits;
pub mod face;
pub mod greedy;
pub mod laws;
pub mod masks;
pub mod mesher;
pub mod model;
pub mod quad;

pub use face::{indices, Face, Vertex};
pub use masks::{compute_opaque_mask, compute_transparent_mask, pad_linearize};
pub use mesher::Mesher;
pub use quad::Quad;
