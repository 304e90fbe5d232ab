//! A software triangle rasterizer: geometry buffers keyed by handles, pixel
//! addressing, frame and depth storage with multi-sample slots, the
//! bounding-box scan of a triangle fill, line tracing and texel addressing.
//!
//! The numeric side of the pipeline (transforms, barycentric weights,
//! shading) is supplied by the caller: the rasterizer is generic in its
//! vertex, color and depth types, and a triangle fill takes the coverage
//! test, the fragment stage and the sample merge as functions.
pub mod flags;
pub mod frame;
pub mod geometry;
pub mod line;
pub mod raster;
pub mod texture;

pub use flags::{Buffer, Primitive};
pub use frame::FrameBuffers;
pub use geometry::{corner_indices, DrawError, GeometryStore, IndBufId, PosBufId};
pub use line::draw_line;
pub use raster::{bounding_box, edge_signs_agree, PixelBox, Rasterizer, MSAA_COUNT};
pub use texture::Texture;
