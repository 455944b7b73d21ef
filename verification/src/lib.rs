//! Conversion of six square cubemap faces into one equirectangular panorama in
//! Radiance `.hdr` format.
//!
//! The conversion is output-driven (inverse mapping): for every output pixel the
//! ray it represents is followed to the cube face it pierces, and the face is
//! filter-sampled there. That guarantees full coverage with no seams or holes,
//! which forward-projecting each face cannot.
//!
//! Values are single-precision bit patterns ([`float32::Float32`]). Arithmetic
//! that rounds is handed in as closures, and contracts hold for any of them.

pub mod color;
pub mod cubemap;
pub mod face;
pub mod float32;
pub mod hdr;
pub mod laws;
pub mod panorama;
pub mod projection;
pub mod render;
pub mod rgbe;
pub mod rle;
pub mod sampling;
pub mod text;
