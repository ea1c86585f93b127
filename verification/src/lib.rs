//! Verified core of a small patch-based ray tracer: command-line parsing, the split
//! of the image into render patches, the pixels of a patch, the assembly of rendered
//! pixels into the output image, the scene graph, and the triangles of a mesh.

pub mod args;
pub mod canvas;
pub mod decimal;
pub mod mesh;
pub mod scene;
pub mod tiling;
