//! The exact core of a small software rasterizer.
//!
//! The renderer projects triangle meshes through a pinhole camera and shades
//! them in floating point; that arithmetic lives with the program that uses
//! this library. What is exact lives here: the mesh as a source of
//! triangles, the reading of mesh text, the fit policy of the camera, the
//! pixel range of a triangle, the frame buffer and the depth buffer with the
//! depth test that settles which triangle is seen in each pixel, and the
//! text of the finished image.
pub mod camera;
pub mod obj;
pub mod ppm;
pub mod raster;
pub mod render;
pub mod utils;
