//! Topology of a flat, square terrain grid: the row-major order of its
//! vertices, their texture coordinates and normals, and the triangle list
//! that tessellates it. Everything here is exact integer data; turning it
//! into floating-point buffers is left to the caller.

pub mod grid;
