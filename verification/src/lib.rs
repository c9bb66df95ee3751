//! Core of a minimal 3D model viewer: parsing a line-oriented mesh
//! description into an interleaved vertex buffer plus per-channel index
//! buffers, and a declarative vertex-attribute layout that derives byte
//! strides and offsets for the uploaded buffer.
//!
//! Coordinate scalars are carried as their validated numeric source tokens
//! (byte strings); the rendering layer converts them to machine floats when
//! uploading, so the selection, remapping and interleaving logic here is
//! exact and fully verified.

pub mod lexer;
pub mod numeric;
pub mod obj_parser;
pub mod triangles;
