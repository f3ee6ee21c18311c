//! Building blocks for an explicit finite-difference heat simulation on a
//! rectangular grid, and for painting its temperature field into an RGBA
//! frame.
//!
//! The library owns the shape of the computation: which cells a stencil
//! reads, where the boundary source replaces a missing neighbour, how the two
//! buffers alternate, and which bytes of the frame a cell is painted into.
//! It is generic over the scalar that a cell holds; the arithmetic on that
//! scalar is supplied by the caller.

pub mod color;
pub mod error;
pub mod field;
pub mod frame;
pub mod render;
pub mod simulation;
pub mod solver;
