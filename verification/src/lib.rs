//! Verified core of Logic Paint: the cell model of a painted integrated circuit, its bit-packed
//! and run-length encodings, chunked cell buffers and the simulation step of its MOSFETs.

pub mod brush;
pub mod coords;
pub mod module;
pub mod session;
pub mod substrate;
pub mod upc;
pub mod utils;
