pub mod atom;
pub mod buffer;
pub mod buffer_brush;
pub mod buffer_delta;
pub mod buffer_serde;
pub mod codec;
pub mod execution;
pub mod integrated_circuit;
pub mod io;
pub mod normalized_cell;
pub mod pin;
pub mod placement;
pub mod serializer;
pub mod simulation;
pub mod small_vec;
