//! Side-by-side comparison of two disassembled instruction streams.
//!
//! A line diff of the two streams is realigned into rows of paired
//! instructions, so that one inserted or deleted instruction does not
//! make every later line look different.

pub mod decode;
pub mod differ;
pub mod model;
pub mod offset;
pub mod present;
pub mod realign;
pub mod sync;
pub mod text;
