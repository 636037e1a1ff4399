//! The Rust side of a C++/Rust peer: ownership of the pointers that cross the
//! boundary, the tags of the objects behind them, and the text handling of
//! the binding generator.
pub mod codegen;
pub mod ffi;
pub mod interfaces;
pub mod mock_cpeer;
pub mod text;
pub mod util;
