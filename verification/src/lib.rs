//! Event stream encoding and decoding for a time travel debugger of Rust programs.
//!
//! Values captured at a breakpoint are written as a postfix token stream
//! (see `writer`) and read back into [`RValue`] trees (see `reader`).

pub mod addr_table;
pub mod bytes;
pub mod decimal;
pub mod native;
pub mod value;
pub mod writer;
pub mod reader;
pub mod text;
pub mod rvalue;
pub mod event;
pub mod value_type;
pub mod typename;
pub mod util;
pub mod version;
pub mod cfg;
pub mod config;
pub mod probe;
pub mod basic_type;
pub mod pages;
pub mod roundtrip;
pub mod samples;
pub mod shape;
pub mod counted;
pub mod std_values;
pub mod return_value;

pub use bytes::{Bytes, Integer};
