//! Byte-order-aware reading and writing of fixed-width numbers.
//!
//! A [`NumberReader`] wraps a [`ByteSource`] and a [`NumberWriter`] wraps a
//! [`ByteSink`]; each fixes its [`ByteOrder`] once, at construction, and then
//! decodes or encodes integers of 8 to 128 bits in that order.
//!
//! - `order`: the byte order, and the machine's own.
//! - `codec`: what the bytes of a number are, and the conversions both ways.
//! - `stream`: sources and sinks, and whole reads and writes over them.
//! - `read`, `write`: the reader and the writer.
//! - `memory`: sources and sinks held in memory.
//! - `laws`: what holds of every encoding.
pub mod codec;
pub mod laws;
pub mod memory;
pub mod order;
pub mod read;
pub mod stream;
pub mod write;

pub use memory::{BoundedSink, ByteCursor};
pub use order::ByteOrder;
pub use read::NumberReader;
pub use stream::{ByteSink, ByteSource, Error};
pub use write::NumberWriter;
