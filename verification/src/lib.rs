//! Bit-granular reading and writing on top of byte streams.
//!
//! [`BitReader`] is a sequential bit cursor over a [`ByteSource`];
//! [`BitWriter`] queues bits and hands whole bytes to a [`ByteSink`].
//! Within a byte the most significant bit always comes first.

pub mod bit;
pub mod memory;
pub mod packing;
pub mod reader;
pub mod stream;
pub mod writer;

pub use bit::Bit;
pub use reader::{BitReader, ReadError};
pub use memory::{MemorySink, MemorySource};
pub use stream::{ByteSink, ByteSource, SinkCall, SourceCall};
pub use writer::BitWriter;
