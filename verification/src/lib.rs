//! Byte sinks that track an absolute write cursor.
//!
//! A sink accepts raw bytes at its cursor and reports where the next byte will
//! land. [`BufferSerializer`] writes into a byte region of fixed length and
//! refuses whatever would run past its end; [`WriteSerializer`] feeds a
//! streaming destination and retries short writes until every byte has been
//! taken.

pub mod buffer;
pub mod destination;
pub mod memory;
pub mod overlay;
pub mod ser;
pub mod storage;
pub mod writer;

pub use crate::buffer::BufferSerializer;
pub use crate::buffer::BufferSerializerError;
pub use crate::buffer::BufferState;
pub use crate::destination::Seek;
pub use crate::destination::Stream;
pub use crate::destination::Write;
pub use crate::memory::MemoryWriter;
pub use crate::memory::SeekPastEnd;
pub use crate::ser::PadSerializer;
pub use crate::ser::SeekSerializer;
pub use crate::ser::Serializer;
pub use crate::storage::Storage;
pub use crate::writer::WriteSerializer;
