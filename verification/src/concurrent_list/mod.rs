//! The chunked append-only log and the cursors that walk it.

pub mod chunk;
pub mod chunk_ref;
pub mod inner;
pub mod iterator;
pub mod list;
pub mod read_guard;
pub mod schedule;
pub mod write_guard;

pub use chunk::{chain_wf, log_view, Appender, Chunk, ChunkView};
pub use chunk_ref::{ChunkRef, CursorView, EndOfCollection};
pub use inner::ConcurrentListInner;
pub use iterator::ChunkIterator;
pub use list::{
    after_removal, live_values, removed_value, ConcurrentList, ConcurrentListRef,
    DEFAULT_CHUNK_SIZE,
};
pub use read_guard::ChunkReadGuard;
pub use write_guard::ChunkWriteGuard;
