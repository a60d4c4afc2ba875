//! Small helpers that the broker and its client share.

pub mod handle;
pub mod reverse_iterator;
pub mod store_registry;

pub use handle::Handle;
pub use reverse_iterator::ReverseIterator;
pub use store_registry::StoreRegistry;
