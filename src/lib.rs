//! A key-value map whose entries carry an expiry instant. Expired entries
//! stay stored until removed, but every read and every iteration treats them
//! as absent.

pub mod backend;
pub mod entry;
pub mod iter;
pub mod map;

pub use backend::GenericMap;
pub use entry::ExpirableEntry;
pub use iter::{IntoIter, Iter, IterMut};
pub use map::ExpiringMap;
