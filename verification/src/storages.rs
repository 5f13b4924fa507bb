//! The types that implement [`Storage`](crate::Storage).

pub use crate::global_storage::{Global, GlobalHandle};
pub use crate::inline_storage::{InlineStorage, InlineStorageHandle};
pub use crate::sharable_storage_wrapper::ShareableStorageWrapper;
pub use crate::slot_storage::{SlotStorage, SlotStorageHandle};
