//! Containers whose backing memory is chosen by a pluggable storage.
//!
//! A [`Storage`] hands out allocations. Each is identified by an opaque
//! handle, has an address, an alignment and a number of usable bytes, and
//! is valid until it is given back, grown or shrunk. The storages are the
//! heap ([`Global`]), a fixed region inside the storage value
//! ([`InlineStorage`]), a buffer supplied by the caller ([`SlotStorage`])
//! and a wrapper of which copies can be made
//! ([`ShareableStorageWrapper`]).
//!
//! The containers in [`collections`] are generic over the storage they
//! allocate from, so that the same container logic runs on each of them:
//! what a container may hold is decided by the bytes its storage reports as
//! usable, and a request the storage refuses comes back as an error, with
//! the value that found no room where there is one.
//!
//! No function of the library reads or writes memory through an address. A
//! storage keeps the book of its allocations: where each lies, how large it
//! is and whether it is still valid. The values themselves stay with the
//! container that owns the allocation, in typed places of which each is
//! either empty or holds a value, so that no value can be read or dropped
//! twice.
//!
//! Every storage is a state machine whose steps are spec functions, and
//! the contracts of the containers are stated over them: for each
//! operation, when it succeeds, what the container holds afterwards, and
//! what has become of its storage.

pub mod collections;
pub mod error;
pub mod global_storage;
pub mod inline_storage;
pub mod layout;
pub mod sharable_storage_wrapper;
pub mod slot_storage;
pub mod storage;
pub mod storage_box;
pub mod storage_rc;
pub mod storage_string;
pub mod storage_vec;
pub mod storage_vecdeque;
pub mod storages;

pub use error::StorageAllocError;
pub use global_storage::Global;
pub use inline_storage::InlineStorage;
pub use layout::Layout;
pub use sharable_storage_wrapper::ShareableStorageWrapper;
pub use slot_storage::SlotStorage;
pub use storage::{MultipleStorage, ShareableStorage, StableStorage, Storage, StorageHandle};
pub use storage_box::Box;
pub use storage_rc::Rc;
pub use storage_string::String;
pub use storage_vec::Vec;
pub use storage_vecdeque::VecDeque;
