//! The collections that use a storage for their backing data.

pub use crate::storage_vec::{InsertError, PushError, Vec, VecIntoIter};
pub use crate::storage_box::Box;
pub use crate::storage_vecdeque::VecDeque;
pub use crate::storage_rc::{Counted, Rc, RcInner};
pub use crate::storage_string::String;
