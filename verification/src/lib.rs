//! A path-based multiplexer of storage backends.
//!
//! Backends are mounted at path prefixes in a [`MountTable`]. Looking a full
//! path up selects the backend mounted at the longest prefix that covers the
//! path and yields a [`VNode`]: a handle on that backend, the path relative to
//! its mount point, and the kind of node the path names. [`VFS`] shares one
//! table between threads behind a reader/writer lock.

pub mod assoc;
pub mod error;
pub mod fs;
pub mod mount;
pub mod ops;
pub mod path;
pub mod resolve;
pub mod sync;
pub mod vfs;
pub mod vnode;

pub use error::VFSError;
pub use mount::MountTable;
pub use ops::VNodeOps;
pub use vfs::VFS;
pub use vnode::{VNode, VNodeType};
