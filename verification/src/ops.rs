//! What the multiplexer asks of a storage backend.

use vstd::prelude::*;
use crate::error::VFSError;

verus! {

/// A storage backend that can be mounted.
///
/// Every path it is handed is relative to its own root: it never begins with
/// a separator and never holds the mount point. A backend is shared between
/// the nodes that resolve to it and between threads, so its operations take
/// `&self`, and it guards its own state.
///
/// Beside each operation stands a predicate that says which answers this
/// backend may give to it. The multiplexer hands the answers on unchanged, so
/// what a caller learns of an operation on a node is exactly what the node's
/// backend states here. A backend that states nothing admits every answer.
pub trait VNodeOps: Send + Sync {
    /// The answers this backend may give to `read(path)`.
    open spec fn read_post(&self, path: Seq<char>, result: Result<String, VFSError>) -> bool {
        true
    }

    /// The content stored under `path`, or `NotFound`.
    fn read(&self, path: &str) -> (result: Result<String, VFSError>)
        ensures
            self.read_post(path@, result),
    ;

    /// The answers this backend may give to `write(path, content)`.
    open spec fn write_post(
        &self,
        path: Seq<char>,
        content: Seq<char>,
        result: Result<(), VFSError>,
    ) -> bool {
        true
    }

    /// Stores `content` under `path`.
    fn write(&self, path: &str, content: &str) -> (result: Result<(), VFSError>)
        ensures
            self.write_post(path@, content@, result),
    ;

    /// The answers this backend may give to `open(path)`.
    open spec fn open_post(&self, path: Seq<char>, result: Result<(), VFSError>) -> bool {
        true
    }

    /// Begins a session on `path`, for backends that keep session state.
    fn open(&self, path: &str) -> (result: Result<(), VFSError>)
        ensures
            self.open_post(path@, result),
    ;

    /// The answers this backend may give to `close(path)`.
    open spec fn close_post(&self, path: Seq<char>, result: Result<(), VFSError>) -> bool {
        true
    }

    /// Ends a session on `path`.
    fn close(&self, path: &str) -> (result: Result<(), VFSError>)
        ensures
            self.close_post(path@, result),
    ;

    /// The answers this backend may give to `is_present(path)`.
    open spec fn is_present_post(&self, path: Seq<char>, result: Result<bool, VFSError>) -> bool {
        true
    }

    /// Whether the backend holds an entry under `path`.
    fn is_present(&self, path: &str) -> (result: Result<bool, VFSError>)
        ensures
            self.is_present_post(path@, result),
    ;

    /// The answers this backend may give to `remove(path)`.
    open spec fn remove_post(&self, path: Seq<char>, result: Result<(), VFSError>) -> bool {
        true
    }

    /// Removes the entry under `path`, or reports `NotFound`.
    fn remove(&self, path: &str) -> (result: Result<(), VFSError>)
        ensures
            self.remove_post(path@, result),
    ;

    /// The answers this backend may give to `list_dir(path)`.
    open spec fn list_dir_post(
        &self,
        path: Seq<char>,
        result: Result<Vec<String>, VFSError>,
    ) -> bool {
        true
    }

    /// The names of the entries directly below `path`.
    fn list_dir(&self, path: &str) -> (result: Result<Vec<String>, VFSError>)
        ensures
            self.list_dir_post(path@, result),
    ;
}

} // verus!
