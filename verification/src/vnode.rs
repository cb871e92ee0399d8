//! Nodes: what a lookup hands out.

use std::sync::Arc;
use vstd::prelude::*;
use crate::error::VFSError;
use crate::ops::VNodeOps;
use crate::path::{ends_with_separator, ends_with_separator_str};

verus! {

/// What a path names: a directory or a regular file.
#[derive(Debug, Clone, Copy, PartialEq, Eq, Structural)]
pub enum VNodeType {
    Directory,
    Regular,
}

/// The type of the node at `relative` below a mount point, reached by the
/// full path `full`: a directory where the path addresses the mount point
/// itself or ends with a separator, else a regular file.
pub open spec fn node_type_of(relative: Seq<char>, full: Seq<char>) -> VNodeType {
    if relative.len() == 0 || ends_with_separator(full) {
        VNodeType::Directory
    } else {
        VNodeType::Regular
    }
}

/// A handle on one path of one backend.
///
/// A node owns no storage. It binds the backend that a lookup selected to the
/// path relative to that backend and to the type the lookup inferred, and is
/// never resolved again: every operation goes to that one backend.
pub struct VNode<B: VNodeOps + ?Sized = dyn VNodeOps> {
    /// The path relative to the backend's root.
    pub path: String,
    /// Whether the path names a directory or a regular file.
    pub node_type: VNodeType,
    /// The backend that owns the path.
    pub fs: Arc<B>,
}

impl<B: VNodeOps + ?Sized> VNode<B> {
    /// The node for `path` on the backend `fs`, where a lookup of `full_path`
    /// led there: its type follows from the two paths.
    pub fn resolved(full_path: &str, path: String, fs: Arc<B>) -> (node: Self)
        ensures
            node.path == path,
            node.fs == fs,
            node.node_type == node_type_of(path@, full_path@),
    {
        let node_type = if path.as_str().is_empty() || ends_with_separator_str(full_path) {
            VNodeType::Directory
        } else {
            VNodeType::Regular
        };
        VNode { path, node_type, fs }
    }

    /// Reads a regular file: the backend's answer to `read` on this node's
    /// path. On a directory it fails with `InvalidOperation` and asks nothing
    /// of the backend.
    pub fn read(&self) -> (result: Result<String, VFSError>)
        ensures
            self.node_type == VNodeType::Regular ==> self.fs.read_post(self.path@, result),
            self.node_type != VNodeType::Regular ==> result == Err::<String, VFSError>(
                VFSError::InvalidOperation,
            ),
    {
        match self.node_type {
            VNodeType::Regular => self.fs.read(self.path.as_str()),
            VNodeType::Directory => Err(VFSError::InvalidOperation),
        }
    }

    /// Writes a regular file: the backend's answer to `write` on this node's
    /// path with `content`. On a directory it fails with `InvalidOperation`
    /// and asks nothing of the backend.
    pub fn write(&self, content: &str) -> (result: Result<(), VFSError>)
        ensures
            self.node_type == VNodeType::Regular ==> self.fs.write_post(
                self.path@,
                content@,
                result,
            ),
            self.node_type != VNodeType::Regular ==> result == Err::<(), VFSError>(
                VFSError::InvalidOperation,
            ),
    {
        match self.node_type {
            VNodeType::Regular => self.fs.write(self.path.as_str(), content),
            VNodeType::Directory => Err(VFSError::InvalidOperation),
        }
    }

    /// The backend's answer to `open` on this node's path.
    pub fn open(&self) -> (result: Result<(), VFSError>)
        ensures
            self.fs.open_post(self.path@, result),
    {
        self.fs.open(self.path.as_str())
    }

    /// The backend's answer to `close` on this node's path.
    pub fn close(&self) -> (result: Result<(), VFSError>)
        ensures
            self.fs.close_post(self.path@, result),
    {
        self.fs.close(self.path.as_str())
    }

    /// The backend's answer to `is_present` on this node's path, for a node of
    /// either type.
    pub fn is_present(&self) -> (result: Result<bool, VFSError>)
        ensures
            self.fs.is_present_post(self.path@, result),
    {
        self.fs.is_present(self.path.as_str())
    }

    /// The backend's answer to `remove` on this node's path.
    pub fn remove(&self) -> (result: Result<(), VFSError>)
        ensures
            self.fs.remove_post(self.path@, result),
    {
        self.fs.remove(self.path.as_str())
    }

    /// Lists a directory: the backend's answer to `list_dir` on this node's
    /// path. On a regular file it fails with `InvalidOperation` and asks
    /// nothing of the backend.
    pub fn list_dir(&self) -> (result: Result<Vec<String>, VFSError>)
        ensures
            self.node_type == VNodeType::Directory ==> self.fs.list_dir_post(self.path@, result),
            self.node_type != VNodeType::Directory ==> result == Err::<Vec<String>, VFSError>(
                VFSError::InvalidOperation,
            ),
    {
        match self.node_type {
            VNodeType::Directory => self.fs.list_dir(self.path.as_str()),
            VNodeType::Regular => Err(VFSError::InvalidOperation),
        }
    }
}

} // verus!
