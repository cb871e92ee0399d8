//! One mount table shared between threads.

use std::sync::Arc;
use vstd::prelude::*;
use crate::error::VFSError;
use crate::mount::{finds, lemma_resolved_node, resolves, MountTable};
use crate::ops::VNodeOps;
use crate::path::starts_with_separator;
use crate::resolve::valid_mounts;
use crate::sync::{read_guard_get, rwlock_new, rwlock_read, rwlock_write, write_guard_get_mut};
use crate::vnode::{node_type_of, VNode};

verus! {

/// A mount table behind a reader/writer lock.
///
/// Lookups take the lock for reading, for the search only; `mount` and
/// `unmount` take it for writing, for the change only. No operation of a
/// backend runs under the lock. Each call sees the table as it stands when
/// the call takes the lock, so what a call returns is stated here over some
/// table: which one depends on what other threads have done by then.
#[verifier::reject_recursive_types(B)]
pub struct VFS<B: VNodeOps + ?Sized = dyn VNodeOps> {
    mounts: spin::RwLock<MountTable<B>>,
}

impl<B: VNodeOps + ?Sized> VFS<B> {
    /// A file system without mounts.
    pub fn new() -> (vfs: Self) {
        VFS { mounts: rwlock_new(MountTable::new()) }
    }

    /// Registers `fs` at `mount_point`, as `MountTable::mount` does, in the
    /// shared table. Lookups that take the lock later see the new mount.
    pub fn mount(&self, mount_point: &str, fs: Arc<B>) {
        let mut guard = rwlock_write(&self.mounts);
        let table = write_guard_get_mut(&mut guard);
        table.mount(mount_point, fs);
    }

    /// Takes out the registration at exactly `mount_point`, compared as it
    /// stands, as `MountTable::unmount` does, in the shared table. The one
    /// failure is `NotFound`, where nothing is registered under that very
    /// path when the call takes the lock.
    pub fn unmount(&self, mount_point: &str) -> (result: Result<(), VFSError>)
        ensures
            result matches Err(e) ==> e == VFSError::NotFound,
    {
        let mut guard = rwlock_write(&self.mounts);
        let table = write_guard_get_mut(&mut guard);
        table.unmount(mount_point)
    }

    /// Searches the shared table, as `MountTable::find` does, and gives the
    /// lock up before it returns.
    fn find_fs(&self, path: &str) -> (result: Result<(Arc<B>, String), VFSError>)
        ensures
            exists|mounts: Map<Seq<char>, Arc<B>>|
                valid_mounts(mounts.dom()) && #[trigger] finds(mounts, path@, result),
    {
        let guard = rwlock_read(&self.mounts);
        let table = read_guard_get(&guard);
        table.find(path)
    }

    /// Resolves `full_path` against the shared table, as `MountTable::lookup`
    /// does on the table that the call finds under the lock. The node is made
    /// after the lock is given up.
    pub fn lookuppn(&self, full_path: &str) -> (result: Result<VNode<B>, VFSError>)
        ensures
            exists|mounts: Map<Seq<char>, Arc<B>>|
                valid_mounts(mounts.dom()) && #[trigger] resolves(mounts, full_path@, result),
            match result {
                Ok(node) => {
                    &&& node.path@.is_suffix_of(full_path@)
                    &&& !starts_with_separator(node.path@)
                    &&& node.node_type == node_type_of(node.path@, full_path@)
                },
                Err(e) => e == VFSError::NotFound,
            },
    {
        let found = self.find_fs(full_path);
        let ghost mounts = choose|mounts: Map<Seq<char>, Arc<B>>|
            valid_mounts(mounts.dom()) && #[trigger] finds(mounts, full_path@, found);
        let result = match found {
            Ok((fs, path)) => Ok(VNode::resolved(full_path, path, fs)),
            Err(e) => Err(e),
        };
        proof {
            lemma_resolved_node(mounts, full_path@, result);
        }
        result
    }
}

} // verus!
