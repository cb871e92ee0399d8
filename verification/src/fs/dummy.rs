//! A backend that stands in where none is implemented.

use vstd::prelude::*;
use crate::error::VFSError;
use crate::ops::VNodeOps;

verus! {

/// A placeholder backend: it holds nothing, and every operation fails with
/// `Other` and a text that names the operation.
pub struct DummyVnodeOps;

impl DummyVnodeOps {
    /// The failure that the operation called `operation` reports.
    pub open spec fn refusal(operation: Seq<char>) -> Seq<char> {
        "DummyVnodeOps: "@ + operation + " not implemented"@
    }

    /// The error for the operation called `operation`.
    fn refuse(operation: &str) -> (e: VFSError)
        ensures
            e matches VFSError::Other(detail) && detail@ == Self::refusal(operation@),
    {
        VFSError::Other("DummyVnodeOps: ".to_owned().concat(operation).concat(" not implemented"))
    }
}

impl VNodeOps for DummyVnodeOps {
    open spec fn read_post(&self, path: Seq<char>, result: Result<String, VFSError>) -> bool {
        result matches Err(VFSError::Other(detail)) && detail@ == Self::refusal("read"@)
    }

    fn read(&self, path: &str) -> (result: Result<String, VFSError>) {
        Err(Self::refuse("read"))
    }

    open spec fn write_post(
        &self,
        path: Seq<char>,
        content: Seq<char>,
        result: Result<(), VFSError>,
    ) -> bool {
        result matches Err(VFSError::Other(detail)) && detail@ == Self::refusal("write"@)
    }

    fn write(&self, path: &str, content: &str) -> (result: Result<(), VFSError>) {
        Err(Self::refuse("write"))
    }

    open spec fn open_post(&self, path: Seq<char>, result: Result<(), VFSError>) -> bool {
        result matches Err(VFSError::Other(detail)) && detail@ == Self::refusal("open"@)
    }

    fn open(&self, path: &str) -> (result: Result<(), VFSError>) {
        Err(Self::refuse("open"))
    }

    open spec fn close_post(&self, path: Seq<char>, result: Result<(), VFSError>) -> bool {
        result matches Err(VFSError::Other(detail)) && detail@ == Self::refusal("close"@)
    }

    fn close(&self, path: &str) -> (result: Result<(), VFSError>) {
        Err(Self::refuse("close"))
    }

    open spec fn is_present_post(&self, path: Seq<char>, result: Result<bool, VFSError>) -> bool {
        result matches Err(VFSError::Other(detail)) && detail@ == Self::refusal("is_present"@)
    }

    fn is_present(&self, path: &str) -> (result: Result<bool, VFSError>) {
        Err(Self::refuse("is_present"))
    }

    open spec fn remove_post(&self, path: Seq<char>, result: Result<(), VFSError>) -> bool {
        result matches Err(VFSError::Other(detail)) && detail@ == Self::refusal("remove"@)
    }

    fn remove(&self, path: &str) -> (result: Result<(), VFSError>) {
        Err(Self::refuse("remove"))
    }

    open spec fn list_dir_post(
        &self,
        path: Seq<char>,
        result: Result<Vec<String>, VFSError>,
    ) -> bool {
        result matches Err(VFSError::Other(detail)) && detail@ == Self::refusal("list_dir"@)
    }

    fn list_dir(&self, path: &str) -> (result: Result<Vec<String>, VFSError>) {
        Err(Self::refuse("list_dir"))
    }
}

} // verus!
