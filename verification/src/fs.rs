//! Backends that come with the library.

pub mod dummy;
pub mod memfs;
