//! The interfaces that the generator has made for the file system
//! module of the standard library: one trait for each of its
//! structs, and the struct that implements the trait of its
//! functions by forwarding to the standard library.
use vstd::prelude::*;

verus! {

/// The implementation that forwards to the standard library.
#[derive(Clone, Copy, Debug, Default)]
pub struct Native {}

/// A builder used to create directories in various manners.
pub trait DirBuilder {

}

/// Entries returned by the iterator over a directory.
pub trait DirEntry {

}

/// An object providing access to an open file on the filesystem.
pub trait File {

}

/// Representation of the various timestamps on a file.
pub trait FileTimes {

}

/// A structure representing a type of file with accessors for each
/// file type.
pub trait FileType {

}

/// Metadata information about a file.
pub trait Metadata {

}

/// Options and flags which can be used to configure how a file is
/// opened.
pub trait OpenOptions {

}

/// Representation of the various permissions on a file.
pub trait Permissions {

}

/// Iterator over the entries in a directory.
pub trait ReadDir {

}

} // verus!
