use vstd::prelude::*;

verus! {

/// What a directory listing reports about one entry.
///
/// Symbolic links are not followed: the kind is the one the link itself has
/// (neither a directory nor a regular file), so a link is never entered and
/// never removed.
#[derive(Clone, Copy, Debug, PartialEq, Eq, Structural)]
pub enum EntryKind {
    /// A directory, to be walked.
    Dir,
    /// A regular file of `len` bytes.
    File { len: u64 },
    /// Anything else: a symbolic link, a socket, a device.
    Other,
    /// The entry's type or size could not be read; it is left alone.
    Unknown,
}

/// One entry of a directory listing: its full path and what it is.
#[derive(Debug)]
pub struct Entry {
    pub path: String,
    pub kind: EntryKind,
}

impl Entry {
    pub fn new(path: String, kind: EntryKind) -> (e: Entry)
        ensures
            e.path == path,
            e.kind == kind,
    {
        Entry { path, kind }
    }
}

} // verus!
