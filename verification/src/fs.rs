//! A snapshot of a directory tree, and what can be read off it.

use vstd::prelude::*;
use crate::strings::views;

verus! {

/// What a path leads to once symbolic links are followed.
#[derive(Clone, Copy, Debug, PartialEq, Eq, Structural)]
pub enum EntryKind {
    /// A regular file.
    File,
    /// A directory.
    Dir,
    /// Anything else: a dangling link, a socket, a device.
    Other,
}

/// One entry of a directory, as it was found on disk.
#[derive(Debug)]
pub struct DirEntry {
    /// The entry's path.
    pub path: String,
    /// What the path leads to, following symbolic links.
    pub kind: EntryKind,
    /// Whether the entry itself is a symbolic link.
    pub symlink: bool,
    /// The Unix permission bits, where the system has them and they could be
    /// read.
    pub mode: Option<u32>,
    /// For a directory, its entries in the order they were listed; `None`
    /// where the listing failed or the entry is no directory.
    pub children: Option<Vec<DirEntry>>,
}

/// A directory could not be enumerated.
#[derive(Clone, Copy, Debug, PartialEq, Eq, Structural)]
pub struct ListingFailed;

/// The paths of a list of entries, in order.
pub open spec fn paths_of(entries: Seq<DirEntry>) -> Seq<Seq<char>> {
    Seq::new(entries.len(), |i: int| entries[i].path@)
}

/// Lists the items in a directory: the paths of its entries, in listing
/// order. Fails exactly where the snapshot holds no listing for `dir`.
pub fn ls(dir: &DirEntry) -> (r: Result<Vec<String>, ListingFailed>)
    ensures
        dir.children is None ==> r == Err::<Vec<String>, ListingFailed>(ListingFailed),
        dir.children matches Some(c) ==> r matches Ok(v) && views(v@) == paths_of(c@),
{
    match &dir.children {
        None => Err(ListingFailed),
        Some(c) => {
            let mut out: Vec<String> = Vec::new();
            let mut i: usize = 0;
            while i < c.len()
                invariant
                    i <= c.len(),
                    out.len() == i,
                    forall|j: int| 0 <= j < i ==> out@[j]@ == c@[j].path@,
                decreases c.len() - i,
            {
                out.push(c[i].path.clone());
                i = i + 1;
            }
            Ok(out)
        },
    }
}

} // verus!
