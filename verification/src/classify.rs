//! The heuristic that tells a game's binaries from its other files.
//!
//! Two vetoes come first: a blacklisted ending, and a file without any
//! execute permission. Past them, one positive signal out of three suffices.

use vstd::prelude::*;
use vstd::string::*;
use crate::fs::{DirEntry, EntryKind};
use crate::paths::{file_name, file_name_of, parent, parent_of};
use crate::platform::PlatformProfile;
use crate::strings::{
    contains_str, ends_with_any, has_any_suffix, lowercase, str_eq, to_lowercase, views,
};

verus! {

/// The lowercased last component of `path`, if it has one.
pub open spec fn lower_name(path: Seq<char>) -> Option<Seq<char>> {
    match file_name_of(path) {
        Some(n) => Some(lowercase(n)),
        None => None,
    }
}

/// The lowercased name of the directory that holds `path`, if it has one.
pub open spec fn lower_parent_name(path: Seq<char>) -> Option<Seq<char>> {
    match parent_of(path) {
        Some(p) => lower_name(p),
        None => None,
    }
}

/// Veto: the lowercased file name ends with a blacklisted suffix.
pub open spec fn blacklisted(name: Seq<char>, profile: PlatformProfile) -> bool {
    has_any_suffix(name, views(profile.blacklist@))
}

/// Clearance of the permission veto: some execute bit is set, or the system
/// has no permission bits to show.
pub open spec fn executable(mode: Option<u32>) -> bool {
    match mode {
        Some(m) => m & 0o111 != 0,
        None => true,
    }
}

/// Signal: the file is named after the directory that holds it.
pub open spec fn named_after_parent(name: Seq<char>, parent_name: Seq<char>) -> bool {
    parent_name == name
}

/// Signal: the directory that holds the file is one that conventionally
/// holds binaries.
pub open spec fn in_binary_dir(parent_name: Seq<char>, profile: PlatformProfile) -> bool {
    views(profile.binary_dirs@).contains(parent_name)
}

/// Signal: the lowercased file name ends like a binary's.
pub open spec fn has_binary_suffix(name: Seq<char>, profile: PlatformProfile) -> bool {
    has_any_suffix(name, views(profile.binary_suffixes@))
}

/// The classification: `entry` is a regular file whose name and parent name
/// can be told, neither veto strikes, and at least one signal holds.
pub open spec fn is_binary(entry: DirEntry, profile: PlatformProfile) -> bool {
    &&& entry.kind == EntryKind::File
    &&& lower_name(entry.path@) matches Some(name)
    &&& lower_parent_name(entry.path@) matches Some(parent_name)
    &&& !blacklisted(name, profile)
    &&& executable(entry.mode)
    &&& (named_after_parent(name, parent_name) || in_binary_dir(parent_name, profile)
        || has_binary_suffix(name, profile))
}

/// Tells whether a file's permission bits clear the veto.
pub fn is_executable(mode: Option<u32>) -> (r: bool)
    ensures
        r == executable(mode),
{
    match mode {
        Some(m) => m & 0o111 != 0,
        None => true,
    }
}

/// The lowercased last component of `path`.
pub fn lowercase_name(path: &str) -> (r: Option<String>)
    ensures
        r is Some == lower_name(path@) is Some,
        r matches Some(n) ==> lower_name(path@) == Some(n@),
{
    match file_name(path) {
        Some(n) => Some(to_lowercase(n.as_str())),
        None => None,
    }
}

/// The lowercased name of the directory that holds `path`.
pub fn lowercase_parent_name(path: &str) -> (r: Option<String>)
    ensures
        r is Some == lower_parent_name(path@) is Some,
        r matches Some(n) ==> lower_parent_name(path@) == Some(n@),
{
    match parent(path) {
        Some(p) => lowercase_name(p.as_str()),
        None => None,
    }
}

/// Checks whether the given file is considered a binary.
pub fn is_bin(entry: &DirEntry, profile: &PlatformProfile) -> (r: bool)
    ensures
        r == is_binary(*entry, *profile),
{
    match entry.kind {
        EntryKind::File => {},
        _ => {
            return false;
        },
    }
    let name: String = match lowercase_name(entry.path.as_str()) {
        Some(n) => n,
        None => {
            return false;
        },
    };
    let parent_name: String = match lowercase_parent_name(entry.path.as_str()) {
        Some(n) => n,
        None => {
            return false;
        },
    };
    if ends_with_any(name.as_str(), &profile.blacklist) {
        return false;
    }
    if !is_executable(entry.mode) {
        return false;
    }
    str_eq(parent_name.as_str(), name.as_str()) || contains_str(
        &profile.binary_dirs,
        parent_name.as_str(),
    ) || ends_with_any(name.as_str(), &profile.binary_suffixes)
}

/// A file named like the directory that holds it is a binary, whatever its
/// name ends with, as long as no veto strikes: it is a regular file, its name
/// carries no blacklisted ending, and it may be executed.
pub proof fn law_named_after_parent(entry: DirEntry, profile: PlatformProfile, n: Seq<char>)
    requires
        entry.kind == EntryKind::File,
        file_name_of(entry.path@) == Some(n),
        parent_of(entry.path@) matches Some(dir) && file_name_of(dir) == Some(n),
        !blacklisted(lowercase(n), profile),
        executable(entry.mode),
    ensures
        is_binary(entry, profile),
{
}

/// A file whose lowercased name carries a blacklisted ending is no binary,
/// whatever its permissions, its directory or its other endings.
pub proof fn law_blacklist_dominates(entry: DirEntry, profile: PlatformProfile)
    requires
        lower_name(entry.path@) matches Some(name) && blacklisted(name, profile),
    ensures
        !is_binary(entry, profile),
{
}

} // verus!
