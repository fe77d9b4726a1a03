//! The tables that differ from one operating system to the next.

use vstd::prelude::*;
use vstd::string::*;
use crate::strings::{str_eq, views};

verus! {

/// The family of operating system the library works for.
#[derive(Clone, Copy, Debug, PartialEq, Eq, Structural)]
pub enum Platform {
    /// Linux.
    Linux,
    /// macOS.
    MacOs,
    /// Windows.
    Windows,
    /// Another Unix-like system.
    Unix,
}

/// What the library needs to know of a platform: where game libraries live
/// by default, and the name tables of the binary classification.
#[derive(Debug)]
pub struct PlatformProfile {
    /// Default library roots, relative to the user's home directory.
    pub home_roots: Vec<String>,
    /// Default library roots at fixed places.
    pub fixed_roots: Vec<String>,
    /// Lowercase endings that mark a file name as a binary's.
    pub binary_suffixes: Vec<String>,
    /// Lowercase endings that rule a file out, whatever else holds of it.
    pub blacklist: Vec<String>,
    /// Lowercase names of directories that conventionally hold binaries.
    pub binary_dirs: Vec<String>,
    /// File name of the placeholder game's binary inside its directory.
    pub placeholder_bin: String,
}

/// Default library roots under the home directory, by platform.
pub open spec fn home_root_table(platform: Platform) -> Seq<Seq<char>> {
    match platform {
        Platform::Linux => seq![".steam/steam/steamapps/common/"@],
        Platform::Unix => seq![".steam/steam/steamapps/common/"@],
        Platform::MacOs => seq![
            ".steam/steam/steamapps/common/"@,
            "Library/Application Support/Steam/steamapps/common/"@,
        ],
        Platform::Windows => seq![],
    }
}

/// Default library roots at fixed places, by platform.
pub open spec fn fixed_root_table(platform: Platform) -> Seq<Seq<char>> {
    match platform {
        Platform::Windows => seq![
            "C:\\Program Files (x86)\\Steam\\steamapps\\common\\"@,
            "C:\\Program Files\\Steam\\steamapps\\common\\"@,
        ],
        _ => seq![],
    }
}

/// Endings of binary names, by platform.
pub open spec fn binary_suffix_table(platform: Platform) -> Seq<Seq<char>> {
    match platform {
        Platform::Linux => seq![".exe"@, ".x86"@, ".x86_64"@, ".bin"@, "64"@, ".linux"@],
        Platform::MacOs => seq![".exe"@, ".x86"@, ".x86_64"@, ".bin"@, "64"@, ".app"@],
        _ => seq![".exe"@, ".x86"@, ".x86_64"@, ".bin"@, "64"@],
    }
}

/// Endings that rule a file out: libraries, lock files, folder metadata.
pub open spec fn blacklist_table() -> Seq<Seq<char>> {
    seq![".dll"@, ".lock"@, ".ds_store"@]
}

/// Names of directories that conventionally hold binaries.
pub open spec fn binary_dir_table() -> Seq<Seq<char>> {
    seq!["bin"@, "binary"@, "run"@, "game"@, "x64"@]
}

/// File name of the placeholder game's binary, by platform.
pub open spec fn placeholder_bin_name(platform: Platform) -> Seq<char> {
    match platform {
        Platform::MacOs => "Glitchball.app"@,
        _ => "glitchball_linux.x86_64"@,
    }
}

/// Appends a copy of `s` to `v`.
fn push_text(v: &mut Vec<String>, s: &str)
    ensures
        views(final(v)@) == views(old(v)@).push(s@),
{
    v.push(String::from_str(s));
}

impl Platform {
    /// The platform that goes by the name `os`, as `std::env::consts::OS`
    /// spells it. Names other than those of Linux, macOS and Windows are
    /// taken for another Unix-like system.
    pub fn from_os_name(os: &str) -> (r: Platform)
        ensures
            r == if os@ == "linux"@ {
                Platform::Linux
            } else if os@ == "macos"@ {
                Platform::MacOs
            } else if os@ == "windows"@ {
                Platform::Windows
            } else {
                Platform::Unix
            },
    {
        if str_eq(os, "linux") {
            Platform::Linux
        } else if str_eq(os, "macos") {
            Platform::MacOs
        } else if str_eq(os, "windows") {
            Platform::Windows
        } else {
            Platform::Unix
        }
    }
}

impl PlatformProfile {
    /// The profile of `platform`: each of its tables is the one the table
    /// functions of this module give.
    pub fn new(platform: Platform) -> (r: PlatformProfile)
        ensures
            views(r.home_roots@) == home_root_table(platform),
            views(r.fixed_roots@) == fixed_root_table(platform),
            views(r.binary_suffixes@) == binary_suffix_table(platform),
            views(r.blacklist@) == blacklist_table(),
            views(r.binary_dirs@) == binary_dir_table(),
            r.placeholder_bin@ == placeholder_bin_name(platform),
    {
        let mut home_roots: Vec<String> = Vec::new();
        let mut fixed_roots: Vec<String> = Vec::new();
        let mut binary_suffixes: Vec<String> = Vec::new();
        let mut blacklist: Vec<String> = Vec::new();
        let mut binary_dirs: Vec<String> = Vec::new();

        match platform {
            Platform::Linux => {
                push_text(&mut home_roots, ".steam/steam/steamapps/common/");
            },
            Platform::Unix => {
                push_text(&mut home_roots, ".steam/steam/steamapps/common/");
            },
            Platform::MacOs => {
                push_text(&mut home_roots, ".steam/steam/steamapps/common/");
                push_text(&mut home_roots, "Library/Application Support/Steam/steamapps/common/");
            },
            Platform::Windows => {
                push_text(&mut fixed_roots, "C:\\Program Files (x86)\\Steam\\steamapps\\common\\");
                push_text(&mut fixed_roots, "C:\\Program Files\\Steam\\steamapps\\common\\");
            },
        }

        push_text(&mut binary_suffixes, ".exe");
        push_text(&mut binary_suffixes, ".x86");
        push_text(&mut binary_suffixes, ".x86_64");
        push_text(&mut binary_suffixes, ".bin");
        push_text(&mut binary_suffixes, "64");
        match platform {
            Platform::Linux => {
                push_text(&mut binary_suffixes, ".linux");
            },
            Platform::MacOs => {
                push_text(&mut binary_suffixes, ".app");
            },
            _ => {},
        }

        push_text(&mut blacklist, ".dll");
        push_text(&mut blacklist, ".lock");
        push_text(&mut blacklist, ".ds_store");

        push_text(&mut binary_dirs, "bin");
        push_text(&mut binary_dirs, "binary");
        push_text(&mut binary_dirs, "run");
        push_text(&mut binary_dirs, "game");
        push_text(&mut binary_dirs, "x64");

        let placeholder_bin: String = match platform {
            Platform::MacOs => String::from_str("Glitchball.app"),
            _ => String::from_str("glitchball_linux.x86_64"),
        };
        PlatformProfile {
            home_roots,
            fixed_roots,
            binary_suffixes,
            blacklist,
            binary_dirs,
            placeholder_bin,
        }
    }
}

/// Tells whether the operating system named `os`, as
/// `std::env::consts::OS` spells it, is one the launcher is known to work on.
pub fn is_supported_platform(os: &str) -> (r: bool)
    ensures
        r == (os@ == "linux"@),
{
    str_eq(os, "linux")
}

/// The warning to show where the operating system named `os` is not a
/// supported one; nothing where it is.
pub fn report_unsupported_platform(os: &str) -> (r: Option<String>)
    ensures
        match r {
            Some(warning) => os@ != "linux"@ && warning@
                == "Error: unsupported platform, may not work"@,
            None => os@ == "linux"@,
        },
{
    if is_supported_platform(os) {
        None
    } else {
        Some(String::from_str("Error: unsupported platform, may not work"))
    }
}

} // verus!
