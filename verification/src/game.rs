//! Games and where they lie on disk: the chosen game, and the placeholder
//! that is made to run it.

use vstd::prelude::*;
use vstd::string::*;
use crate::fs::{DirEntry, EntryKind};
use crate::launcher::{
    game_url, invoke_steam_install, invoke_steam_run, invoke_steam_uninstall,
    invoke_steam_validate,
};
use crate::paths::{join, joined, parent, parent_of};
use crate::platform::PlatformProfile;
use crate::scan::{dirs_named, find_game_dir};
use crate::strings::views;
use crate::swap::{replace, step_views, swap_plan, SwapStep};

verus! {

/// The identifier under which the launcher knows the placeholder game.
pub const PLACEHOLDER_GAME_ID: usize = 823470;

/// The name of the directory in which the placeholder game is installed.
pub open spec fn placeholder_game_dir() -> Seq<char> {
    "Glitchball"@
}

/// The path to a game.
#[derive(Debug, PartialEq, Eq)]
pub struct GamePath {
    /// The game's root directory.
    pub dir: String,
    /// The game's binary.
    pub bin: String,
}

/// A game that the launcher knows.
#[derive(Debug, PartialEq, Eq)]
pub struct Game {
    /// The launcher's identifier of the game.
    pub id: usize,
    /// Where the game lies.
    pub path: GamePath,
}

/// What was found of the placeholder game.
#[derive(Debug)]
pub enum Placeholder {
    /// It is installed in one place.
    Ready(Game),
    /// It is not installed. Opening the addresses of `launch`, in order, asks
    /// the launcher to install it and to validate its files.
    Missing { launch: Vec<String> },
    /// It is installed in several places, `dirs`. They are to be removed, and
    /// opening the addresses of `launch` asks the launcher to uninstall it.
    Duplicated { dirs: Vec<String>, launch: Vec<String> },
}

impl GamePath {
    /// The path of the game whose binary is `bin`, a snapshot entry under its
    /// canonical path: its root is the directory that holds the binary. The
    /// binary must be a regular file. There is no game path where the
    /// binary's path has no parent.
    pub fn from_bin(bin: &DirEntry) -> (r: Option<GamePath>)
        requires
            bin.kind == EntryKind::File,
        ensures
            match r {
                Some(game) => game.bin@ == bin.path@ && parent_of(bin.path@) == Some(game.dir@),
                None => parent_of(bin.path@) is None,
            },
    {
        match parent(bin.path.as_str()) {
            Some(dir) => Some(GamePath { dir, bin: bin.path.clone() }),
            None => None,
        }
    }

    /// Plans the replacement of this game by another: everything in this
    /// game's directory, whose listing is `contents`, is deleted, and this
    /// game's binary becomes a link to the binary of `replacement`.
    pub fn replace_contents_with_linked(
        &self,
        replacement: &GamePath,
        contents: &[DirEntry],
    ) -> (r: Vec<SwapStep>)
        ensures
            step_views(r@) == swap_plan(contents@, replacement.bin@, self.bin@),
    {
        replace(contents, replacement.bin.as_str(), self.bin.as_str())
    }
}

impl Game {
    /// The address that tells the launcher to run this game.
    pub fn run(&self) -> (r: String)
        ensures
            r@ == game_url("run"@, self.id as nat),
    {
        invoke_steam_run(self.id)
    }

    /// The placeholder game installed at `dir`. Its binary lies directly in
    /// `dir`, under the name that the platform gives it.
    pub fn placeholder(dir: String, profile: &PlatformProfile) -> (r: Game)
        ensures
            r.id == PLACEHOLDER_GAME_ID,
            r.path.dir@ == dir@,
            r.path.bin@ == joined(dir@, profile.placeholder_bin@),
    {
        let bin: String = join(dir.as_str(), profile.placeholder_bin.as_str());
        Game { id: PLACEHOLDER_GAME_ID, path: GamePath { dir, bin } }
    }
}

/// Finds the placeholder game below the library roots. Installed in exactly
/// one place, it is ready. Installed nowhere, it is to be installed and
/// validated. Installed in several places, all of them are to be removed and
/// the game uninstalled.
pub fn find_placeholder_game(roots: &[DirEntry], profile: &PlatformProfile) -> (r: Placeholder)
    ensures
        ({
            let found = dirs_named(roots@, placeholder_game_dir());
            match r {
                Placeholder::Ready(game) => {
                    &&& found.len() == 1
                    &&& game.id == PLACEHOLDER_GAME_ID
                    &&& game.path.dir@ == found[0]
                    &&& game.path.bin@ == joined(found[0], profile.placeholder_bin@)
                },
                Placeholder::Missing { launch } => {
                    &&& found.len() == 0
                    &&& views(launch@) == seq![
                        game_url("install"@, PLACEHOLDER_GAME_ID as nat),
                        game_url("validate"@, PLACEHOLDER_GAME_ID as nat),
                    ]
                },
                Placeholder::Duplicated { dirs, launch } => {
                    &&& found.len() > 1
                    &&& views(dirs@) == found
                    &&& views(launch@) == seq![game_url("uninstall"@, PLACEHOLDER_GAME_ID as nat)]
                },
            }
        }),
{
    let mut dirs: Vec<String> = find_game_dir(roots, "Glitchball");
    if dirs.len() == 1 {
        let dir: String = dirs.remove(0);
        Placeholder::Ready(Game::placeholder(dir, profile))
    } else if dirs.len() == 0 {
        let mut launch: Vec<String> = Vec::new();
        launch.push(invoke_steam_install(PLACEHOLDER_GAME_ID));
        launch.push(invoke_steam_validate(PLACEHOLDER_GAME_ID));
        Placeholder::Missing { launch }
    } else {
        let mut launch: Vec<String> = Vec::new();
        launch.push(invoke_steam_uninstall(PLACEHOLDER_GAME_ID));
        Placeholder::Duplicated { dirs, launch }
    }
}

} // verus!
