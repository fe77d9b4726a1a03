//! The choice of a game and of one of its binaries.
//!
//! The library prepares what is shown and decides what follows from an
//! answer. Showing the menu and waiting for the answer are the caller's.

use vstd::prelude::*;
use vstd::string::*;
use vstd::seq_lib::*;
use crate::fs::{DirEntry, ListingFailed};
use crate::game::GamePath;
use crate::paths::{file_name, file_name_of};
use crate::platform::PlatformProfile;
use crate::scan::{binaries_in, find_game_bins, find_steam_game_dirs, first_n, game_dirs};
use crate::strings::{
    compare, lemma_lex_lt_irreflexive, lemma_lex_lt_transitive, lex_lt, str_eq, views, Order,
};

verus! {

/// One line of a menu: a game directory or a binary.
#[derive(Debug, PartialEq, Eq)]
pub struct SkimGameFile {
    /// The full path, handed back when the line is picked.
    pub dir: String,
    /// The name that is shown.
    pub name: String,
}

/// Where a selection stands.
#[derive(Debug, PartialEq, Eq)]
pub enum SelectState {
    /// Nothing has been shown yet.
    Start,
    /// The menu of games is shown.
    ChoosingGame,
    /// The menu of the binaries of the game at `dir` is shown.
    ChoosingBinary { dir: String },
}

/// Why a selection ended without a game.
#[derive(Clone, Copy, Debug, PartialEq, Eq, Structural)]
pub enum SelectError {
    /// The menu of games was left without a pick.
    NothingSelected,
    /// The picked game's directory could not be listed.
    ListingFailed,
    /// The picked game's directory holds no binary.
    NoQualifyingBinary,
    /// A path that should be shown has no file name.
    Unnamed,
}

/// What a selection does next.
#[derive(Debug)]
pub enum SelectStep {
    /// Show `items` under `prompt`, then go on from `next` with the pick.
    Ask { prompt: String, items: Vec<SkimGameFile>, next: SelectState },
    /// The selection is made.
    Done(GamePath),
    /// The selection failed.
    Failed(SelectError),
}

/// The limit that stands for "all binaries".
pub const ALL_BINARIES: usize = 999999999;

/// A menu line as a pair of path and name.
pub open spec fn item_views(items: Seq<SkimGameFile>) -> Seq<(Seq<char>, Seq<char>)> {
    Seq::new(items.len(), |i: int| (items[i].dir@, items[i].name@))
}

/// The menu line of a path: the path itself, under its file name.
pub open spec fn label_of() -> spec_fn(Seq<char>) -> (Seq<char>, Seq<char>) {
    |path: Seq<char>| (path, file_name_of(path).unwrap())
}

/// The menu lines of a list of paths, in order.
pub open spec fn labels(paths: Seq<Seq<char>>) -> Seq<(Seq<char>, Seq<char>)> {
    paths.map_values(label_of())
}

/// Every path has a file name.
pub open spec fn all_named(paths: Seq<Seq<char>>) -> bool {
    forall|i: int| 0 <= i < paths.len() ==> file_name_of(#[trigger] paths[i]) is Some
}

/// The lines come in dictionary order of their names.
pub open spec fn sorted_by_name(lines: Seq<(Seq<char>, Seq<char>)>) -> bool {
    forall|i: int, j: int|
        0 <= i < j < lines.len() ==> !lex_lt((#[trigger] lines[j]).1, (#[trigger] lines[i]).1)
}

/// `items` is the menu of `paths`: one line for each path, sorted by name.
pub open spec fn is_menu(items: Seq<SkimGameFile>, paths: Seq<Seq<char>>) -> bool {
    &&& sorted_by_name(item_views(items))
    &&& item_views(items).to_multiset() == labels(paths).to_multiset()
}

/// The first of `entries` that lies at `path`.
pub open spec fn child_at(entries: Seq<DirEntry>, path: Seq<char>) -> Option<DirEntry>
    decreases entries.len(),
{
    if entries.len() == 0 {
        None
    } else if entries[0].path@ == path {
        Some(entries[0])
    } else {
        child_at(entries.drop_first(), path)
    }
}

/// The entries listed in `root`; none where it has no listing.
pub open spec fn entries_of(root: DirEntry) -> Seq<DirEntry> {
    match root.children {
        Some(c) => c@,
        None => seq![],
    }
}

/// The first entry below the roots, in their order, that lies at `path`.
pub open spec fn entry_at(roots: Seq<DirEntry>, path: Seq<char>) -> Option<DirEntry>
    decreases roots.len(),
{
    if roots.len() == 0 {
        None
    } else if child_at(entries_of(roots[0]), path) is Some {
        child_at(entries_of(roots[0]), path)
    } else {
        entry_at(roots.drop_first(), path)
    }
}

/// The name under which the game at `dir` is shown; `?` where its path has
/// no file name.
pub open spec fn game_name(dir: Seq<char>) -> Seq<char> {
    match file_name_of(dir) {
        Some(n) => n,
        None => "?"@,
    }
}

/// The prompt of the menu of the binaries of the game at `dir`.
pub open spec fn binary_prompt(dir: Seq<char>) -> Seq<char> {
    "Select binary ("@ + game_name(dir) + ")"@
}

/// What is shown first: the menu of all games below the roots.
pub open spec fn shows_games(roots: Seq<DirEntry>, profile: PlatformProfile, step: SelectStep) -> bool {
    let dirs = game_dirs(roots, profile);
    if all_named(dirs) {
        &&& step matches SelectStep::Ask { prompt, items, next }
        &&& prompt@ == "Select game"@
        &&& is_menu(items@, dirs)
        &&& next is ChoosingGame
    } else {
        step matches SelectStep::Failed(e) && e == SelectError::Unnamed
    }
}

/// What follows the pick of the game at `dir`: the menu of its binaries, or
/// the reason why there is none.
pub open spec fn shows_binaries(
    roots: Seq<DirEntry>,
    profile: PlatformProfile,
    dir: Seq<char>,
    step: SelectStep,
) -> bool {
    match entry_at(roots, dir) {
        None => step matches SelectStep::Failed(e) && e == SelectError::ListingFailed,
        Some(entry) => if entry.children is None {
            step matches SelectStep::Failed(e) && e == SelectError::ListingFailed
        } else {
            let bins = first_n(binaries_in(entry, profile), ALL_BINARIES as nat);
            if bins.len() == 0 {
                step matches SelectStep::Failed(e) && e == SelectError::NoQualifyingBinary
            } else if !all_named(bins) {
                step matches SelectStep::Failed(e) && e == SelectError::Unnamed
            } else {
                &&& step matches SelectStep::Ask { prompt, items, next }
                &&& prompt@ == binary_prompt(dir)
                &&& is_menu(items@, bins)
                &&& next matches SelectState::ChoosingBinary { dir: d }
                &&& d@ == dir
            }
        },
    }
}

impl SkimGameFile {
    /// The menu line of `path`; none where the path has no file name.
    pub fn from(path: &str) -> (r: Option<SkimGameFile>)
        ensures
            match r {
                Some(item) => item.dir@ == path@ && file_name_of(path@) == Some(item.name@),
                None => file_name_of(path@) is None,
            },
    {
        match file_name(path) {
            Some(name) => Some(SkimGameFile { dir: String::from_str(path), name }),
            None => None,
        }
    }

    /// What the menu displays for this line: the name.
    pub fn display(&self) -> (r: String)
        ensures
            r@ == self.name@,
    {
        self.name.clone()
    }

    /// The text that the menu matches against: the name.
    pub fn text(&self) -> (r: &str)
        ensures
            r@ == self.name@,
    {
        self.name.as_str()
    }

    /// What comes back when this line is picked: the full path.
    pub fn output(&self) -> (r: &str)
        ensures
            r@ == self.dir@,
    {
        self.dir.as_str()
    }
}

/// A menu that is sorted by name stays so where a line is put behind the
/// lines that it does not precede and before a line that it precedes.
proof fn lemma_insert_keeps_menu_order(
    lines: Seq<(Seq<char>, Seq<char>)>,
    at: int,
    line: (Seq<char>, Seq<char>),
)
    requires
        sorted_by_name(lines),
        0 <= at <= lines.len(),
        forall|j: int| 0 <= j < at ==> !lex_lt(line.1, (#[trigger] lines[j]).1),
        at < lines.len() ==> lex_lt(line.1, lines[at].1),
    ensures
        sorted_by_name(lines.insert(at, line)),
{
    let grown = lines.insert(at, line);
    assert forall|x: int, y: int| 0 <= x < y < grown.len() implies !lex_lt(
        (#[trigger] grown[y]).1,
        (#[trigger] grown[x]).1,
    ) by {
        if y == at {
            assert(grown[x] == lines[x]);
        } else if x == at {
            assert(grown[y] == lines[y - 1]);
            if lex_lt(lines[y - 1].1, line.1) {
                lemma_lex_lt_transitive(lines[y - 1].1, line.1, lines[at].1);
                lemma_lex_lt_irreflexive(lines[at].1);
            }
        } else {
            let lx = if x < at { x } else { x - 1 };
            let ly = if y < at { y } else { y - 1 };
            assert(grown[x] == lines[lx] && grown[y] == lines[ly]);
        }
    }
}

/// Puts `item` into a menu that is sorted by name, behind the lines whose
/// names do not come after its own.
fn insert_by_name(items: &mut Vec<SkimGameFile>, item: SkimGameFile)
    requires
        sorted_by_name(item_views(old(items)@)),
    ensures
        sorted_by_name(item_views(final(items)@)),
        item_views(final(items)@).to_multiset() == item_views(old(items)@).to_multiset().insert(
            (item.dir@, item.name@),
        ),
{
    let ghost before = item_views(items@);
    let ghost line = (item.dir@, item.name@);
    let mut i: usize = 0;
    while i < items.len()
        invariant
            i <= items.len(),
            item_views(items@) == before,
            line == (item.dir@, item.name@),
            forall|j: int| 0 <= j < i ==> !lex_lt(line.1, (#[trigger] before[j]).1),
        ensures
            i <= items.len(),
            item_views(items@) == before,
            forall|j: int| 0 <= j < i ==> !lex_lt(line.1, (#[trigger] before[j]).1),
            i < items.len() ==> lex_lt(line.1, before[i as int].1),
        decreases items.len() - i,
    {
        assert(before[i as int].1 == items@[i as int].name@);
        match compare(items[i].name.as_str(), item.name.as_str()) {
            Order::Greater => {
                break;
            },
            _ => {
                i = i + 1;
            },
        }
    }
    proof {
        lemma_insert_keeps_menu_order(before, i as int, line);
        to_multiset_insert(before, i as int, line);
        assert(item_views(items@.insert(i as int, item)) =~= before.insert(i as int, line));
    }
    items.insert(i, item);
}

/// Makes the menu of the given paths: one line for each, under its file
/// name, sorted by name. There is none where a path has no file name.
pub fn skim_game_file_items(paths: &[String]) -> (r: Option<Vec<SkimGameFile>>)
    ensures
        match r {
            Some(items) => all_named(views(paths@)) && is_menu(items@, views(paths@)),
            None => !all_named(views(paths@)),
        },
{
    let mut items: Vec<SkimGameFile> = Vec::new();
    let ghost all = views(paths@);
    let mut i: usize = 0;
    proof {
        assert(labels(all.take(0)) =~= Seq::<(Seq<char>, Seq<char>)>::empty());
        assert(item_views(items@) =~= Seq::<(Seq<char>, Seq<char>)>::empty());
    }
    while i < paths.len()
        invariant
            i <= paths.len(),
            all == views(paths@),
            all_named(all.take(i as int)),
            sorted_by_name(item_views(items@)),
            item_views(items@).to_multiset() == labels(all.take(i as int)).to_multiset(),
        decreases paths.len() - i,
    {
        let item: SkimGameFile = match SkimGameFile::from(paths[i].as_str()) {
            Some(item) => item,
            None => {
                assert(file_name_of(all[i as int]) is None);
                return None;
            },
        };
        proof {
            let seen = all.take(i as int);
            assert(labels(all.take(i + 1)) =~= labels(seen).push((item.dir@, item.name@)));
            to_multiset_build(labels(seen), (item.dir@, item.name@));
            assert forall|k: int| 0 <= k < i + 1 implies file_name_of(
                #[trigger] all.take(i + 1)[k],
            ) is Some by {
                if k < i {
                    assert(all.take(i as int)[k] == all.take(i + 1)[k]);
                }
            }
        }
        insert_by_name(&mut items, item);
        i = i + 1;
    }
    assert(all.take(paths.len() as int) =~= all);
    Some(items)
}

/// Looks for the entry at `path` directly below one of the roots.
pub fn find_entry<'a>(roots: &'a [DirEntry], path: &str) -> (r: Option<&'a DirEntry>)
    ensures
        match r {
            Some(e) => entry_at(roots@, path@) == Some(*e),
            None => entry_at(roots@, path@) is None,
        },
{
    let mut k: usize = 0;
    assert(roots@.skip(0) =~= roots@);
    while k < roots.len()
        invariant
            k <= roots.len(),
            entry_at(roots@, path@) == entry_at(roots@.skip(k as int), path@),
        decreases roots.len() - k,
    {
        assert(roots@.skip(k as int).drop_first() =~= roots@.skip(k + 1));
        match &roots[k].children {
            Some(c) => {
                let mut i: usize = 0;
                assert(c@.skip(0) =~= c@);
                while i < c.len()
                    invariant
                        i <= c.len(),
                        k < roots.len(),
                        roots@[k as int].children == Some(*c),
                        roots@.skip(k as int)[0] == roots@[k as int],
                        entry_at(roots@, path@) == entry_at(roots@.skip(k as int), path@),
                        child_at(c@, path@) == child_at(c@.skip(i as int), path@),
                    decreases c.len() - i,
                {
                    assert(c@.skip(i as int).drop_first() =~= c@.skip(i + 1));
                    if str_eq(c[i].path.as_str(), path) {
                        return Some(&c[i]);
                    }
                    i = i + 1;
                }
            },
            None => {},
        }
        k = k + 1;
    }
    None
}

/// Opens a selection: the menu of the games below the roots.
fn ask_game(roots: &[DirEntry], profile: &PlatformProfile) -> (r: SelectStep)
    ensures
        shows_games(roots@, *profile, r),
{
    let dirs: Vec<String> = find_steam_game_dirs(roots, profile);
    match skim_game_file_items(&dirs) {
        Some(items) => SelectStep::Ask {
            prompt: String::from_str("Select game"),
            items,
            next: SelectState::ChoosingGame,
        },
        None => SelectStep::Failed(SelectError::Unnamed),
    }
}

/// Goes on from the pick of the game at `dir`: the menu of its binaries.
fn ask_binary(roots: &[DirEntry], profile: &PlatformProfile, dir: String) -> (r: SelectStep)
    ensures
        shows_binaries(roots@, *profile, dir@, r),
{
    let entry: &DirEntry = match find_entry(roots, dir.as_str()) {
        Some(e) => e,
        None => {
            return SelectStep::Failed(SelectError::ListingFailed);
        },
    };
    let bins: Vec<String> = match find_game_bins(entry, ALL_BINARIES, profile) {
        Ok(b) => b,
        Err(_) => {
            return SelectStep::Failed(SelectError::ListingFailed);
        },
    };
    if bins.len() == 0 {
        return SelectStep::Failed(SelectError::NoQualifyingBinary);
    }
    let items: Vec<SkimGameFile> = match skim_game_file_items(&bins) {
        Some(items) => items,
        None => {
            return SelectStep::Failed(SelectError::Unnamed);
        },
    };
    let mut prompt: String = String::from_str("Select binary (");
    match file_name(dir.as_str()) {
        Some(n) => {
            prompt.append(n.as_str());
        },
        None => {
            prompt.append("?");
        },
    }
    prompt.append(")");
    SelectStep::Ask { prompt, items, next: SelectState::ChoosingBinary { dir } }
}

/// Selects a game, one step at a time. From `Start` the menu of games is
/// shown. A pick from it leads to the menu of that game's binaries, and
/// leaving it without a pick ends the selection. A pick from the menu of
/// binaries completes the selection, and leaving that menu without a pick
/// leads back to the menu of games.
pub fn select_game(
    roots: &[DirEntry],
    profile: &PlatformProfile,
    state: SelectState,
    picked: Option<String>,
) -> (r: SelectStep)
    ensures
        match state {
            SelectState::Start => shows_games(roots@, *profile, r),
            SelectState::ChoosingGame => match picked {
                Some(dir) => shows_binaries(roots@, *profile, dir@, r),
                None => r matches SelectStep::Failed(e) && e == SelectError::NothingSelected,
            },
            SelectState::ChoosingBinary { dir } => match picked {
                Some(bin) => r matches SelectStep::Done(game) && game.dir@ == dir@ && game.bin@
                    == bin@,
                None => shows_games(roots@, *profile, r),
            },
        },
{
    match state {
        SelectState::Start => ask_game(roots, profile),
        SelectState::ChoosingGame => match picked {
            Some(dir) => ask_binary(roots, profile, dir),
            None => SelectStep::Failed(SelectError::NothingSelected),
        },
        SelectState::ChoosingBinary { dir } => match picked {
            Some(bin) => SelectStep::Done(GamePath { dir, bin }),
            None => ask_game(roots, profile),
        },
    }
}

} // verus!
