//! Walks over directory snapshots: the binaries below a directory, and the
//! game directories below a set of library roots.

use vstd::prelude::*;
use vstd::string::*;
use crate::classify::{is_bin, is_binary, lower_name, lowercase_name};
use crate::fs::{paths_of, DirEntry, EntryKind, ListingFailed};
use crate::platform::PlatformProfile;
use crate::strings::{lowercase, str_eq, to_lowercase, views};

verus! {

/// How many entries the snapshot lists in `dir`; none where it holds no
/// listing.
pub open spec fn child_count(dir: DirEntry) -> nat {
    match dir.children {
        Some(c) => c@.len(),
        None => 0,
    }
}

/// The binaries that `entry` contributes to a walk: those below it where it
/// is a directory, itself where it is a binary, nothing otherwise.
pub open spec fn binaries_under(entry: DirEntry, profile: PlatformProfile) -> Seq<Seq<char>>
    decreases entry, child_count(entry) + 1,
{
    if entry.kind == EntryKind::Dir {
        binaries_among(entry, child_count(entry), profile)
    } else if is_binary(entry, profile) {
        seq![entry.path@]
    } else {
        seq![]
    }
}

/// The binaries that the first `n` entries of `dir` contribute, in listing
/// order, each directory's before those of the entry that follows it.
pub open spec fn binaries_among(dir: DirEntry, n: nat, profile: PlatformProfile) -> Seq<Seq<char>>
    decreases dir, n,
{
    if n == 0 || n > child_count(dir) {
        seq![]
    } else {
        binaries_among(dir, (n - 1) as nat, profile) + binaries_under(
            dir.children.unwrap()[n - 1],
            profile,
        )
    }
}

/// All binaries below `dir`, in depth-first order. A directory without a
/// listing contributes nothing.
pub open spec fn binaries_in(dir: DirEntry, profile: PlatformProfile) -> Seq<Seq<char>> {
    binaries_among(dir, child_count(dir), profile)
}

/// The first `limit` items of `s`, or all of `s` where it has fewer.
pub open spec fn first_n<T>(s: Seq<T>, limit: nat) -> Seq<T> {
    if limit < s.len() {
        s.take(limit as int)
    } else {
        s
    }
}

/// `dir` is a directory with at least one binary somewhere below it.
pub open spec fn holds_game(dir: DirEntry, profile: PlatformProfile) -> bool {
    dir.kind == EntryKind::Dir && binaries_in(dir, profile).len() > 0
}

/// The test that picks the game directories out of a listing.
pub open spec fn game_filter(profile: PlatformProfile) -> spec_fn(DirEntry) -> bool {
    |e: DirEntry| holds_game(e, profile)
}

/// The game directories directly below `root`, in listing order. A root
/// without a listing has none.
pub open spec fn games_in(root: DirEntry, profile: PlatformProfile) -> Seq<Seq<char>> {
    match root.children {
        Some(c) => paths_of(c@.filter(game_filter(profile))),
        None => seq![],
    }
}

/// The game directories below each of `roots`, root after root.
pub open spec fn game_dirs(roots: Seq<DirEntry>, profile: PlatformProfile) -> Seq<Seq<char>> {
    roots.map_values(|r: DirEntry| games_in(r, profile)).flatten()
}

/// `dir` is a directory whose name is `name`, letter case aside.
pub open spec fn is_dir_named(dir: DirEntry, name: Seq<char>) -> bool {
    dir.kind == EntryKind::Dir && lower_name(dir.path@) == Some(lowercase(name))
}

/// The test that picks the directories named `name` out of a listing.
pub open spec fn name_filter(name: Seq<char>) -> spec_fn(DirEntry) -> bool {
    |e: DirEntry| is_dir_named(e, name)
}

/// The directories directly below `root` that go by `name`, in listing order.
pub open spec fn named_in(root: DirEntry, name: Seq<char>) -> Seq<Seq<char>> {
    match root.children {
        Some(c) => paths_of(c@.filter(name_filter(name))),
        None => seq![],
    }
}

/// The directories below each of `roots` that go by `name`, root after root.
pub open spec fn dirs_named(roots: Seq<DirEntry>, name: Seq<char>) -> Seq<Seq<char>> {
    roots.map_values(|r: DirEntry| named_in(r, name)).flatten()
}

/// What the first entries of a directory contribute to a walk is the start of
/// what more of them contribute.
proof fn lemma_binaries_among_grows(dir: DirEntry, i: nat, j: nat, profile: PlatformProfile)
    requires
        i <= j <= child_count(dir),
    ensures
        binaries_among(dir, i, profile).len() <= binaries_among(dir, j, profile).len(),
        binaries_among(dir, j, profile).take(binaries_among(dir, i, profile).len() as int)
            == binaries_among(dir, i, profile),
    decreases j,
{
    if i < j {
        lemma_binaries_among_grows(dir, i, (j - 1) as nat, profile);
    }
}

/// Appends to `out` the binaries below `dir`, stopping once `out` holds
/// `limit` paths.
fn collect_bins(dir: &DirEntry, limit: usize, profile: &PlatformProfile, out: &mut Vec<String>)
    requires
        old(out).len() <= limit,
    ensures
        views(final(out)@) == first_n(
            views(old(out)@) + binaries_in(*dir, *profile),
            limit as nat,
        ),
    decreases dir,
{
    let ghost before = views(out@);
    match &dir.children {
        None => {},
        Some(c) => {
            let mut i: usize = 0;
            while i < c.len() && out.len() < limit
                invariant
                    dir.children == Some(*c),
                    i <= c.len(),
                    out.len() <= limit,
                    before.len() <= limit,
                    views(out@) == first_n(
                        before + binaries_among(*dir, i as nat, *profile),
                        limit as nat,
                    ),
                decreases c.len() - i,
            {
                let entry = &c[i];
                let ghost held = views(out@);
                match entry.kind {
                    EntryKind::Dir => {
                        collect_bins(entry, limit, profile, out);
                    },
                    _ => {
                        if is_bin(entry, profile) {
                            out.push(entry.path.clone());
                        }
                    },
                }
                assert(views(out@) =~= first_n(
                    held + binaries_under(*entry, *profile),
                    limit as nat,
                ));
                i = i + 1;
            }
            proof {
                lemma_binaries_among_grows(*dir, i as nat, c@.len(), *profile);
                let part = before + binaries_among(*dir, i as nat, *profile);
                let whole = before + binaries_in(*dir, *profile);
                if i < c.len() {
                    assert(whole.take(limit as int) =~= part.take(limit as int));
                }
            }
        },
    }
}

/// Finds game binaries: the paths of the first `limit` binaries below `dir`,
/// in depth-first order. Directories below `dir` that could not be listed are
/// passed over. Fails exactly where `dir` itself could not be listed.
pub fn find_game_bins(dir: &DirEntry, limit: usize, profile: &PlatformProfile) -> (r: Result<
    Vec<String>,
    ListingFailed,
>)
    ensures
        dir.children is None ==> r == Err::<Vec<String>, ListingFailed>(ListingFailed),
        dir.children is Some ==> (r matches Ok(v) && views(v@) == first_n(
            binaries_in(*dir, *profile),
            limit as nat,
        )),
{
    if dir.children.is_none() {
        return Err(ListingFailed);
    }
    let mut out: Vec<String> = Vec::new();
    collect_bins(dir, limit, profile, &mut out);
    Ok(out)
}

/// Checks whether a game has binaries: whether at least one lies below `dir`.
pub fn game_has_bins(dir: &DirEntry, profile: &PlatformProfile) -> (r: bool)
    ensures
        r == (binaries_in(*dir, *profile).len() > 0),
{
    match find_game_bins(dir, 1, profile) {
        Ok(v) => {
            assert(views(v@).len() == v@.len());
            v.len() > 0
        },
        Err(_) => false,
    }
}

/// The paths of a listing grow by one path where the listing grows by one
/// entry.
proof fn lemma_paths_of_push(entries: Seq<DirEntry>, entry: DirEntry)
    ensures
        paths_of(entries.push(entry)) == paths_of(entries).push(entry.path@),
{
}

/// Appends to `out` the game directories directly below `root`.
fn collect_games(root: &DirEntry, profile: &PlatformProfile, out: &mut Vec<String>)
    ensures
        views(final(out)@) == views(old(out)@) + games_in(*root, *profile),
{
    let ghost before = views(out@);
    let ghost pick = game_filter(*profile);
    match &root.children {
        None => {},
        Some(c) => {
            let mut i: usize = 0;
            proof {
                reveal(Seq::filter);
            }
            while i < c.len()
                invariant
                    i <= c.len(),
                    pick == game_filter(*profile),
                    views(out@) == before + paths_of(c@.take(i as int).filter(pick)),
                decreases c.len() - i,
            {
                let entry = &c[i];
                let ghost held = views(out@);
                let keep: bool = match entry.kind {
                    EntryKind::Dir => game_has_bins(entry, profile),
                    _ => false,
                };
                proof {
                    let seen = c@.take(i as int);
                    assert(c@.take(i + 1) =~= seen.push(*entry));
                    seen.lemma_filter_push(*entry, pick);
                    lemma_paths_of_push(seen.filter(pick), *entry);
                }
                if keep {
                    out.push(entry.path.clone());
                    assert(views(out@) =~= held.push(entry.path@));
                }
                i = i + 1;
            }
            assert(c@.take(c.len() as int) =~= c@);
        },
    }
}

/// Finds the directories of games: below each of `roots`, the directories
/// that hold at least one binary, in listing order, root after root. A root
/// that could not be listed has none.
pub fn find_steam_game_dirs(roots: &[DirEntry], profile: &PlatformProfile) -> (r: Vec<String>)
    ensures
        views(r@) == game_dirs(roots@, *profile),
{
    let mut out: Vec<String> = Vec::new();
    let ghost per_root = |r: DirEntry| games_in(r, *profile);
    let mut k: usize = 0;
    while k < roots.len()
        invariant
            k <= roots.len(),
            per_root == |r: DirEntry| games_in(r, *profile),
            views(out@) == roots@.take(k as int).map_values(per_root).flatten(),
        decreases roots.len() - k,
    {
        collect_games(&roots[k], profile, &mut out);
        proof {
            let seen = roots@.take(k as int).map_values(per_root);
            assert(roots@.take(k + 1).map_values(per_root) =~= seen.push(per_root(roots@[k as int])));
            seen.lemma_flatten_push(per_root(roots@[k as int]));
        }
        k = k + 1;
    }
    assert(roots@.take(roots.len() as int) =~= roots@);
    out
}

/// Tells whether `entry` is a directory that goes by the lowercase name
/// `wanted`.
fn named_dir(entry: &DirEntry, wanted: &str) -> (r: bool)
    ensures
        r == (entry.kind == EntryKind::Dir && lower_name(entry.path@) == Some(wanted@)),
{
    match entry.kind {
        EntryKind::Dir => match lowercase_name(entry.path.as_str()) {
            Some(n) => str_eq(n.as_str(), wanted),
            None => false,
        },
        _ => false,
    }
}

/// Appends to `out` the directories directly below `root` that go by `name`.
fn collect_named(root: &DirEntry, name: &str, out: &mut Vec<String>)
    ensures
        views(final(out)@) == views(old(out)@) + named_in(*root, name@),
{
    let ghost before = views(out@);
    let ghost pick = name_filter(name@);
    match &root.children {
        None => {},
        Some(c) => {
            let wanted: String = to_lowercase(name);
            let mut i: usize = 0;
            proof {
                reveal(Seq::filter);
            }
            while i < c.len()
                invariant
                    i <= c.len(),
                    pick == name_filter(name@),
                    wanted@ == lowercase(name@),
                    views(out@) == before + paths_of(c@.take(i as int).filter(pick)),
                decreases c.len() - i,
            {
                let entry = &c[i];
                let ghost held = views(out@);
                let keep: bool = named_dir(entry, wanted.as_str());
                proof {
                    let seen = c@.take(i as int);
                    assert(c@.take(i + 1) =~= seen.push(*entry));
                    seen.lemma_filter_push(*entry, pick);
                    lemma_paths_of_push(seen.filter(pick), *entry);
                }
                if keep {
                    out.push(entry.path.clone());
                    assert(views(out@) =~= held.push(entry.path@));
                }
                i = i + 1;
            }
            assert(c@.take(c.len() as int) =~= c@);
        },
    }
}

/// Finds the directory of a game: below each of `roots`, the directories
/// whose name is `name`, letter case aside, whatever they hold. A root that
/// could not be listed has none.
pub fn find_game_dir(roots: &[DirEntry], name: &str) -> (r: Vec<String>)
    ensures
        views(r@) == dirs_named(roots@, name@),
{
    let mut out: Vec<String> = Vec::new();
    let ghost per_root = |r: DirEntry| named_in(r, name@);
    let mut k: usize = 0;
    while k < roots.len()
        invariant
            k <= roots.len(),
            per_root == |r: DirEntry| named_in(r, name@),
            views(out@) == roots@.take(k as int).map_values(per_root).flatten(),
        decreases roots.len() - k,
    {
        collect_named(&roots[k], name, &mut out);
        proof {
            let seen = roots@.take(k as int).map_values(per_root);
            assert(roots@.take(k + 1).map_values(per_root) =~= seen.push(per_root(roots@[k as int])));
            seen.lemma_flatten_push(per_root(roots@[k as int]));
        }
        k = k + 1;
    }
    assert(roots@.take(roots.len() as int) =~= roots@);
    out
}

} // verus!
