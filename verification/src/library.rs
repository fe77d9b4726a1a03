//! Where game libraries live: the platform's default roots and the extra
//! roots that the user configured, merged and deduplicated.
//!
//! The disk is not read here. A `Survey` says which of the paths in question
//! are directories, under which canonical path, and what the manifests hold
//! that could be loaded. `default_steam_dirs`, `manifest_paths` and
//! `find_steam_dirs_extras` tell a caller which paths to ask the disk about.

use vstd::prelude::*;
use vstd::string::*;
use crate::paths::{join, joined, parent, parent_of};
use crate::platform::PlatformProfile;
use crate::strings::{sort_dedup, str_eq, strictly_sorted, views};
use crate::vdf::{find_steam_dirs_extras, library_folders, VdfEntry};

verus! {

/// A path that was found to be a directory.
#[derive(Debug)]
pub struct DirFact {
    /// The path that was asked about.
    pub path: String,
    /// The canonical path of the directory it leads to.
    pub canonical: String,
}

/// A manifest that could be loaded.
#[derive(Debug)]
pub struct ManifestFact {
    /// The path of the manifest file.
    pub path: String,
    /// What the file holds.
    pub content: VdfEntry,
}

/// What is known of the disk when library roots are looked for.
#[derive(Debug)]
pub struct Survey {
    /// The user's home directory, if it could be determined.
    pub home: Option<String>,
    /// The paths that are directories. A path that no fact mentions is taken
    /// not to be one.
    pub dirs: Vec<DirFact>,
    /// The manifests that could be loaded. A path that no fact mentions is
    /// taken to hold none.
    pub manifests: Vec<ManifestFact>,
}

/// The user's home directory cannot be determined.
#[derive(Clone, Copy, Debug, PartialEq, Eq, Structural)]
pub struct HomeDirectoryUnknown;

/// The file name of the manifest that declares extra library folders.
pub open spec fn manifest_name() -> Seq<char> {
    "libraryfolders.vdf"@
}

/// The canonical path recorded for `path`, by the first fact that mentions it.
pub open spec fn canonical_of(dirs: Seq<DirFact>, path: Seq<char>) -> Option<Seq<char>>
    decreases dirs.len(),
{
    if dirs.len() == 0 {
        None
    } else if dirs[0].path@ == path {
        Some(dirs[0].canonical@)
    } else {
        canonical_of(dirs.drop_first(), path)
    }
}

/// The manifest recorded at `path`, by the first fact that mentions it.
pub open spec fn manifest_at(manifests: Seq<ManifestFact>, path: Seq<char>) -> Option<VdfEntry>
    decreases manifests.len(),
{
    if manifests.len() == 0 {
        None
    } else if manifests[0].path@ == path {
        Some(manifests[0].content)
    } else {
        manifest_at(manifests.drop_first(), path)
    }
}

/// Places a relative root below `home`.
pub open spec fn under_home(home: Seq<char>) -> spec_fn(Seq<char>) -> Seq<char> {
    |rel: Seq<char>| joined(home, rel)
}

/// The platform's default roots: those below `home`, then the fixed ones.
pub open spec fn default_candidates(profile: PlatformProfile, home: Seq<char>) -> Seq<Seq<char>> {
    views(profile.home_roots@).map_values(under_home(home)) + views(profile.fixed_roots@)
}

/// Where a manifest may lie for the library root `dir`: in `dir` itself, and
/// in its parent where it has one.
pub open spec fn manifest_sites(dir: Seq<char>) -> Seq<Seq<char>> {
    match parent_of(dir) {
        Some(p) => seq![joined(dir, manifest_name()), joined(p, manifest_name())],
        None => seq![joined(dir, manifest_name())],
    }
}

/// Maps a path to its canonical form where it is a directory.
pub open spec fn resolve(dirs: Seq<DirFact>) -> spec_fn(Seq<char>) -> Option<Seq<char>> {
    |path: Seq<char>| canonical_of(dirs, path)
}

/// The canonical paths of those of `candidates` that are directories, in
/// order.
pub open spec fn existing(dirs: Seq<DirFact>, candidates: Seq<Seq<char>>) -> Seq<Seq<char>> {
    candidates.filter_map(resolve(dirs))
}

/// The extra roots that the manifest at `site` contributes: the folders it
/// declares that are directories. A missing manifest, or one without a
/// folders table, contributes none.
pub open spec fn extras_at(survey: Survey, site: Seq<char>) -> Seq<Seq<char>> {
    match manifest_at(survey.manifests@, site) {
        Some(m) => match library_folders(m) {
            Some(folders) => existing(survey.dirs@, folders),
            None => seq![],
        },
        None => seq![],
    }
}

/// Gathers the extra roots of one manifest site.
pub open spec fn site_extras(survey: Survey) -> spec_fn(Seq<char>) -> Seq<Seq<char>> {
    |site: Seq<char>| extras_at(survey, site)
}

/// The extra roots found from the default root `dir`: none where `dir` is no
/// directory, else those of its manifest sites.
pub open spec fn extras_near(survey: Survey, dir: Seq<char>) -> Seq<Seq<char>> {
    if canonical_of(survey.dirs@, dir) is Some {
        manifest_sites(dir).map_values(site_extras(survey)).flatten()
    } else {
        seq![]
    }
}

/// Gathers the extra roots found from one default root.
pub open spec fn root_extras(survey: Survey) -> spec_fn(Seq<char>) -> Seq<Seq<char>> {
    |dir: Seq<char>| extras_near(survey, dir)
}

/// All library roots before sorting: the default roots that are directories,
/// then the extra roots found from each of them.
pub open spec fn root_list(profile: PlatformProfile, survey: Survey, home: Seq<char>) -> Seq<
    Seq<char>,
> {
    let candidates = default_candidates(profile, home);
    existing(survey.dirs@, candidates) + candidates.map_values(root_extras(survey)).flatten()
}

/// The platform's default library roots for the given home directory, whether
/// they exist or not.
pub fn default_steam_dirs(profile: &PlatformProfile, home: &str) -> (r: Vec<String>)
    ensures
        views(r@) == default_candidates(*profile, home@),
{
    let mut out: Vec<String> = Vec::new();
    let ghost rels = views(profile.home_roots@);
    let mut i: usize = 0;
    while i < profile.home_roots.len()
        invariant
            i <= profile.home_roots.len(),
            rels == views(profile.home_roots@),
            views(out@) == rels.take(i as int).map_values(under_home(home@)),
        decreases profile.home_roots.len() - i,
    {
        let ghost held = views(out@);
        out.push(join(home, profile.home_roots[i].as_str()));
        assert(views(out@) =~= held.push(joined(home@, rels[i as int])));
        i = i + 1;
    }
    let ghost below = views(out@);
    let ghost fixed = views(profile.fixed_roots@);
    let mut k: usize = 0;
    while k < profile.fixed_roots.len()
        invariant
            k <= profile.fixed_roots.len(),
            fixed == views(profile.fixed_roots@),
            views(out@) == below + fixed.take(k as int),
        decreases profile.fixed_roots.len() - k,
    {
        let ghost held = views(out@);
        out.push(profile.fixed_roots[k].clone());
        assert(views(out@) =~= held.push(fixed[k as int]));
        k = k + 1;
    }
    out
}

/// The paths at which a manifest may lie for the library root `dir`.
pub fn manifest_paths(dir: &str) -> (r: Vec<String>)
    ensures
        views(r@) == manifest_sites(dir@),
{
    let mut out: Vec<String> = Vec::new();
    out.push(join(dir, "libraryfolders.vdf"));
    match parent(dir) {
        Some(p) => {
            out.push(join(p.as_str(), "libraryfolders.vdf"));
        },
        None => {},
    }
    out
}

/// Looks up the canonical path under which `path` is known as a directory.
pub fn lookup_dir<'a>(dirs: &'a [DirFact], path: &str) -> (r: Option<&'a String>)
    ensures
        match r {
            Some(c) => canonical_of(dirs@, path@) == Some(c@),
            None => canonical_of(dirs@, path@) is None,
        },
{
    let mut i: usize = 0;
    assert(dirs@.skip(0) =~= dirs@);
    while i < dirs.len()
        invariant
            i <= dirs.len(),
            canonical_of(dirs@, path@) == canonical_of(dirs@.skip(i as int), path@),
        decreases dirs.len() - i,
    {
        assert(dirs@.skip(i as int).drop_first() =~= dirs@.skip(i + 1));
        if str_eq(dirs[i].path.as_str(), path) {
            return Some(&dirs[i].canonical);
        }
        i = i + 1;
    }
    None
}

/// Looks up the manifest that was loaded from `path`.
pub fn lookup_manifest<'a>(manifests: &'a [ManifestFact], path: &str) -> (r: Option<
    &'a VdfEntry,
>)
    ensures
        match r {
            Some(m) => manifest_at(manifests@, path@) == Some(*m),
            None => manifest_at(manifests@, path@) is None,
        },
{
    let mut i: usize = 0;
    assert(manifests@.skip(0) =~= manifests@);
    while i < manifests.len()
        invariant
            i <= manifests.len(),
            manifest_at(manifests@, path@) == manifest_at(manifests@.skip(i as int), path@),
        decreases manifests.len() - i,
    {
        assert(manifests@.skip(i as int).drop_first() =~= manifests@.skip(i + 1));
        if str_eq(manifests[i].path.as_str(), path) {
            return Some(&manifests[i].content);
        }
        i = i + 1;
    }
    None
}

/// Appends to `out` the canonical paths of those of `candidates` that are
/// directories.
fn append_existing(dirs: &[DirFact], candidates: &[String], out: &mut Vec<String>)
    ensures
        views(final(out)@) == views(old(out)@) + existing(dirs@, views(candidates@)),
{
    let ghost before = views(out@);
    let ghost cands = views(candidates@);
    let mut i: usize = 0;
    while i < candidates.len()
        invariant
            i <= candidates.len(),
            cands == views(candidates@),
            views(out@) == before + cands.take(i as int).filter_map(resolve(dirs@)),
        decreases candidates.len() - i,
    {
        let ghost held = views(out@);
        proof {
            cands.lemma_filter_map_take_succ(resolve(dirs@), i as int);
        }
        match lookup_dir(dirs, candidates[i].as_str()) {
            Some(c) => {
                out.push(c.clone());
                assert(views(out@) =~= held + seq![c@]);
            },
            None => {},
        }
        i = i + 1;
    }
    assert(cands.take(candidates.len() as int) =~= cands);
}

/// Appends to `out` the extra roots that the manifest at `site` contributes.
fn append_extras_at(survey: &Survey, site: &str, out: &mut Vec<String>)
    ensures
        views(final(out)@) == views(old(out)@) + extras_at(*survey, site@),
{
    match lookup_manifest(&survey.manifests, site) {
        Some(m) => match find_steam_dirs_extras(m) {
            Some(folders) => {
                append_existing(&survey.dirs, &folders, out);
            },
            None => {},
        },
        None => {},
    }
}

/// Appends to `out` the extra roots found from the default root `dir`.
fn append_extras_near(survey: &Survey, dir: &str, out: &mut Vec<String>)
    ensures
        views(final(out)@) == views(old(out)@) + extras_near(*survey, dir@),
{
    let ghost before = views(out@);
    if lookup_dir(&survey.dirs, dir).is_none() {
        return;
    }
    let sites: Vec<String> = manifest_paths(dir);
    let ghost per_site = site_extras(*survey);
    let ghost all = views(sites@);
    let mut i: usize = 0;
    while i < sites.len()
        invariant
            i <= sites.len(),
            all == views(sites@),
            per_site == site_extras(*survey),
            views(out@) == before + all.take(i as int).map_values(per_site).flatten(),
        decreases sites.len() - i,
    {
        append_extras_at(survey, sites[i].as_str(), out);
        proof {
            let seen = all.take(i as int).map_values(per_site);
            assert(all.take(i + 1).map_values(per_site) =~= seen.push(per_site(all[i as int])));
            seen.lemma_flatten_push(per_site(all[i as int]));
        }
        i = i + 1;
    }
    assert(all.take(sites.len() as int) =~= all);
}

/// Finds the game library roots: the platform's default roots that are
/// directories, and the folders that the manifests near them declare, each
/// under its canonical path, in dictionary order and without repetition.
/// Fails exactly where the home directory is unknown.
pub fn find_steam_dirs(profile: &PlatformProfile, survey: &Survey) -> (r: Result<
    Vec<String>,
    HomeDirectoryUnknown,
>)
    ensures
        match survey.home {
            None => r == Err::<Vec<String>, HomeDirectoryUnknown>(HomeDirectoryUnknown),
            Some(home) => r matches Ok(roots) && strictly_sorted(views(roots@)) && views(
                roots@,
            ).to_set() == root_list(*profile, *survey, home@).to_set(),
        },
{
    let home: &String = match &survey.home {
        Some(h) => h,
        None => {
            return Err(HomeDirectoryUnknown);
        },
    };
    let candidates: Vec<String> = default_steam_dirs(profile, home.as_str());
    let mut all: Vec<String> = Vec::new();
    append_existing(&survey.dirs, &candidates, &mut all);
    let ghost defaults = views(all@);
    let ghost cands = views(candidates@);
    let ghost per_root = root_extras(*survey);
    let mut i: usize = 0;
    while i < candidates.len()
        invariant
            i <= candidates.len(),
            cands == views(candidates@),
            per_root == root_extras(*survey),
            views(all@) == defaults + cands.take(i as int).map_values(per_root).flatten(),
        decreases candidates.len() - i,
    {
        append_extras_near(survey, candidates[i].as_str(), &mut all);
        proof {
            let seen = cands.take(i as int).map_values(per_root);
            assert(cands.take(i + 1).map_values(per_root) =~= seen.push(per_root(cands[i as int])));
            seen.lemma_flatten_push(per_root(cands[i as int]));
        }
        i = i + 1;
    }
    assert(cands.take(candidates.len() as int) =~= cands);
    Ok(sort_dedup(&all))
}

/// A sequence of empty sequences flattens to nothing.
proof fn lemma_flatten_of_empties<T>(s: Seq<Seq<T>>)
    requires
        forall|i: int| 0 <= i < s.len() ==> (#[trigger] s[i]).len() == 0,
    ensures
        s.flatten() == Seq::<T>::empty(),
    decreases s.len(),
{
    if s.len() > 0 {
        lemma_flatten_of_empties(s.drop_first());
    }
}

/// Where no manifest could be loaded, the library roots are exactly the
/// platform's default roots that are directories.
pub proof fn law_defaults_without_manifest(profile: PlatformProfile, survey: Survey, home: Seq<char>)
    requires
        survey.manifests@.len() == 0,
    ensures
        root_list(profile, survey, home) == existing(
            survey.dirs@,
            default_candidates(profile, home),
        ),
{
    let candidates = default_candidates(profile, home);
    let extras = candidates.map_values(root_extras(survey));
    assert forall|i: int| 0 <= i < extras.len() implies (#[trigger] extras[i]).len() == 0 by {
        let dir = candidates[i];
        if canonical_of(survey.dirs@, dir) is Some {
            let sites = manifest_sites(dir).map_values(site_extras(survey));
            assert forall|k: int| 0 <= k < sites.len() implies (#[trigger] sites[k]).len() == 0 by {
                assert(manifest_at(survey.manifests@, manifest_sites(dir)[k]) is None);
            }
            lemma_flatten_of_empties(sites);
        }
    }
    lemma_flatten_of_empties(extras);
}

} // verus!
