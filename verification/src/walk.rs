//! Reading the disk no further than a walk needs.
//!
//! A snapshot may be taken step by step. The functions of this module say
//! which directory is to be listed next, so that a walk for at most `limit`
//! binaries can go on, and say that none is once the snapshot holds all that
//! the walk looks at. The caller lists that directory, notes what came of it,
//! and asks again.
//!
//! A directory is not asked for where listing it failed before, where it lies
//! deeper than `MAX_WALK_DEPTH` below the start of the walk, or where it is
//! one of the directories that hold it, reached again through a link.

use vstd::prelude::*;
use vstd::string::*;
use crate::classify::{is_bin, is_binary};
use crate::fs::{paths_of, DirEntry, EntryKind};
use crate::library::{canonical_of, lookup_dir, DirFact};
use crate::platform::PlatformProfile;
use crate::scan::{
    binaries_among, binaries_in, binaries_under, child_count, first_n, game_dirs, game_filter,
    games_in,
};
use crate::select::{entry_at, find_entry, ALL_BINARIES};
use crate::strings::{contains_str, views};

verus! {

/// How deep below its start a walk asks for listings.
pub const MAX_WALK_DEPTH: usize = 64;

/// What the listings asked for so far have told, beside the entries that
/// stand in the snapshot.
#[derive(Debug)]
pub struct WalkFacts {
    /// The directories whose listing failed.
    pub failed: Vec<String>,
    /// The canonical paths of directories, as far as they are known.
    pub canonical: Vec<DirFact>,
}

/// What a walk needs to go on.
pub enum Need {
    /// The listing of the directory at this path.
    Ask(Seq<char>),
    /// Nothing: it is through, having counted this many binaries.
    Have(nat),
}

/// What a walk needs to go on, as computed.
enum Probe {
    Ask(String),
    Have(usize),
}

/// What a computed need stands for.
spec fn need_of(probe: Probe) -> Need {
    match probe {
        Probe::Ask(p) => Need::Ask(p@),
        Probe::Have(h) => Need::Have(h as nat),
    }
}

/// The depth of what lies directly inside a directory at `depth`. Past the
/// bound it is no longer counted.
pub open spec fn below(depth: nat) -> nat {
    if depth <= MAX_WALK_DEPTH {
        depth + 1
    } else {
        depth
    }
}

/// The listing of the unlisted directory `dir` is wanted: it lies within the
/// depth bound, listing it has not failed, and it is none of the directories
/// on `trail`, which are those that hold it.
pub open spec fn wanted(dir: DirEntry, depth: nat, trail: Seq<Seq<char>>, facts: WalkFacts) -> bool {
    &&& depth <= MAX_WALK_DEPTH
    &&& !views(facts.failed@).contains(dir.path@)
    &&& match canonical_of(facts.canonical@, dir.path@) {
        Some(c) => !trail.contains(c),
        None => true,
    }
}

/// The trail for what lies inside `dir`: the canonical path of `dir` joins
/// it, where it is known.
pub open spec fn trail_through(dir: DirEntry, trail: Seq<Seq<char>>, facts: WalkFacts) -> Seq<
    Seq<char>,
> {
    match canonical_of(facts.canonical@, dir.path@) {
        Some(c) => trail.push(c),
        None => trail,
    }
}

/// What a walk needs that comes to the directory `dir` with `have` binaries
/// counted: the listing of `dir` where it is missing and wanted, else what
/// the walk through its entries needs.
pub open spec fn need_under(
    dir: DirEntry,
    have: nat,
    limit: nat,
    depth: nat,
    trail: Seq<Seq<char>>,
    facts: WalkFacts,
    profile: PlatformProfile,
) -> Need
    decreases dir, child_count(dir) + 1,
{
    match dir.children {
        None => if wanted(dir, depth, trail, facts) {
            Need::Ask(dir.path@)
        } else {
            Need::Have(have)
        },
        Some(_) => need_among(
            dir,
            child_count(dir),
            have,
            limit,
            below(depth),
            trail_through(dir, trail, facts),
            facts,
            profile,
        ),
    }
}

/// What a walk needs on its way through the first `n` entries of `dir`. It
/// stops at the first listing that it needs, and looks no further once it has
/// counted `limit` binaries.
pub open spec fn need_among(
    dir: DirEntry,
    n: nat,
    have: nat,
    limit: nat,
    depth: nat,
    trail: Seq<Seq<char>>,
    facts: WalkFacts,
    profile: PlatformProfile,
) -> Need
    decreases dir, n,
{
    if n == 0 || n > child_count(dir) {
        Need::Have(have)
    } else {
        match need_among(dir, (n - 1) as nat, have, limit, depth, trail, facts, profile) {
            Need::Ask(p) => Need::Ask(p),
            Need::Have(h) => if h >= limit {
                Need::Have(h)
            } else {
                let entry = dir.children.unwrap()[n - 1];
                if entry.kind == EntryKind::Dir {
                    need_under(entry, h, limit, depth, trail, facts, profile)
                } else if is_binary(entry, profile) {
                    Need::Have(h + 1)
                } else {
                    Need::Have(h)
                }
            },
        }
    }
}

/// The directory to list next for a walk below `dir` that looks for `limit`
/// binaries.
pub open spec fn next_listing(
    dir: DirEntry,
    limit: nat,
    facts: WalkFacts,
    profile: PlatformProfile,
) -> Option<Seq<char>> {
    match need_under(dir, 0, limit, 0, seq![], facts, profile) {
        Need::Ask(p) => Some(p),
        Need::Have(_) => None,
    }
}

/// The first of the items that holds something.
pub open spec fn first_some(items: Seq<Option<Seq<char>>>) -> Option<Seq<char>>
    decreases items.len(),
{
    if items.len() == 0 {
        None
    } else {
        match first_some(items.drop_last()) {
            Some(p) => Some(p),
            None => items.last(),
        }
    }
}

/// The directory to list next to tell whether `entry` is a game directory:
/// what a walk for one binary needs, where `entry` is a directory.
pub open spec fn game_listing(facts: WalkFacts, profile: PlatformProfile) -> spec_fn(
    DirEntry,
) -> Option<Seq<char>> {
    |entry: DirEntry|
        if entry.kind == EntryKind::Dir {
            next_listing(entry, 1, facts, profile)
        } else {
            None
        }
}

/// The directory to list next to find the game directories below `root`:
/// `root` itself where its listing is missing and has not failed, else what
/// the first of its entries needs that needs something.
pub open spec fn root_listing(facts: WalkFacts, profile: PlatformProfile) -> spec_fn(
    DirEntry,
) -> Option<Seq<char>> {
    |root: DirEntry|
        match root.children {
            None => if wanted(root, 0, seq![], facts) {
                Some(root.path@)
            } else {
                None
            },
            Some(c) => first_some(c@.map_values(game_listing(facts, profile))),
        }
}

/// The root to list next: `root` itself where its listing is missing and has
/// not failed.
pub open spec fn missing_root(facts: WalkFacts) -> spec_fn(DirEntry) -> Option<Seq<char>> {
    |root: DirEntry|
        if root.children is None && wanted(root, 0, seq![], facts) {
            Some(root.path@)
        } else {
            None
        }
}

/// The root to list next, so that what lies directly below the roots is
/// known: the first whose listing is missing and has not failed.
pub open spec fn next_root_listing(roots: Seq<DirEntry>, facts: WalkFacts) -> Option<Seq<char>> {
    first_some(roots.map_values(missing_root(facts)))
}

/// The directory to list next for the menu of the binaries of the game at
/// `dir`: what a walk for all binaries needs below the entry at `dir`, where
/// there is one below the roots.
pub open spec fn next_binary_listing(
    roots: Seq<DirEntry>,
    dir: Seq<char>,
    facts: WalkFacts,
    profile: PlatformProfile,
) -> Option<Seq<char>> {
    match entry_at(roots, dir) {
        Some(game) => next_listing(game, ALL_BINARIES as nat, facts, profile),
        None => None,
    }
}

/// The directory to list next to find the game directories below the roots.
pub open spec fn next_game_listing(
    roots: Seq<DirEntry>,
    facts: WalkFacts,
    profile: PlatformProfile,
) -> Option<Seq<char>> {
    first_some(roots.map_values(root_listing(facts, profile)))
}

/// A walk that needs nothing has counted the binaries that the snapshot
/// holds below the first `n` entries, up to the limit.
proof fn lemma_need_among_counts(
    dir: DirEntry,
    n: nat,
    have: nat,
    limit: nat,
    depth: nat,
    trail: Seq<Seq<char>>,
    facts: WalkFacts,
    profile: PlatformProfile,
)
    requires
        have <= limit,
        n <= child_count(dir),
    ensures
        need_among(dir, n, have, limit, depth, trail, facts, profile) matches Need::Have(h) ==> h
            == if have + binaries_among(dir, n, profile).len() <= limit {
            have + binaries_among(dir, n, profile).len()
        } else {
            limit
        },
    decreases dir, n,
{
    if n > 0 {
        lemma_need_among_counts(dir, (n - 1) as nat, have, limit, depth, trail, facts, profile);
        if let Need::Have(h) = need_among(
            dir,
            (n - 1) as nat,
            have,
            limit,
            depth,
            trail,
            facts,
            profile,
        ) {
            let entry = dir.children.unwrap()[n - 1];
            assert(binaries_among(dir, n, profile) == binaries_among(dir, (n - 1) as nat, profile)
                + binaries_under(entry, profile));
            if h < limit {
                if entry.kind == EntryKind::Dir {
                    lemma_need_under_counts(entry, h, limit, depth, trail, facts, profile);
                } else if is_binary(entry, profile) {
                    assert(binaries_under(entry, profile).len() == 1);
                } else {
                    assert(binaries_under(entry, profile).len() == 0);
                }
            }
        }
    }
}

/// A walk that needs nothing has counted the binaries that the snapshot
/// holds below the directory, up to the limit.
proof fn lemma_need_under_counts(
    dir: DirEntry,
    have: nat,
    limit: nat,
    depth: nat,
    trail: Seq<Seq<char>>,
    facts: WalkFacts,
    profile: PlatformProfile,
)
    requires
        have <= limit,
    ensures
        need_under(dir, have, limit, depth, trail, facts, profile) matches Need::Have(h) ==> h
            == if have + binaries_in(dir, profile).len() <= limit {
            have + binaries_in(dir, profile).len()
        } else {
            limit
        },
    decreases dir, child_count(dir) + 1,
{
    if dir.children is Some {
        lemma_need_among_counts(
            dir,
            child_count(dir),
            have,
            limit,
            below(depth),
            trail_through(dir, trail, facts),
            facts,
            profile,
        );
    }
}

/// Once no directory is to be listed for a walk, the walk is through and has
/// counted as many binaries as a search of the snapshot below `dir` returns
/// under the same limit.
pub proof fn law_walk_is_through(
    dir: DirEntry,
    limit: nat,
    facts: WalkFacts,
    profile: PlatformProfile,
)
    requires
        next_listing(dir, limit, facts, profile) is None,
    ensures
        need_under(dir, 0, limit, 0, seq![], facts, profile) == Need::Have(
            if binaries_in(dir, profile).len() <= limit {
                binaries_in(dir, profile).len()
            } else {
                limit
            },
        ),
{
    lemma_need_under_counts(dir, 0, limit, 0, seq![], facts, profile);
}

/// The snapshot entry `seen` describes the entry `whole`: the same path, the
/// same kind, the same permission bits.
pub open spec fn same_entry(seen: DirEntry, whole: DirEntry) -> bool {
    seen.path@ == whole.path@ && seen.kind == whole.kind && seen.mode == whole.mode
}

/// The snapshot `seen` is a part of the tree `whole`, taken by a walk that
/// stands at `depth` with `trail` behind it: each entry describes the entry
/// in its place, each listing that `seen` holds is the listing of `whole`,
/// and a directory that the walk would not ask for has no listing in `whole`
/// either.
pub open spec fn part_of(
    seen: DirEntry,
    whole: DirEntry,
    depth: nat,
    trail: Seq<Seq<char>>,
    facts: WalkFacts,
) -> bool
    decreases seen,
{
    &&& same_entry(seen, whole)
    &&& match seen.children {
        None => !wanted(seen, depth, trail, facts) ==> whole.children is None,
        Some(c) => {
            &&& whole.children matches Some(w)
            &&& c@.len() == w@.len()
            &&& forall|i: int|
                0 <= i < c@.len() ==> part_of(
                    #[trigger] c@[i],
                    w@[i],
                    below(depth),
                    trail_through(seen, trail, facts),
                    facts,
                )
        },
    }
}

/// The first items of two joined lists are those of the first list where it
/// holds enough, else the first list and the first items of the second.
proof fn lemma_first_n_of_joined<T>(a: Seq<T>, b: Seq<T>, k: nat)
    ensures
        a.len() >= k ==> first_n(a + b, k) == first_n(a, k),
        a.len() <= k ==> first_n(a + b, k) == a + first_n(b, (k - a.len()) as nat),
{
    if a.len() >= k {
        assert(first_n(a + b, k) =~= first_n(a, k));
    }
    if a.len() <= k {
        assert(first_n(a + b, k) =~= a + first_n(b, (k - a.len()) as nat));
    }
}

/// A walk that is through the first `n` entries of a part of a tree has
/// found there what a search of the whole tree finds, up to the limit.
proof fn lemma_among_finds_the_same(
    seen: DirEntry,
    whole: DirEntry,
    n: nat,
    have: nat,
    limit: nat,
    depth: nat,
    trail: Seq<Seq<char>>,
    facts: WalkFacts,
    profile: PlatformProfile,
)
    requires
        have <= limit,
        seen.children is Some,
        whole.children is Some,
        child_count(seen) == child_count(whole),
        forall|i: int|
            0 <= i < child_count(seen) ==> part_of(
                #[trigger] seen.children.unwrap()@[i],
                whole.children.unwrap()@[i],
                depth,
                trail,
                facts,
            ),
        n <= child_count(seen),
        need_among(seen, n, have, limit, depth, trail, facts, profile) is Have,
    ensures
        first_n(binaries_among(seen, n, profile), (limit - have) as nat) == first_n(
            binaries_among(whole, n, profile),
            (limit - have) as nat,
        ),
    decreases seen, n,
{
    if n > 0 {
        let k = (limit - have) as nat;
        let before = (n - 1) as nat;
        let a = binaries_among(seen, before, profile);
        let aw = binaries_among(whole, before, profile);
        let entry = seen.children.unwrap()[n - 1];
        let entry_w = whole.children.unwrap()[n - 1];
        let b = binaries_under(entry, profile);
        let bw = binaries_under(entry_w, profile);
        assert(need_among(seen, before, have, limit, depth, trail, facts, profile) is Have);
        let h = need_among(seen, before, have, limit, depth, trail, facts, profile)->Have_0;
        lemma_among_finds_the_same(seen, whole, before, have, limit, depth, trail, facts, profile);
        lemma_need_among_counts(seen, before, have, limit, depth, trail, facts, profile);
        assert(binaries_among(seen, n, profile) == a + b);
        assert(binaries_among(whole, n, profile) == aw + bw);
        assert(part_of(seen.children.unwrap()@[n - 1], whole.children.unwrap()@[n - 1], depth, trail, facts));
        assert(same_entry(entry, entry_w));
        lemma_first_n_of_joined(a, b, k);
        lemma_first_n_of_joined(aw, bw, k);
        if h >= limit {
            assert(a.len() >= k);
            assert(first_n(a, k).len() == k);
            assert(aw.len() >= k);
        } else {
            assert(a.len() < k);
            assert(first_n(a, k) == a);
            assert(first_n(aw, k).len() < k);
            assert(aw == a);
            if entry.kind == EntryKind::Dir {
                assert(need_under(entry, h, limit, depth, trail, facts, profile) is Have);
                lemma_under_finds_the_same(entry, entry_w, h, limit, depth, trail, facts, profile);
                assert(b == binaries_in(entry, profile));
                assert(bw == binaries_in(entry_w, profile));
                assert((limit - h) as nat == (k - a.len()) as nat);
            } else {
                assert(is_binary(entry, profile) == is_binary(entry_w, profile));
                assert(b =~= bw);
            }
        }
    }
}

/// A walk that is through a part of a tree has found below a directory what
/// a search of the whole tree finds there, up to the limit.
proof fn lemma_under_finds_the_same(
    seen: DirEntry,
    whole: DirEntry,
    have: nat,
    limit: nat,
    depth: nat,
    trail: Seq<Seq<char>>,
    facts: WalkFacts,
    profile: PlatformProfile,
)
    requires
        have <= limit,
        part_of(seen, whole, depth, trail, facts),
        need_under(seen, have, limit, depth, trail, facts, profile) is Have,
    ensures
        first_n(binaries_in(seen, profile), (limit - have) as nat) == first_n(
            binaries_in(whole, profile),
            (limit - have) as nat,
        ),
        seen.children is None <==> whole.children is None,
    decreases seen, child_count(seen) + 1,
{
    if seen.children is Some {
        lemma_among_finds_the_same(
            seen,
            whole,
            child_count(seen),
            have,
            limit,
            below(depth),
            trail_through(seen, trail, facts),
            facts,
            profile,
        );
    }
}

/// Reading the disk step by step loses nothing. Where the snapshot is a part
/// of a tree and no directory is to be listed any more, a search of the
/// snapshot under the limit gives what a search of the whole tree gives: the
/// same binaries in the same order, or the same failure.
pub proof fn law_lazy_walk_finds_the_same(
    seen: DirEntry,
    whole: DirEntry,
    limit: nat,
    facts: WalkFacts,
    profile: PlatformProfile,
)
    requires
        part_of(seen, whole, 0, seq![], facts),
        next_listing(seen, limit, facts, profile) is None,
    ensures
        first_n(binaries_in(seen, profile), limit) == first_n(binaries_in(whole, profile), limit),
        seen.children is None <==> whole.children is None,
{
    lemma_under_finds_the_same(seen, whole, 0, limit, 0, seq![], facts, profile);
}

/// The snapshot of a root is a part of the root `whole`, taken by a search
/// for game directories: a walk starts anew at each entry of the root.
pub open spec fn root_part_of(seen: DirEntry, whole: DirEntry, facts: WalkFacts) -> bool {
    &&& same_entry(seen, whole)
    &&& match seen.children {
        None => !wanted(seen, 0, seq![], facts) ==> whole.children is None,
        Some(c) => {
            &&& whole.children matches Some(w)
            &&& c@.len() == w@.len()
            &&& forall|i: int|
                0 <= i < c@.len() ==> part_of(#[trigger] c@[i], w@[i], 0, seq![], facts)
        },
    }
}

/// Where none of the items holds anything, no single one does.
proof fn lemma_first_some_none(items: Seq<Option<Seq<char>>>)
    requires
        first_some(items) is None,
    ensures
        forall|i: int| 0 <= i < items.len() ==> (#[trigger] items[i]) is None,
    decreases items.len(),
{
    if items.len() > 0 {
        lemma_first_some_none(items.drop_last());
        assert forall|i: int| 0 <= i < items.len() implies (#[trigger] items[i]) is None by {
            if i < items.len() - 1 {
                assert(items.drop_last()[i] == items[i]);
            }
        }
    }
}

/// Two listings whose entries, place by place, have the same path and pass
/// the same test give the same paths when filtered.
proof fn lemma_filtered_paths_agree(
    a: Seq<DirEntry>,
    b: Seq<DirEntry>,
    pick: spec_fn(DirEntry) -> bool,
)
    requires
        a.len() == b.len(),
        forall|i: int|
            0 <= i < a.len() ==> (#[trigger] a[i]).path@ == b[i].path@ && pick(a[i]) == pick(b[i]),
    ensures
        paths_of(a.filter(pick)) == paths_of(b.filter(pick)),
    decreases a.len(),
{
    reveal(Seq::filter);
    if a.len() > 0 {
        let ra = a.drop_last();
        let rb = b.drop_last();
        assert forall|i: int| 0 <= i < ra.len() implies (#[trigger] ra[i]).path@ == rb[i].path@
            && pick(ra[i]) == pick(rb[i]) by {
            assert(ra[i] == a[i] && rb[i] == b[i]);
        }
        lemma_filtered_paths_agree(ra, rb, pick);
        assert(a.last() == a[a.len() - 1]);
        assert(pick(a.last()) == pick(b.last()));
        if pick(a.last()) {
            assert(paths_of(ra.filter(pick).push(a.last())) =~= paths_of(ra.filter(pick)).push(
                a.last().path@,
            ));
            assert(paths_of(rb.filter(pick).push(b.last())) =~= paths_of(rb.filter(pick)).push(
                b.last().path@,
            ));
        }
    }
}

/// Reading the disk step by step loses no game directory. Where each root of
/// the snapshot is a part of the root in its place and no directory is to be
/// listed any more, the snapshot shows the game directories that the whole
/// trees show.
pub proof fn law_lazy_search_finds_the_same_games(
    seen: Seq<DirEntry>,
    whole: Seq<DirEntry>,
    facts: WalkFacts,
    profile: PlatformProfile,
)
    requires
        seen.len() == whole.len(),
        forall|k: int| 0 <= k < seen.len() ==> root_part_of(#[trigger] seen[k], whole[k], facts),
        next_game_listing(seen, facts, profile) is None,
    ensures
        game_dirs(seen, profile) == game_dirs(whole, profile),
{
    let per_root = |r: DirEntry| games_in(r, profile);
    lemma_first_some_none(seen.map_values(root_listing(facts, profile)));
    assert forall|k: int| 0 <= k < seen.len() implies games_in(seen[k], profile) == games_in(
        whole[k],
        profile,
    ) by {
        assert(seen.map_values(root_listing(facts, profile))[k] is None);
        assert(root_part_of(seen[k], whole[k], facts));
        if let Some(c) = seen[k].children {
            let w = whole[k].children.unwrap();
            let asked = c@.map_values(game_listing(facts, profile));
            lemma_first_some_none(asked);
            assert forall|i: int| 0 <= i < c@.len() implies (#[trigger] c@[i]).path@ == w@[i].path@
                && game_filter(profile)(c@[i]) == game_filter(profile)(w@[i]) by {
                assert(part_of(c@[i], w@[i], 0, seq![], facts));
                assert(asked[i] is None);
                if c@[i].kind == EntryKind::Dir {
                    law_lazy_walk_finds_the_same(c@[i], w@[i], 1, facts, profile);
                }
            }
            lemma_filtered_paths_agree(c@, w@, game_filter(profile));
        }
    }
    assert(seen.map_values(per_root) =~= whole.map_values(per_root));
}

/// The trail for what lies inside `dir`.
fn extend_trail(dir: &DirEntry, trail: &Vec<String>, facts: &WalkFacts) -> (r: Vec<String>)
    ensures
        views(r@) == trail_through(*dir, views(trail@), *facts),
{
    let mut out: Vec<String> = Vec::new();
    let mut i: usize = 0;
    while i < trail.len()
        invariant
            i <= trail.len(),
            out.len() == i,
            forall|j: int| 0 <= j < i ==> out@[j]@ == trail@[j]@,
        decreases trail.len() - i,
    {
        out.push(trail[i].clone());
        i = i + 1;
    }
    assert(views(out@) =~= views(trail@));
    match lookup_dir(&facts.canonical, dir.path.as_str()) {
        Some(c) => {
            out.push(c.clone());
            assert(views(out@) =~= views(trail@).push(c@));
        },
        None => {},
    }
    out
}

/// Tells whether the listing of the unlisted directory `dir` is wanted.
fn is_wanted(dir: &DirEntry, depth: usize, trail: &Vec<String>, facts: &WalkFacts) -> (r: bool)
    ensures
        r == wanted(*dir, depth as nat, views(trail@), *facts),
{
    if depth > MAX_WALK_DEPTH {
        return false;
    }
    if contains_str(&facts.failed, dir.path.as_str()) {
        return false;
    }
    match lookup_dir(&facts.canonical, dir.path.as_str()) {
        Some(c) => !contains_str(trail, c.as_str()),
        None => true,
    }
}

/// Walks the snapshot below `dir` as far as it is listed.
fn probe(
    dir: &DirEntry,
    have: usize,
    limit: usize,
    depth: usize,
    trail: &Vec<String>,
    facts: &WalkFacts,
    profile: &PlatformProfile,
) -> (r: Probe)
    requires
        have <= limit,
    ensures
        need_of(r) == need_under(
            *dir,
            have as nat,
            limit as nat,
            depth as nat,
            views(trail@),
            *facts,
            *profile,
        ),
        r matches Probe::Have(h) ==> h <= limit,
    decreases dir,
{
    match &dir.children {
        None => {
            if is_wanted(dir, depth, trail, facts) {
                Probe::Ask(dir.path.clone())
            } else {
                Probe::Have(have)
            }
        },
        Some(c) => {
            let inner: Vec<String> = extend_trail(dir, trail, facts);
            let deeper: usize = if depth <= MAX_WALK_DEPTH {
                depth + 1
            } else {
                depth
            };
            let mut h: usize = have;
            let mut i: usize = 0;
            while i < c.len() && h < limit
                invariant
                    dir.children == Some(*c),
                    i <= c.len(),
                    h <= limit,
                    deeper as nat == below(depth as nat),
                    views(inner@) == trail_through(*dir, views(trail@), *facts),
                    need_among(
                        *dir,
                        i as nat,
                        have as nat,
                        limit as nat,
                        deeper as nat,
                        views(inner@),
                        *facts,
                        *profile,
                    ) == Need::Have(h as nat),
                decreases c.len() - i,
            {
                let entry = &c[i];
                match entry.kind {
                    EntryKind::Dir => {
                        match probe(entry, h, limit, deeper, &inner, facts, profile) {
                            Probe::Ask(p) => {
                                proof {
                                    lemma_need_stays_asked(
                                        *dir,
                                        (i + 1) as nat,
                                        c@.len(),
                                        have as nat,
                                        limit as nat,
                                        deeper as nat,
                                        views(inner@),
                                        *facts,
                                        *profile,
                                    );
                                }
                                return Probe::Ask(p);
                            },
                            Probe::Have(more) => {
                                h = more;
                            },
                        }
                    },
                    _ => {
                        if is_bin(entry, profile) {
                            h = h + 1;
                        }
                    },
                }
                i = i + 1;
            }
            proof {
                lemma_need_stays_full(
                    *dir,
                    i as nat,
                    c@.len(),
                    have as nat,
                    limit as nat,
                    deeper as nat,
                    views(inner@),
                    *facts,
                    *profile,
                );
            }
            Probe::Have(h)
        },
    }
}

/// What a walk asks for among the first entries, it asks for among more.
proof fn lemma_need_stays_asked(
    dir: DirEntry,
    i: nat,
    j: nat,
    have: nat,
    limit: nat,
    depth: nat,
    trail: Seq<Seq<char>>,
    facts: WalkFacts,
    profile: PlatformProfile,
)
    requires
        i <= j <= child_count(dir),
        need_among(dir, i, have, limit, depth, trail, facts, profile) is Ask,
    ensures
        need_among(dir, j, have, limit, depth, trail, facts, profile) == need_among(
            dir,
            i,
            have,
            limit,
            depth,
            trail,
            facts,
            profile,
        ),
    decreases j,
{
    if i < j {
        lemma_need_stays_asked(dir, i, (j - 1) as nat, have, limit, depth, trail, facts, profile);
    }
}

/// A walk that has reached the limit, or the end of the entries, needs no
/// more of the entries that follow.
proof fn lemma_need_stays_full(
    dir: DirEntry,
    i: nat,
    j: nat,
    have: nat,
    limit: nat,
    depth: nat,
    trail: Seq<Seq<char>>,
    facts: WalkFacts,
    profile: PlatformProfile,
)
    requires
        i <= j <= child_count(dir),
        need_among(dir, i, have, limit, depth, trail, facts, profile) matches Need::Have(h) && (h
            >= limit || i == j),
    ensures
        need_among(dir, j, have, limit, depth, trail, facts, profile) == need_among(
            dir,
            i,
            have,
            limit,
            depth,
            trail,
            facts,
            profile,
        ),
    decreases j,
{
    if i < j {
        lemma_need_stays_full(dir, i, (j - 1) as nat, have, limit, depth, trail, facts, profile);
    }
}

/// Says which directory is to be listed next, so that the walk below `dir`
/// for at most `limit` binaries can go on; none once the snapshot holds all
/// that this walk looks at.
pub fn next_to_list(
    dir: &DirEntry,
    limit: usize,
    facts: &WalkFacts,
    profile: &PlatformProfile,
) -> (r: Option<String>)
    ensures
        match r {
            Some(p) => next_listing(*dir, limit as nat, *facts, *profile) == Some(p@),
            None => next_listing(*dir, limit as nat, *facts, *profile) is None,
        },
{
    let trail: Vec<String> = Vec::new();
    assert(views(trail@) =~= Seq::<Seq<char>>::empty());
    match probe(dir, 0, limit, 0, &trail, facts, profile) {
        Probe::Ask(p) => Some(p),
        Probe::Have(_) => None,
    }
}

/// Says which directory is to be listed next to tell the game directories
/// below `root`.
fn next_for_root(root: &DirEntry, facts: &WalkFacts, profile: &PlatformProfile) -> (r: Option<
    String,
>)
    ensures
        match r {
            Some(p) => root_listing(*facts, *profile)(*root) == Some(p@),
            None => root_listing(*facts, *profile)(*root) is None,
        },
{
    match &root.children {
        None => {
            let trail: Vec<String> = Vec::new();
            assert(views(trail@) =~= Seq::<Seq<char>>::empty());
            if is_wanted(root, 0, &trail, facts) {
                Some(root.path.clone())
            } else {
                None
            }
        },
        Some(c) => {
            let ghost each = game_listing(*facts, *profile);
            let mut i: usize = 0;
            while i < c.len()
                invariant
                    i <= c.len(),
                    root.children == Some(*c),
                    each == game_listing(*facts, *profile),
                    first_some(c@.take(i as int).map_values(each)) is None,
                decreases c.len() - i,
            {
                let found: Option<String> = match c[i].kind {
                    EntryKind::Dir => next_to_list(&c[i], 1, facts, profile),
                    _ => None,
                };
                proof {
                    let seen = c@.take(i + 1).map_values(each);
                    assert(seen.drop_last() =~= c@.take(i as int).map_values(each));
                    assert(seen.last() == each(c@[i as int]));
                    assert(first_some(seen) == each(c@[i as int]));
                }
                if found.is_some() {
                    proof {
                        let all = c@.map_values(each);
                        assert(all.take(i + 1) =~= c@.take(i + 1).map_values(each));
                        lemma_first_some_stays(all, (i + 1) as int);
                    }
                    return found;
                }
                i = i + 1;
            }
            assert(c@.take(c.len() as int) =~= c@);
            None
        },
    }
}

/// The first item that holds something among the first `n` is the first
/// among all.
proof fn lemma_first_some_stays(items: Seq<Option<Seq<char>>>, n: int)
    requires
        0 <= n <= items.len(),
        first_some(items.take(n)) is Some,
    ensures
        first_some(items) == first_some(items.take(n)),
    decreases items.len(),
{
    if n < items.len() {
        assert(items.drop_last().take(n) =~= items.take(n));
        lemma_first_some_stays(items.drop_last(), n);
    } else {
        assert(items.take(n) =~= items);
    }
}

/// Says which directory is to be listed next, so that the search for the
/// game directories below `roots` can go on: a root whose listing is missing,
/// or what the walk for one binary needs below one of its directories. None
/// once the snapshot holds all that this search looks at.
pub fn next_to_list_for_games(
    roots: &[DirEntry],
    facts: &WalkFacts,
    profile: &PlatformProfile,
) -> (r: Option<String>)
    ensures
        match r {
            Some(p) => next_game_listing(roots@, *facts, *profile) == Some(p@),
            None => next_game_listing(roots@, *facts, *profile) is None,
        },
{
    let ghost each = root_listing(*facts, *profile);
    let mut k: usize = 0;
    while k < roots.len()
        invariant
            k <= roots.len(),
            each == root_listing(*facts, *profile),
            first_some(roots@.take(k as int).map_values(each)) is None,
        decreases roots.len() - k,
    {
        let found: Option<String> = next_for_root(&roots[k], facts, profile);
        proof {
            let seen = roots@.take(k + 1).map_values(each);
            assert(seen.drop_last() =~= roots@.take(k as int).map_values(each));
            assert(seen.last() == each(roots@[k as int]));
            assert(first_some(seen) == each(roots@[k as int]));
        }
        if found.is_some() {
            proof {
                let all = roots@.map_values(each);
                assert(all.take(k + 1) =~= roots@.take(k + 1).map_values(each));
                lemma_first_some_stays(all, (k + 1) as int);
            }
            return found;
        }
        k = k + 1;
    }
    assert(roots@.take(roots.len() as int) =~= roots@);
    None
}

/// Says which root is to be listed next, so that what lies directly below the
/// roots is known; none once every root is listed or has failed.
pub fn next_root_to_list(roots: &[DirEntry], facts: &WalkFacts) -> (r: Option<String>)
    ensures
        match r {
            Some(p) => next_root_listing(roots@, *facts) == Some(p@),
            None => next_root_listing(roots@, *facts) is None,
        },
{
    let ghost each = missing_root(*facts);
    let trail: Vec<String> = Vec::new();
    assert(views(trail@) =~= Seq::<Seq<char>>::empty());
    let mut k: usize = 0;
    while k < roots.len()
        invariant
            k <= roots.len(),
            each == missing_root(*facts),
            views(trail@) == Seq::<Seq<char>>::empty(),
            first_some(roots@.take(k as int).map_values(each)) is None,
        decreases roots.len() - k,
    {
        let missing: bool = roots[k].children.is_none() && is_wanted(&roots[k], 0, &trail, facts);
        proof {
            let seen = roots@.take(k + 1).map_values(each);
            assert(seen.drop_last() =~= roots@.take(k as int).map_values(each));
            assert(seen.last() == each(roots@[k as int]));
            assert(first_some(seen) == each(roots@[k as int]));
        }
        if missing {
            proof {
                let all = roots@.map_values(each);
                assert(all.take(k + 1) =~= roots@.take(k + 1).map_values(each));
                lemma_first_some_stays(all, (k + 1) as int);
            }
            return Some(roots[k].path.clone());
        }
        k = k + 1;
    }
    assert(roots@.take(roots.len() as int) =~= roots@);
    None
}

/// Says which directory is to be listed next for the menu of the binaries of
/// the game at `dir`; none once the snapshot holds all of that game that the
/// walk looks at, or where no entry below the roots lies at `dir`.
pub fn next_to_list_for_binaries(
    roots: &[DirEntry],
    dir: &str,
    facts: &WalkFacts,
    profile: &PlatformProfile,
) -> (r: Option<String>)
    ensures
        match r {
            Some(p) => next_binary_listing(roots@, dir@, *facts, *profile) == Some(p@),
            None => next_binary_listing(roots@, dir@, *facts, *profile) is None,
        },
{
    match find_entry(roots, dir) {
        Some(game) => next_to_list(game, ALL_BINARIES, facts, profile),
        None => None,
    }
}

} // verus!
