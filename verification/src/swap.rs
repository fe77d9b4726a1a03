//! The destructive swap: clear the placeholder's directory, then link its
//! binary to the chosen game.
//!
//! The library plans the steps and the caller carries them out, in order,
//! stopping at the first that fails. Nothing is rolled back.

use vstd::prelude::*;
use vstd::string::*;
use crate::fs::{paths_of, DirEntry, EntryKind};

verus! {

/// One step of a swap.
#[derive(Debug, PartialEq, Eq)]
pub enum SwapStep {
    /// Delete the directory at this path and everything beneath it.
    RemoveTree(String),
    /// Unlink the file or symbolic link at this path.
    Unlink(String),
    /// Create a symbolic link at `link` that points at `target`.
    Link { target: String, link: String },
}

/// A step of a swap, as a value to reason about.
pub enum StepView {
    /// Delete the directory at this path and everything beneath it.
    RemoveTree(Seq<char>),
    /// Unlink the file or symbolic link at this path.
    Unlink(Seq<char>),
    /// Create a symbolic link at `link` that points at `target`.
    Link { target: Seq<char>, link: Seq<char> },
}

impl View for SwapStep {
    type V = StepView;

    open spec fn view(&self) -> StepView {
        match *self {
            SwapStep::RemoveTree(p) => StepView::RemoveTree(p@),
            SwapStep::Unlink(p) => StepView::Unlink(p@),
            SwapStep::Link { target, link } => StepView::Link { target: target@, link: link@ },
        }
    }
}

/// The steps of a plan, as values to reason about.
pub open spec fn step_views(steps: Seq<SwapStep>) -> Seq<StepView> {
    Seq::new(steps.len(), |i: int| steps[i]@)
}

/// The entry is a directory in its own right, not a link to one.
pub open spec fn is_real_dir(entry: DirEntry) -> bool {
    entry.kind == EntryKind::Dir && !entry.symlink
}

/// How one entry is removed: a directory with all beneath it, anything else
/// by unlinking. A symbolic link is unlinked, never followed.
pub open spec fn removal_of(entry: DirEntry) -> StepView {
    if is_real_dir(entry) {
        StepView::RemoveTree(entry.path@)
    } else {
        StepView::Unlink(entry.path@)
    }
}

/// The steps that clear a directory with the given entries: one removal for
/// each entry, in listing order.
pub open spec fn removal_plan(contents: Seq<DirEntry>) -> Seq<StepView> {
    Seq::new(contents.len(), |i: int| removal_of(contents[i]))
}

/// The steps of a swap: clear the directory, then create the link.
pub open spec fn swap_plan(contents: Seq<DirEntry>, target: Seq<char>, link: Seq<char>) -> Seq<
    StepView,
> {
    removal_plan(contents).push(StepView::Link { target, link })
}

/// What sits at a path directly inside a directory.
pub enum Occupant {
    /// A file or a directory, with whatever is beneath it.
    Content,
    /// A symbolic link to the given path.
    LinkTo(Seq<char>),
}

/// What a directory holds once `step` is done.
pub open spec fn after_step(state: Map<Seq<char>, Occupant>, step: StepView) -> Map<
    Seq<char>,
    Occupant,
> {
    match step {
        StepView::RemoveTree(p) => state.remove(p),
        StepView::Unlink(p) => state.remove(p),
        StepView::Link { target, link } => state.insert(link, Occupant::LinkTo(target)),
    }
}

/// What a directory holds once all of `steps` are done, in order.
pub open spec fn after_steps(state: Map<Seq<char>, Occupant>, steps: Seq<StepView>) -> Map<
    Seq<char>,
    Occupant,
>
    decreases steps.len(),
{
    if steps.len() == 0 {
        state
    } else {
        after_step(after_steps(state, steps.drop_last()), steps.last())
    }
}

/// Plans the removal of all contents of a directory: every entry of its
/// listing goes, directories with all beneath them, links by unlinking.
pub fn remove_dir_contents(contents: &[DirEntry]) -> (r: Vec<SwapStep>)
    ensures
        step_views(r@) == removal_plan(contents@),
{
    let mut out: Vec<SwapStep> = Vec::new();
    let mut i: usize = 0;
    while i < contents.len()
        invariant
            i <= contents.len(),
            out.len() == i,
            forall|j: int| 0 <= j < i ==> (#[trigger] out@[j])@ == removal_of(contents@[j]),
        decreases contents.len() - i,
    {
        let entry = &contents[i];
        let real_dir: bool = match entry.kind {
            EntryKind::Dir => !entry.symlink,
            _ => false,
        };
        if real_dir {
            out.push(SwapStep::RemoveTree(entry.path.clone()));
        } else {
            out.push(SwapStep::Unlink(entry.path.clone()));
        }
        i = i + 1;
    }
    out
}

/// Plans a swap: the removal of all of `contents`, then a link at `link` that
/// points at `target`.
pub fn replace(contents: &[DirEntry], target: &str, link: &str) -> (r: Vec<SwapStep>)
    ensures
        step_views(r@) == swap_plan(contents@, target@, link@),
{
    let mut plan: Vec<SwapStep> = remove_dir_contents(contents);
    plan.push(SwapStep::Link { target: String::from_str(target), link: String::from_str(link) });
    plan
}

/// Clearing the first `n` entries of a listing removes exactly their paths.
proof fn lemma_removals(state: Map<Seq<char>, Occupant>, contents: Seq<DirEntry>, n: int)
    requires
        0 <= n <= contents.len(),
    ensures
        after_steps(state, removal_plan(contents).take(n)) == state.remove_keys(
            paths_of(contents).take(n).to_set(),
        ),
    decreases n,
{
    if n > 0 {
        lemma_removals(state, contents, n - 1);
        let was = paths_of(contents).take(n - 1);
        let path = contents[n - 1].path@;
        assert(removal_plan(contents).take(n).drop_last() =~= removal_plan(contents).take(n - 1));
        assert(paths_of(contents).take(n) =~= was.push(path));
        was.lemma_push_to_set_commute(path);
        assert(state.remove_keys(was.to_set()).remove(path) =~= state.remove_keys(
            was.to_set().insert(path),
        ));
    } else {
        assert(paths_of(contents).take(0).to_set() =~= Set::<Seq<char>>::empty());
        assert(state.remove_keys(Set::<Seq<char>>::empty()) =~= state);
    }
}

/// After a swap the placeholder's directory holds exactly one entry, the
/// link to the chosen binary, whatever it held before, provided the listing
/// that the plan was made from names all that the directory holds.
pub proof fn law_swap_leaves_only_link(
    state: Map<Seq<char>, Occupant>,
    contents: Seq<DirEntry>,
    target: Seq<char>,
    link: Seq<char>,
)
    requires
        state.dom() == paths_of(contents).to_set(),
    ensures
        after_steps(state, swap_plan(contents, target, link)) == Map::<
            Seq<char>,
            Occupant,
        >::empty().insert(link, Occupant::LinkTo(target)),
{
    lemma_removals(state, contents, contents.len() as int);
    assert(removal_plan(contents).take(contents.len() as int) =~= removal_plan(contents));
    assert(paths_of(contents).take(contents.len() as int) =~= paths_of(contents));
    assert(swap_plan(contents, target, link).drop_last() =~= removal_plan(contents));
    assert(state.remove_keys(state.dom()) =~= Map::<Seq<char>, Occupant>::empty());
}

/// After a swap the placeholder's binary path resolves to exactly the chosen
/// target.
pub proof fn law_swap_round_trip(
    state: Map<Seq<char>, Occupant>,
    contents: Seq<DirEntry>,
    target: Seq<char>,
    link: Seq<char>,
)
    ensures
        after_steps(state, swap_plan(contents, target, link)).dom().contains(link),
        after_steps(state, swap_plan(contents, target, link))[link] == Occupant::LinkTo(target),
{
    assert(swap_plan(contents, target, link).last() == StepView::Link { target, link });
}

/// A second swap with the same target leaves the directory as the first did:
/// one link, to the same target.
pub proof fn law_swap_idempotent(
    state: Map<Seq<char>, Occupant>,
    first: Seq<DirEntry>,
    second: Seq<DirEntry>,
    target: Seq<char>,
    link: Seq<char>,
)
    requires
        state.dom() == paths_of(first).to_set(),
        after_steps(state, swap_plan(first, target, link)).dom() == paths_of(second).to_set(),
    ensures
        after_steps(
            after_steps(state, swap_plan(first, target, link)),
            swap_plan(second, target, link),
        ) == after_steps(state, swap_plan(first, target, link)),
{
    law_swap_leaves_only_link(state, first, target, link);
    law_swap_leaves_only_link(
        after_steps(state, swap_plan(first, target, link)),
        second,
        target,
        link,
    );
}

} // verus!
