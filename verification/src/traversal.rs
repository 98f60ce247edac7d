//! What a walk over a file tree amounts to.
//!
//! The walker of [`crate::walker`] sees the file system one answer at a
//! time. This module describes a file tree as a value, says which files a
//! traversal of it scans and which failures it reports, and proves that the
//! walker, given the answers of such a tree, yields exactly those.

use crate::criteria::FileFilter;
use crate::walker::{
    outcome_of, pending_after, request_for, stacked_entries, Fault, PendingView,
    TraversalErrorView, WalkAnswerView, WalkOutcomeView, WalkRequestView,
};
use vstd::prelude::*;

verus! {

/// A file tree, as far as a traversal can tell.
pub enum FileTree {
    /// Anything that is not a directory.
    File { path: Seq<char> },
    /// A directory with its entries, in the order of its listing.
    Directory { path: Seq<char>, entries: Seq<FileTree> },
    /// A directory that cannot be listed.
    SealedDirectory { path: Seq<char>, cause: Seq<char> },
    /// A path whose metadata cannot be read.
    Unreadable { path: Seq<char>, cause: Seq<char> },
}

impl FileTree {
    pub open spec fn path(self) -> Seq<char> {
        match self {
            FileTree::File { path } => path,
            FileTree::Directory { path, .. } => path,
            FileTree::SealedDirectory { path, .. } => path,
            FileTree::Unreadable { path, .. } => path,
        }
    }

    pub open spec fn is_directory(self) -> bool {
        self is Directory || self is SealedDirectory
    }
}

/// What a traversal of `tree` scans and reports, in order.
///
/// A file found in a directory is scanned exactly when the filter accepts
/// its path; the root is scanned whatever the filter says. A directory is
/// always descended into, and its entries are visited one after the other,
/// each one wholly before the next. A directory that cannot be listed, and an
/// entry whose metadata cannot be read, are reported, and the traversal goes
/// on with what follows. A root whose metadata cannot be read is handed to the
/// scanner like a file.
pub open spec fn visit(tree: FileTree, filter: FileFilter, at_root: bool) -> Seq<WalkOutcomeView>
    decreases tree, 0nat,
{
    match tree {
        FileTree::File { path } => if at_root || filter.accepts_path(path) {
            seq![WalkOutcomeView::Scan(path)]
        } else {
            Seq::empty()
        },
        FileTree::Directory { path, entries } => visit_entries(entries, filter, 0),
        FileTree::SealedDirectory { path, cause } => seq![
            WalkOutcomeView::Report(TraversalErrorView { fault: Fault::CannotList, path, cause }),
        ],
        FileTree::Unreadable { path, cause } => if at_root {
            seq![WalkOutcomeView::Scan(path)]
        } else {
            seq![
                WalkOutcomeView::Report(
                    TraversalErrorView { fault: Fault::CannotStat, path, cause },
                ),
            ]
        },
    }
}

/// What a traversal scans and reports for the entries from `from` on.
pub open spec fn visit_entries(entries: Seq<FileTree>, filter: FileFilter, from: nat) -> Seq<
    WalkOutcomeView,
>
    decreases entries, entries.len() - from,
{
    if from >= entries.len() {
        Seq::empty()
    } else {
        visit(entries[from as int], filter, false) + visit_entries(entries, filter, from + 1)
    }
}

/// The number of answers that a traversal needs for `tree`.
pub open spec fn effort(tree: FileTree) -> nat
    decreases tree, 0nat,
{
    match tree {
        FileTree::File { .. } => 1,
        FileTree::Directory { entries, .. } => 2 + effort_entries(entries, 0),
        FileTree::SealedDirectory { .. } => 2,
        FileTree::Unreadable { .. } => 1,
    }
}

/// The number of answers needed for the entries from `from` on.
pub open spec fn effort_entries(entries: Seq<FileTree>, from: nat) -> nat
    decreases entries, entries.len() - from,
{
    if from >= entries.len() {
        0
    } else {
        effort(entries[from as int]) + effort_entries(entries, from + 1)
    }
}

/// A pending path of the walker together with the tree that stands there.
pub enum Job {
    Root(FileTree),
    Entry(FileTree),
    /// A directory whose metadata has been read and whose entries have not.
    Listing(FileTree),
}

impl Job {
    pub open spec fn tree(self) -> FileTree {
        match self {
            Job::Root(tree) => tree,
            Job::Entry(tree) => tree,
            Job::Listing(tree) => tree,
        }
    }

    /// Only directories are ever listed.
    pub open spec fn valid(self) -> bool {
        self is Listing ==> self.tree().is_directory()
    }

    /// The pending path that the walker holds for this job.
    pub open spec fn pending(self) -> PendingView {
        match self {
            Job::Root(tree) => PendingView::Root(tree.path()),
            Job::Entry(tree) => PendingView::Entry(tree.path()),
            Job::Listing(tree) => PendingView::Directory(tree.path()),
        }
    }

    /// What the file system answers to the request that this job raises.
    pub open spec fn answer(self) -> WalkAnswerView {
        match self {
            Job::Listing(tree) => match tree {
                FileTree::Directory { entries, .. } => WalkAnswerView::Entries(
                    Seq::new(entries.len(), |i: int| entries[i].path()),
                ),
                FileTree::SealedDirectory { cause, .. } => WalkAnswerView::ListFailed(cause),
                _ => WalkAnswerView::ListFailed(Seq::empty()),
            },
            _ => match self.tree() {
                FileTree::File { .. } => WalkAnswerView::NotDirectory,
                FileTree::Directory { .. } => WalkAnswerView::Directory,
                FileTree::SealedDirectory { .. } => WalkAnswerView::Directory,
                FileTree::Unreadable { cause, .. } => WalkAnswerView::StatFailed(cause),
            },
        }
    }

    /// The number of answers still needed for this job.
    pub open spec fn effort(self) -> nat {
        match self {
            Job::Listing(tree) => if tree.is_directory() {
                (effort(tree) - 1) as nat
            } else {
                1
            },
            _ => effort(self.tree()),
        }
    }

    /// What dealing with this job scans and reports.
    pub open spec fn outcomes(self, filter: FileFilter) -> Seq<WalkOutcomeView> {
        visit(self.tree(), filter, self is Root)
    }
}

/// The entries from `from` on as jobs, stacked so that the first of them is
/// dealt with first.
pub open spec fn stacked_jobs(entries: Seq<FileTree>, from: nat) -> Seq<Job> {
    Seq::new(
        (entries.len() - from) as nat,
        |i: int| Job::Entry(entries[entries.len() - 1 - i]),
    )
}

/// The jobs left once the last one has had its answer.
pub open spec fn jobs_after(jobs: Seq<Job>) -> Seq<Job>
    recommends
        jobs.len() > 0,
{
    let rest = jobs.drop_last();
    match jobs.last() {
        Job::Listing(tree) => match tree {
            FileTree::Directory { entries, .. } => rest + stacked_jobs(entries, 0),
            _ => rest,
        },
        job => if job.tree().is_directory() {
            rest.push(Job::Listing(job.tree()))
        } else {
            rest
        },
    }
}

/// The stack of pending paths that the walker holds for a stack of jobs.
pub open spec fn pending_of(jobs: Seq<Job>) -> Seq<PendingView> {
    Seq::new(jobs.len(), |i: int| jobs[i].pending())
}

/// The number of answers still needed for a stack of jobs.
pub open spec fn total_effort(jobs: Seq<Job>) -> nat
    decreases jobs.len(),
{
    if jobs.len() == 0 {
        0
    } else {
        total_effort(jobs.drop_last()) + jobs.last().effort()
    }
}

proof fn lemma_effort_of_push(rest: Seq<Job>, job: Job)
    ensures
        total_effort(rest.push(job)) == total_effort(rest) + job.effort(),
{
    assert(rest.push(job).drop_last() =~= rest);
}

proof fn lemma_effort_of_stacked(rest: Seq<Job>, entries: Seq<FileTree>, from: nat)
    requires
        from <= entries.len(),
    ensures
        total_effort(rest + stacked_jobs(entries, from)) == total_effort(rest) + effort_entries(
            entries,
            from,
        ),
    decreases entries.len() - from,
{
    let stacked = rest + stacked_jobs(entries, from);
    if from >= entries.len() {
        assert(stacked =~= rest);
    } else {
        assert(stacked.last() == Job::Entry(entries[from as int]));
        assert(stacked.drop_last() =~= rest + stacked_jobs(entries, from + 1));
        lemma_effort_of_stacked(rest, entries, from + 1);
    }
}

/// Every answer brings the traversal one step nearer to its end.
pub proof fn lemma_effort_decreases(jobs: Seq<Job>)
    requires
        jobs.len() > 0,
    ensures
        total_effort(jobs_after(jobs)) < total_effort(jobs),
{
    let rest = jobs.drop_last();
    match jobs.last() {
        Job::Listing(tree) => match tree {
            FileTree::Directory { entries, .. } => {
                lemma_effort_of_stacked(rest, entries, 0);
            },
            _ => {},
        },
        job => {
            if job.tree().is_directory() {
                lemma_effort_of_push(rest, Job::Listing(job.tree()));
            }
        },
    }
}

/// An outcome that asks the caller to act, as a sequence of one; nothing
/// for the others.
pub open spec fn reported(outcome: WalkOutcomeView) -> Seq<WalkOutcomeView> {
    match outcome {
        WalkOutcomeView::Scan(_) => seq![outcome],
        WalkOutcomeView::Report(_) => seq![outcome],
        _ => Seq::empty(),
    }
}

/// What the walker asks its caller to scan and to report, in order, when it
/// starts with the pending paths of `jobs` and every request is answered as
/// the trees of the jobs say, until nothing is pending.
pub open spec fn walk_outcomes(jobs: Seq<Job>, filter: FileFilter) -> Seq<WalkOutcomeView>
    decreases total_effort(jobs),
{
    if jobs.len() == 0 {
        Seq::empty()
    } else {
        proof {
            lemma_effort_decreases(jobs);
        }
        reported(outcome_of(pending_of(jobs), jobs.last().answer(), filter)) + walk_outcomes(
            jobs_after(jobs),
            filter,
        )
    }
}

/// The jobs mirror the walker: the request that the walker raises is the
/// one of the last job, and after the answer of that job the walker holds
/// the pending paths of the jobs that are left.
pub proof fn lemma_jobs_mirror_walker(jobs: Seq<Job>)
    requires
        jobs.len() > 0,
        forall|i: int| 0 <= i < jobs.len() ==> (#[trigger] jobs[i]).valid(),
    ensures
        request_for(pending_of(jobs)) == match jobs.last() {
            Job::Listing(tree) => WalkRequestView::List(tree.path()),
            job => WalkRequestView::Stat(job.tree().path()),
        },
        pending_after(pending_of(jobs), jobs.last().answer()) == pending_of(jobs_after(jobs)),
        forall|i: int|
            0 <= i < jobs_after(jobs).len() ==> (#[trigger] jobs_after(jobs)[i]).valid(),
{
    let pending = pending_of(jobs);
    let rest = jobs.drop_last();
    assert(pending.last() == jobs.last().pending());
    assert(pending.drop_last() =~= pending_of(rest));
    assert(jobs.last().valid());
    match jobs.last() {
        Job::Listing(tree) => match tree {
            FileTree::Directory { entries, .. } => {
                let paths = Seq::new(entries.len(), |i: int| entries[i].path());
                assert(pending_of(rest) + stacked_entries(paths) =~= pending_of(
                    rest + stacked_jobs(entries, 0),
                ));
            },
            _ => {},
        },
        job => {
            if job.tree().is_directory() {
                assert(pending_of(rest).push(PendingView::Directory(job.tree().path()))
                    =~= pending_of(rest.push(Job::Listing(job.tree()))));
            }
        },
    }
}

/// What a stack of jobs amounts to: the outcomes of each job, the last job
/// first.
pub open spec fn expected_outcomes(jobs: Seq<Job>, filter: FileFilter) -> Seq<WalkOutcomeView>
    decreases jobs.len(),
{
    if jobs.len() == 0 {
        Seq::empty()
    } else {
        jobs.last().outcomes(filter) + expected_outcomes(jobs.drop_last(), filter)
    }
}

proof fn lemma_expected_of_stacked(
    rest: Seq<Job>,
    entries: Seq<FileTree>,
    from: nat,
    filter: FileFilter,
)
    requires
        from <= entries.len(),
    ensures
        expected_outcomes(rest + stacked_jobs(entries, from), filter) == visit_entries(
            entries,
            filter,
            from,
        ) + expected_outcomes(rest, filter),
    decreases entries.len() - from,
{
    let stacked = rest + stacked_jobs(entries, from);
    if from >= entries.len() {
        assert(stacked =~= rest);
        assert(visit_entries(entries, filter, from) + expected_outcomes(rest, filter)
            =~= expected_outcomes(rest, filter));
    } else {
        assert(stacked.last() == Job::Entry(entries[from as int]));
        assert(stacked.drop_last() =~= rest + stacked_jobs(entries, from + 1));
        lemma_expected_of_stacked(rest, entries, from + 1, filter);
        let first = visit(entries[from as int], filter, false);
        let others = visit_entries(entries, filter, from + 1);
        let below = expected_outcomes(rest, filter);
        assert(first + (others + below) =~= (first + others) + below);
    }
}

/// The walker, answered as the trees say, scans and reports what the jobs
/// amount to.
pub proof fn lemma_walk_follows_jobs(jobs: Seq<Job>, filter: FileFilter)
    requires
        forall|i: int| 0 <= i < jobs.len() ==> (#[trigger] jobs[i]).valid(),
    ensures
        walk_outcomes(jobs, filter) == expected_outcomes(jobs, filter),
    decreases total_effort(jobs),
{
    if jobs.len() > 0 {
        let rest = jobs.drop_last();
        let last = jobs.last();
        let after = jobs_after(jobs);
        lemma_effort_decreases(jobs);
        lemma_jobs_mirror_walker(jobs);
        lemma_walk_follows_jobs(after, filter);
        assert(pending_of(jobs).last() == last.pending());
        assert(last.valid());
        let acted = reported(outcome_of(pending_of(jobs), last.answer(), filter));
        let below = expected_outcomes(rest, filter);
        match last {
            Job::Listing(tree) => match tree {
                FileTree::Directory { entries, .. } => {
                    lemma_expected_of_stacked(rest, entries, 0, filter);
                    assert(acted + (visit_entries(entries, filter, 0) + below) =~= visit_entries(
                        entries,
                        filter,
                        0,
                    ) + below);
                },
                _ => {},
            },
            job => {
                if job.tree().is_directory() {
                    assert(after.drop_last() =~= rest);
                    assert(acted + (Job::Listing(job.tree()).outcomes(filter) + below)
                        =~= job.outcomes(filter) + below);
                }
            },
        }
    }
}

/// A traversal that starts at the root of `tree` and gets the answers of
/// `tree` scans every file of the tree that the filter accepts, once each
/// and in the order of the listings, and reports each failure once, where
/// it occurs. The filter is asked neither for directories nor for the root.
pub proof fn lemma_walk_visits_tree(tree: FileTree, filter: FileFilter)
    ensures
        walk_outcomes(seq![Job::Root(tree)], filter) == visit(tree, filter, true),
{
    let jobs = seq![Job::Root(tree)];
    lemma_walk_follows_jobs(jobs, filter);
    assert(jobs.last() == Job::Root(tree));
    assert(jobs.drop_last() =~= Seq::<Job>::empty());
    assert(expected_outcomes(jobs, filter) == jobs.last().outcomes(filter) + expected_outcomes(
        jobs.drop_last(),
        filter,
    ));
    assert(expected_outcomes(Seq::<Job>::empty(), filter) =~= Seq::<WalkOutcomeView>::empty());
    assert(visit(tree, filter, true) + Seq::<WalkOutcomeView>::empty() =~= visit(
        tree,
        filter,
        true,
    ));
}

/// The paths that a sequence of outcomes asks to scan, in order.
pub open spec fn scanned_paths(outcomes: Seq<WalkOutcomeView>) -> Seq<Seq<char>>
    decreases outcomes.len(),
{
    if outcomes.len() == 0 {
        Seq::empty()
    } else {
        let earlier = scanned_paths(outcomes.drop_last());
        match outcomes.last() {
            WalkOutcomeView::Scan(path) => earlier.push(path),
            _ => earlier,
        }
    }
}

/// The paths among `paths` that the filter accepts, in order.
pub open spec fn accepted_paths(paths: Seq<Seq<char>>, filter: FileFilter) -> Seq<Seq<char>>
    decreases paths.len(),
{
    if paths.len() == 0 {
        Seq::empty()
    } else {
        let earlier = accepted_paths(paths.drop_last(), filter);
        if filter.accepts_path(paths.last()) {
            earlier.push(paths.last())
        } else {
            earlier
        }
    }
}

/// The paths of the files below `tree`, or `tree` itself where it is a
/// file: one entry for each file, in the order of the listings. What lies
/// in a directory that cannot be listed, and what has no readable metadata,
/// is not known to be a file and is left out.
pub open spec fn files(tree: FileTree) -> Seq<Seq<char>>
    decreases tree, 0nat,
{
    match tree {
        FileTree::File { path } => seq![path],
        FileTree::Directory { entries, .. } => files_of_entries(entries, 0),
        _ => Seq::empty(),
    }
}

/// The paths of the files at and below the entries from `from` on.
pub open spec fn files_of_entries(entries: Seq<FileTree>, from: nat) -> Seq<Seq<char>>
    decreases entries, entries.len() - from,
{
    if from >= entries.len() {
        Seq::empty()
    } else {
        files(entries[from as int]) + files_of_entries(entries, from + 1)
    }
}

proof fn lemma_scanned_paths_of_concat(first: Seq<WalkOutcomeView>, second: Seq<WalkOutcomeView>)
    ensures
        scanned_paths(first + second) == scanned_paths(first) + scanned_paths(second),
    decreases second.len(),
{
    if second.len() == 0 {
        assert(first + second =~= first);
        assert(scanned_paths(first) + scanned_paths(second) =~= scanned_paths(first));
    } else {
        assert((first + second).drop_last() =~= first + second.drop_last());
        assert((first + second).last() == second.last());
        lemma_scanned_paths_of_concat(first, second.drop_last());
        let earlier = scanned_paths(first) + scanned_paths(second.drop_last());
        match second.last() {
            WalkOutcomeView::Scan(path) => {
                assert(earlier.push(path) =~= scanned_paths(first) + scanned_paths(
                    second.drop_last(),
                ).push(path));
            },
            _ => {},
        }
    }
}

proof fn lemma_accepted_paths_of_concat(
    first: Seq<Seq<char>>,
    second: Seq<Seq<char>>,
    filter: FileFilter,
)
    ensures
        accepted_paths(first + second, filter) == accepted_paths(first, filter) + accepted_paths(
            second,
            filter,
        ),
    decreases second.len(),
{
    if second.len() == 0 {
        assert(first + second =~= first);
        assert(accepted_paths(first, filter) + accepted_paths(second, filter) =~= accepted_paths(
            first,
            filter,
        ));
    } else {
        assert((first + second).drop_last() =~= first + second.drop_last());
        assert((first + second).last() == second.last());
        lemma_accepted_paths_of_concat(first, second.drop_last(), filter);
        if filter.accepts_path(second.last()) {
            assert((accepted_paths(first, filter) + accepted_paths(second.drop_last(), filter)).push(
                second.last(),
            ) =~= accepted_paths(first, filter) + accepted_paths(second.drop_last(), filter).push(
                second.last(),
            ));
        }
    }
}

/// Below the root, a traversal scans the files that the filter accepts: each
/// of them once, in the order of the listings, wherever in the tree it lies.
pub proof fn lemma_visit_scans_accepted_files(tree: FileTree, filter: FileFilter)
    ensures
        scanned_paths(visit(tree, filter, false)) == accepted_paths(files(tree), filter),
    decreases tree, 0nat,
{
    let nothing = Seq::<WalkOutcomeView>::empty();
    assert(scanned_paths(nothing) =~= Seq::<Seq<char>>::empty());
    assert(accepted_paths(Seq::<Seq<char>>::empty(), filter) =~= Seq::<Seq<char>>::empty());
    match tree {
        FileTree::File { path } => {
            let only = seq![path];
            assert(only.drop_last() =~= Seq::<Seq<char>>::empty());
            assert(only.last() == path);
            if filter.accepts_path(path) {
                let outcome = seq![WalkOutcomeView::Scan(path)];
                assert(outcome.drop_last() =~= nothing);
                assert(outcome.last() == WalkOutcomeView::Scan(path));
                assert(scanned_paths(outcome) =~= seq![path]);
                assert(accepted_paths(only, filter) =~= seq![path]);
            }
        },
        FileTree::Directory { entries, .. } => {
            lemma_visit_entries_scans_accepted_files(entries, filter, 0);
        },
        FileTree::SealedDirectory { path, cause } => {
            let outcome = visit(tree, filter, false);
            assert(outcome.drop_last() =~= nothing);
        },
        FileTree::Unreadable { path, cause } => {
            let outcome = visit(tree, filter, false);
            assert(outcome.drop_last() =~= nothing);
        },
    }
}

proof fn lemma_visit_entries_scans_accepted_files(
    entries: Seq<FileTree>,
    filter: FileFilter,
    from: nat,
)
    ensures
        scanned_paths(visit_entries(entries, filter, from)) == accepted_paths(
            files_of_entries(entries, from),
            filter,
        ),
    decreases entries, entries.len() - from,
{
    if from < entries.len() {
        lemma_visit_scans_accepted_files(entries[from as int], filter);
        lemma_visit_entries_scans_accepted_files(entries, filter, from + 1);
        lemma_scanned_paths_of_concat(
            visit(entries[from as int], filter, false),
            visit_entries(entries, filter, from + 1),
        );
        lemma_accepted_paths_of_concat(
            files(entries[from as int]),
            files_of_entries(entries, from + 1),
            filter,
        );
    }
}

/// A filter without an inclusion pattern accepts every path.
pub proof fn lemma_no_inclusion_accepts_all(paths: Seq<Seq<char>>, filter: FileFilter)
    requires
        filter.name_include is None,
    ensures
        accepted_paths(paths, filter) == paths,
    decreases paths.len(),
{
    if paths.len() > 0 {
        lemma_no_inclusion_accepts_all(paths.drop_last(), filter);
        assert(paths.drop_last().push(paths.last()) =~= paths);
    }
}

/// A traversal of a directory scans every file below it that the filter
/// accepts, once each; directories are descended into whatever the filter
/// says of them. Without an inclusion pattern that is every file below the
/// directory.
pub proof fn lemma_walk_scans_accepted_files(tree: FileTree, filter: FileFilter)
    requires
        tree is Directory,
    ensures
        scanned_paths(walk_outcomes(seq![Job::Root(tree)], filter)) == accepted_paths(
            files(tree),
            filter,
        ),
        filter.name_include is None ==> scanned_paths(
            walk_outcomes(seq![Job::Root(tree)], filter),
        ) == files(tree),
{
    lemma_walk_visits_tree(tree, filter);
    lemma_visit_scans_accepted_files(tree, filter);
    if filter.name_include is None {
        lemma_no_inclusion_accepts_all(files(tree), filter);
    }
}

} // verus!
