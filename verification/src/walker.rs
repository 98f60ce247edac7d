//! The directory walker: decides, from what the file system answers, which
//! paths are examined next, which files are scanned and which failures are
//! reported.
//!
//! The walker touches no file system itself. Its caller asks it for the next
//! request, carries the request out, and hands back the answer.

use crate::criteria::FileFilter;
use vstd::prelude::*;

verus! {

/// What went wrong with a path during the traversal.
#[derive(Clone, Copy, Debug, PartialEq, Eq, Structural)]
pub enum Fault {
    /// The entries of a directory cannot be listed.
    CannotList,
    /// The metadata of a directory entry cannot be read.
    CannotStat,
    /// A file cannot be opened for scanning.
    CannotOpen,
}

/// A failure that is reported and does not stop the traversal.
#[derive(Debug, PartialEq, Eq)]
pub struct TraversalError {
    pub fault: Fault,
    pub path: String,
    /// The reason given by the file system.
    pub cause: String,
}

/// The mathematical value of a [`TraversalError`].
pub struct TraversalErrorView {
    pub fault: Fault,
    pub path: Seq<char>,
    pub cause: Seq<char>,
}

impl View for TraversalError {
    type V = TraversalErrorView;

    open spec fn view(&self) -> TraversalErrorView {
        TraversalErrorView { fault: self.fault, path: self.path@, cause: self.cause@ }
    }
}

/// The line written to the error stream for a failure.
pub open spec fn error_text(error: TraversalErrorView) -> Seq<char> {
    let opening = match error.fault {
        Fault::CannotList => "Cannot list path: "@,
        Fault::CannotStat => "Cannot stat path: "@,
        Fault::CannotOpen => "Error opening "@,
    };
    opening + error.path + ", "@ + error.cause
}

impl TraversalError {
    /// The line written to the error stream for this failure.
    pub fn message(&self) -> (text: String)
        ensures
            text@ == error_text(self@),
    {
        let mut text = match self.fault {
            Fault::CannotList => "Cannot list path: ".to_owned(),
            Fault::CannotStat => "Cannot stat path: ".to_owned(),
            Fault::CannotOpen => "Error opening ".to_owned(),
        };
        text.append(self.path.as_str());
        text.append(", ");
        text.append(self.cause.as_str());
        text
    }
}

/// A path that the walker has yet to deal with.
#[derive(Debug, PartialEq, Eq)]
pub enum Pending {
    /// The path the traversal starts from; nothing is known of it yet.
    Root(String),
    /// A path known to be a directory, whose entries are to be listed.
    Directory(String),
    /// An entry found in a directory; nothing is known of it yet.
    Entry(String),
}

/// The mathematical value of a [`Pending`] path.
pub enum PendingView {
    Root(Seq<char>),
    Directory(Seq<char>),
    Entry(Seq<char>),
}

impl View for Pending {
    type V = PendingView;

    open spec fn view(&self) -> PendingView {
        match self {
            Pending::Root(path) => PendingView::Root(path@),
            Pending::Directory(path) => PendingView::Directory(path@),
            Pending::Entry(path) => PendingView::Entry(path@),
        }
    }
}

impl DeepView for Pending {
    type V = PendingView;

    open spec fn deep_view(&self) -> PendingView {
        self@
    }
}

/// What the walker asks its caller to find out next.
#[derive(Debug, PartialEq, Eq)]
pub enum WalkRequest {
    /// Read the metadata of the path, following symbolic links.
    Stat(String),
    /// List the entries of the directory at the path.
    List(String),
    /// Nothing is left to do.
    Finished,
}

/// The mathematical value of a [`WalkRequest`].
pub enum WalkRequestView {
    Stat(Seq<char>),
    List(Seq<char>),
    Finished,
}

impl View for WalkRequest {
    type V = WalkRequestView;

    open spec fn view(&self) -> WalkRequestView {
        match self {
            WalkRequest::Stat(path) => WalkRequestView::Stat(path@),
            WalkRequest::List(path) => WalkRequestView::List(path@),
            WalkRequest::Finished => WalkRequestView::Finished,
        }
    }
}

/// What the file system said to a request.
#[derive(Debug, PartialEq, Eq)]
pub enum WalkAnswer {
    /// To `Stat`: the path is a directory.
    Directory,
    /// To `Stat`: the path is something other than a directory.
    NotDirectory,
    /// To `Stat`: the metadata cannot be read, for the reason given.
    StatFailed(String),
    /// To `List`: the paths of the entries, in the order of the listing.
    Entries(Vec<String>),
    /// To `List`: the directory cannot be listed, for the reason given.
    ListFailed(String),
}

/// The mathematical value of a [`WalkAnswer`].
pub enum WalkAnswerView {
    Directory,
    NotDirectory,
    StatFailed(Seq<char>),
    Entries(Seq<Seq<char>>),
    ListFailed(Seq<char>),
}

impl View for WalkAnswer {
    type V = WalkAnswerView;

    open spec fn view(&self) -> WalkAnswerView {
        match self {
            WalkAnswer::Directory => WalkAnswerView::Directory,
            WalkAnswer::NotDirectory => WalkAnswerView::NotDirectory,
            WalkAnswer::StatFailed(cause) => WalkAnswerView::StatFailed(cause@),
            WalkAnswer::Entries(paths) => WalkAnswerView::Entries(paths.deep_view()),
            WalkAnswer::ListFailed(cause) => WalkAnswerView::ListFailed(cause@),
        }
    }
}

/// What the caller has to do after an answer.
#[derive(Debug, PartialEq, Eq)]
pub enum WalkOutcome {
    /// Scan the file at the path.
    Scan(String),
    /// Report the failure on the error stream.
    Report(TraversalError),
    /// Nothing; ask for the next request.
    Continue,
    /// The answer does not fit the pending request; nothing has changed.
    Ignored,
}

/// The mathematical value of a [`WalkOutcome`].
pub enum WalkOutcomeView {
    Scan(Seq<char>),
    Report(TraversalErrorView),
    Continue,
    Ignored,
}

impl View for WalkOutcome {
    type V = WalkOutcomeView;

    open spec fn view(&self) -> WalkOutcomeView {
        match self {
            WalkOutcome::Scan(path) => WalkOutcomeView::Scan(path@),
            WalkOutcome::Report(error) => WalkOutcomeView::Report(error@),
            WalkOutcome::Continue => WalkOutcomeView::Continue,
            WalkOutcome::Ignored => WalkOutcomeView::Ignored,
        }
    }
}

/// The request that a stack of pending paths gives rise to. The last path of
/// the stack is dealt with next.
pub open spec fn request_for(pending: Seq<PendingView>) -> WalkRequestView {
    if pending.len() == 0 {
        WalkRequestView::Finished
    } else {
        match pending.last() {
            PendingView::Root(path) => WalkRequestView::Stat(path),
            PendingView::Entry(path) => WalkRequestView::Stat(path),
            PendingView::Directory(path) => WalkRequestView::List(path),
        }
    }
}

/// The entries of a listing as pending paths, stacked so that the first
/// entry of the listing is dealt with first.
pub open spec fn stacked_entries(paths: Seq<Seq<char>>) -> Seq<PendingView> {
    Seq::new(paths.len(), |i: int| PendingView::Entry(paths[paths.len() - 1 - i]))
}

/// The stack of pending paths after an answer.
///
/// A root that is a directory is listed, and any other root is scanned,
/// whatever the filter says. An entry whose metadata cannot be read is
/// dropped. An entry that is a directory is listed, whatever the filter
/// says; any other entry is dropped once the filter has been asked. A
/// directory gives way to its entries, or to nothing where it cannot be
/// listed. An answer that does not fit the last pending path changes
/// nothing.
pub open spec fn pending_after(pending: Seq<PendingView>, answer: WalkAnswerView) -> Seq<
    PendingView,
> {
    if pending.len() == 0 {
        pending
    } else {
        let rest = pending.drop_last();
        match (pending.last(), answer) {
            (PendingView::Root(path), WalkAnswerView::Directory) => rest.push(
                PendingView::Directory(path),
            ),
            (PendingView::Root(_), WalkAnswerView::NotDirectory) => rest,
            (PendingView::Root(_), WalkAnswerView::StatFailed(_)) => rest,
            (PendingView::Entry(path), WalkAnswerView::Directory) => rest.push(
                PendingView::Directory(path),
            ),
            (PendingView::Entry(_), WalkAnswerView::NotDirectory) => rest,
            (PendingView::Entry(_), WalkAnswerView::StatFailed(_)) => rest,
            (PendingView::Directory(_), WalkAnswerView::Entries(paths)) => rest + stacked_entries(
                paths,
            ),
            (PendingView::Directory(_), WalkAnswerView::ListFailed(_)) => rest,
            _ => pending,
        }
    }
}

/// What the caller has to do after an answer.
///
/// A root that is not a directory, or whose metadata cannot be read, is
/// scanned without asking the filter. An entry other than a directory is
/// scanned exactly when the filter accepts its path. A failure to read the
/// metadata of an entry, or to list a directory, is reported.
pub open spec fn outcome_of(pending: Seq<PendingView>, answer: WalkAnswerView, filter: FileFilter)
    -> WalkOutcomeView {
    if pending.len() == 0 {
        WalkOutcomeView::Ignored
    } else {
        match (pending.last(), answer) {
            (PendingView::Root(_), WalkAnswerView::Directory) => WalkOutcomeView::Continue,
            (PendingView::Root(path), WalkAnswerView::NotDirectory) => WalkOutcomeView::Scan(path),
            (PendingView::Root(path), WalkAnswerView::StatFailed(_)) => WalkOutcomeView::Scan(path),
            (PendingView::Entry(_), WalkAnswerView::Directory) => WalkOutcomeView::Continue,
            (PendingView::Entry(path), WalkAnswerView::NotDirectory) => if filter.accepts_path(
                path,
            ) {
                WalkOutcomeView::Scan(path)
            } else {
                WalkOutcomeView::Continue
            },
            (PendingView::Entry(path), WalkAnswerView::StatFailed(cause)) => WalkOutcomeView::Report(
                TraversalErrorView { fault: Fault::CannotStat, path, cause },
            ),
            (PendingView::Directory(_), WalkAnswerView::Entries(_)) => WalkOutcomeView::Continue,
            (PendingView::Directory(path), WalkAnswerView::ListFailed(cause)) =>
                WalkOutcomeView::Report(
                TraversalErrorView { fault: Fault::CannotList, path, cause },
            ),
            _ => WalkOutcomeView::Ignored,
        }
    }
}

/// The traversal of one root in progress: a stack of pending paths.
pub struct Walker<'a> {
    filter: &'a FileFilter,
    stack: Vec<Pending>,
}

impl<'a> Walker<'a> {
    pub closed spec fn filter(&self) -> FileFilter {
        *self.filter
    }

    /// The paths yet to be dealt with; the last one comes next.
    pub closed spec fn pending(&self) -> Seq<PendingView> {
        self.stack.deep_view()
    }

    /// A walker that starts from `root`.
    pub fn new(root: String, filter: &'a FileFilter) -> (walker: Walker<'a>)
        ensures
            walker.filter() == *filter,
            walker.pending() == seq![PendingView::Root(root@)],
    {
        let mut stack: Vec<Pending> = Vec::new();
        stack.push(Pending::Root(root));
        let walker = Walker { filter, stack };
        assert(walker.stack.deep_view() =~= seq![PendingView::Root(root@)]);
        walker
    }

    /// Whether every path has been dealt with.
    pub fn is_finished(&self) -> (done: bool)
        ensures
            done == (self.pending().len() == 0),
    {
        self.stack.len() == 0
    }

    /// What the caller has to find out next.
    pub fn request(&self) -> (request: WalkRequest)
        ensures
            request@ == request_for(self.pending()),
    {
        let count: usize = self.stack.len();
        if count == 0 {
            return WalkRequest::Finished;
        }
        assert(self.stack.deep_view().last() == self.stack[count - 1]@);
        match &self.stack[count - 1] {
            Pending::Root(path) => WalkRequest::Stat(path.clone()),
            Pending::Entry(path) => WalkRequest::Stat(path.clone()),
            Pending::Directory(path) => WalkRequest::List(path.clone()),
        }
    }

    /// Takes the answer to the pending request and says what to do with it.
    pub fn resolve(&mut self, answer: WalkAnswer) -> (outcome: WalkOutcome)
        ensures
            final(self).filter() == old(self).filter(),
            final(self).pending() == pending_after(old(self).pending(), answer@),
            outcome@ == outcome_of(old(self).pending(), answer@, old(self).filter()),
    {
        let ghost before = self.stack.deep_view();
        let top = self.stack.pop();
        let ghost rest = self.stack.deep_view();
        proof {
            if before.len() > 0 {
                assert(rest =~= before.drop_last());
                assert(before.last() == old(self).stack[before.len() - 1]@);
            } else {
                assert(rest =~= before);
            }
        }
        match top {
            None => WalkOutcome::Ignored,
            Some(Pending::Root(path)) => match answer {
                WalkAnswer::Directory => {
                    self.stack.push(Pending::Directory(path));
                    assert(self.stack.deep_view() =~= rest.push(PendingView::Directory(path@)));
                    WalkOutcome::Continue
                },
                WalkAnswer::NotDirectory => WalkOutcome::Scan(path),
                WalkAnswer::StatFailed(_) => WalkOutcome::Scan(path),
                _ => {
                    self.stack.push(Pending::Root(path));
                    assert(self.stack.deep_view() =~= before);
                    WalkOutcome::Ignored
                },
            },
            Some(Pending::Entry(path)) => match answer {
                WalkAnswer::Directory => {
                    self.stack.push(Pending::Directory(path));
                    assert(self.stack.deep_view() =~= rest.push(PendingView::Directory(path@)));
                    WalkOutcome::Continue
                },
                WalkAnswer::NotDirectory => {
                    if self.filter.accepts(path.as_str()) {
                        WalkOutcome::Scan(path)
                    } else {
                        WalkOutcome::Continue
                    }
                },
                WalkAnswer::StatFailed(cause) => WalkOutcome::Report(
                    TraversalError { fault: Fault::CannotStat, path, cause },
                ),
                _ => {
                    self.stack.push(Pending::Entry(path));
                    assert(self.stack.deep_view() =~= before);
                    WalkOutcome::Ignored
                },
            },
            Some(Pending::Directory(path)) => match answer {
                WalkAnswer::Entries(paths) => {
                    self.stack_entries(paths);
                    WalkOutcome::Continue
                },
                WalkAnswer::ListFailed(cause) => WalkOutcome::Report(
                    TraversalError { fault: Fault::CannotList, path, cause },
                ),
                _ => {
                    self.stack.push(Pending::Directory(path));
                    assert(self.stack.deep_view() =~= before);
                    WalkOutcome::Ignored
                },
            },
        }
    }

    /// Puts the entries of a listing on the stack, the first one on top.
    fn stack_entries(&mut self, paths: Vec<String>)
        ensures
            final(self).filter() == old(self).filter(),
            final(self).pending() == old(self).pending() + stacked_entries(paths.deep_view()),
    {
        let ghost below = self.stack.deep_view();
        let ghost all = paths.deep_view();
        let mut paths = paths;
        while paths.len() > 0
            invariant
                self.filter == old(self).filter,
                paths.len() <= all.len(),
                paths.deep_view() == all.subrange(0, paths.len() as int),
                self.stack.deep_view() == below + stacked_entries(all).subrange(
                    0,
                    all.len() - paths.len(),
                ),
            decreases paths.len(),
        {
            let ghost left = paths.len() as int;
            let ghost stacked = self.stack.deep_view();
            let ghost held = paths.deep_view();
            let popped = paths.pop();
            match popped {
                Some(path) => {
                    assert(path@ == held[left - 1]);
                    self.stack.push(Pending::Entry(path));
                    assert(paths.deep_view() =~= all.subrange(0, left - 1));
                    assert(self.stack.deep_view() =~= stacked.push(PendingView::Entry(path@)));
                    assert(self.stack.deep_view() =~= below + stacked_entries(all).subrange(
                        0,
                        all.len() - left + 1,
                    ));
                },
                None => {},
            }
        }
        assert(self.stack.deep_view() =~= below + stacked_entries(all));
    }
}

} // verus!
