//! The line scanner: feeds the lines of one input to the context buffer and
//! to the search criteria, and produces a match event for each selected line.

use crate::context::{latest, ContextBuffer, Line, LineView};
use crate::criteria::SearchCriteria;
use vstd::prelude::*;

verus! {

/// One reported line, with the lines shown before it.
#[derive(Debug, PartialEq, Eq)]
pub struct MatchEvent {
    /// The path of the file, or the label of the standard input.
    pub source_label: String,
    /// Position of the line in its input, counted from zero.
    pub line_number: usize,
    pub line_text: String,
    /// The lines that precede the reported one, oldest first; `None` when no
    /// context was asked for.
    pub context_lines: Option<Vec<Line>>,
}

/// The mathematical value of a [`MatchEvent`].
pub struct MatchEventView {
    pub source_label: Seq<char>,
    pub line_number: nat,
    pub line_text: Seq<char>,
    pub context_lines: Option<Seq<LineView>>,
}

impl View for MatchEvent {
    type V = MatchEventView;

    open spec fn view(&self) -> MatchEventView {
        MatchEventView {
            source_label: self.source_label@,
            line_number: self.line_number as nat,
            line_text: self.line_text@,
            context_lines: self.context_lines.deep_view(),
        }
    }
}

impl DeepView for MatchEvent {
    type V = MatchEventView;

    open spec fn deep_view(&self) -> MatchEventView {
        self@
    }
}

/// The label under which the lines of the standard input are reported.
pub open spec fn standard_input_label_text() -> Seq<char> {
    "(standard input)"@
}

/// The label under which the lines of the standard input are reported.
pub fn standard_input_label() -> (label: String)
    ensures
        label@ == standard_input_label_text(),
{
    "(standard input)".to_owned()
}

/// The lines among the first `upto` of an input that could be read as text,
/// each with its number. A line that could not be read is `None`.
pub open spec fn decoded_lines(lines: Seq<Option<Seq<char>>>, upto: int) -> Seq<LineView>
    recommends
        upto <= lines.len(),
    decreases upto,
{
    if upto <= 0 {
        Seq::empty()
    } else {
        let earlier = decoded_lines(lines, upto - 1);
        match lines[upto - 1] {
            Some(text) => earlier.push(LineView { number: (upto - 1) as nat, text }),
            None => earlier,
        }
    }
}

/// The event that the line at `index` gives rise to, if any: the line must
/// be readable and selected by the criteria. Its context is the nearest
/// readable lines before it, at most `context_depth` of them.
pub open spec fn event_at(
    label: Seq<char>,
    lines: Seq<Option<Seq<char>>>,
    index: int,
    criteria: SearchCriteria,
) -> Option<MatchEventView>
    recommends
        0 <= index < lines.len(),
{
    match lines[index] {
        Some(text) => if criteria.selects(text) {
            Some(
                MatchEventView {
                    source_label: label,
                    line_number: index as nat,
                    line_text: text,
                    context_lines: if criteria.context_depth > 0 {
                        Some(latest(decoded_lines(lines, index), criteria.context_depth as nat))
                    } else {
                        None
                    },
                },
            )
        } else {
            None
        },
        None => None,
    }
}

/// The events of the first `upto` lines, in the order of the lines.
pub open spec fn events_upto(
    label: Seq<char>,
    lines: Seq<Option<Seq<char>>>,
    criteria: SearchCriteria,
    upto: int,
) -> Seq<MatchEventView>
    recommends
        upto <= lines.len(),
    decreases upto,
{
    if upto <= 0 {
        Seq::empty()
    } else {
        let earlier = events_upto(label, lines, criteria, upto - 1);
        match event_at(label, lines, upto - 1, criteria) {
            Some(event) => earlier.push(event),
            None => earlier,
        }
    }
}

/// Every event of an input, in the order of its lines.
pub open spec fn scan_events(
    label: Seq<char>,
    lines: Seq<Option<Seq<char>>>,
    criteria: SearchCriteria,
) -> Seq<MatchEventView> {
    events_upto(label, lines, criteria, lines.len() as int)
}

/// The readable lines before a position depend only on the lines before it.
pub proof fn lemma_decoded_lines_of_prefix(
    shorter: Seq<Option<Seq<char>>>,
    longer: Seq<Option<Seq<char>>>,
    upto: int,
)
    requires
        upto <= shorter.len() <= longer.len(),
        forall|i: int| 0 <= i < upto ==> shorter[i] == longer[i],
    ensures
        decoded_lines(shorter, upto) == decoded_lines(longer, upto),
    decreases upto,
{
    if upto > 0 {
        lemma_decoded_lines_of_prefix(shorter, longer, upto - 1);
    }
}

/// An event depends only on its line and on the lines before it.
pub proof fn lemma_events_of_prefix(
    label: Seq<char>,
    shorter: Seq<Option<Seq<char>>>,
    longer: Seq<Option<Seq<char>>>,
    criteria: SearchCriteria,
    upto: int,
)
    requires
        upto <= shorter.len() <= longer.len(),
        forall|i: int| 0 <= i < upto ==> shorter[i] == longer[i],
    ensures
        events_upto(label, shorter, criteria, upto) == events_upto(label, longer, criteria, upto),
    decreases upto,
{
    if upto > 0 {
        lemma_events_of_prefix(label, shorter, longer, criteria, upto - 1);
        lemma_decoded_lines_of_prefix(shorter, longer, upto - 1);
    }
}

/// The events of a scan depend on the label, the lines and the criteria
/// alone: two scans of the same lines under the same label and criteria
/// yield the same events in the same order.
pub proof fn lemma_scan_is_repeatable(
    label: Seq<char>,
    lines: Seq<Option<Seq<char>>>,
    again: Seq<Option<Seq<char>>>,
    criteria: SearchCriteria,
    first: Seq<MatchEventView>,
    second: Seq<MatchEventView>,
)
    requires
        again == lines,
        first == scan_events(label, lines, criteria),
        second == scan_events(label, again, criteria),
    ensures
        first == second,
{
}

/// A scan reports exactly the readable lines that the criteria select, one
/// event for each, in the order of the lines.
pub proof fn lemma_events_are_selected_lines(
    label: Seq<char>,
    lines: Seq<Option<Seq<char>>>,
    criteria: SearchCriteria,
    upto: int,
)
    requires
        0 <= upto <= lines.len(),
    ensures
        forall|k: int|
            0 <= k < events_upto(label, lines, criteria, upto).len() ==> {
                let event = #[trigger] events_upto(label, lines, criteria, upto)[k];
                &&& event.line_number < upto
                &&& lines[event.line_number as int] == Some(event.line_text)
                &&& criteria.selects(event.line_text)
                &&& event.source_label == label
                &&& Some(event) == event_at(label, lines, event.line_number as int, criteria)
            },
        forall|j: int, k: int|
            0 <= j < k < events_upto(label, lines, criteria, upto).len() ==> (
            #[trigger] events_upto(label, lines, criteria, upto)[j]).line_number < (
            #[trigger] events_upto(label, lines, criteria, upto)[k]).line_number,
        forall|i: int|
            0 <= i < upto && event_at(label, lines, i, criteria) is Some ==> exists|k: int|
                0 <= k < events_upto(label, lines, criteria, upto).len() && #[trigger] events_upto(
                    label,
                    lines,
                    criteria,
                    upto,
                )[k] == event_at(label, lines, i, criteria)->0,
    decreases upto,
{
    if upto > 0 {
        lemma_events_are_selected_lines(label, lines, criteria, upto - 1);
        let earlier = events_upto(label, lines, criteria, upto - 1);
        let all = events_upto(label, lines, criteria, upto);
        assert forall|i: int|
            0 <= i < upto && event_at(label, lines, i, criteria) is Some implies exists|k: int|
            0 <= k < all.len() && #[trigger] all[k] == event_at(label, lines, i, criteria)->0 by {
            if i < upto - 1 {
                let k = choose|k: int|
                    0 <= k < earlier.len() && #[trigger] earlier[k] == event_at(
                        label,
                        lines,
                        i,
                        criteria,
                    )->0;
                assert(all[k] == earlier[k]);
            } else {
                assert(all[all.len() - 1] == event_at(label, lines, i, criteria)->0);
            }
        }
    }
}

/// The scan of one input in progress: the line counter and the context
/// buffer. A fresh scanner is needed for each input.
///
/// Its mathematical value is the label, the criteria and the sequence of
/// lines fed so far.
pub struct Scanner<'a> {
    criteria: &'a SearchCriteria,
    label: String,
    next_number: usize,
    buffer: ContextBuffer,
    fed: Ghost<Seq<Option<Seq<char>>>>,
}

impl<'a> Scanner<'a> {
    pub closed spec fn criteria(&self) -> SearchCriteria {
        *self.criteria
    }

    pub closed spec fn label(&self) -> Seq<char> {
        self.label@
    }

    /// Every line fed so far; `None` stands for a line that could not be
    /// read as text.
    pub closed spec fn fed(&self) -> Seq<Option<Seq<char>>> {
        self.fed@
    }

    /// The buffer has seen exactly the readable lines fed so far.
    pub closed spec fn wf(&self) -> bool {
        &&& self.buffer.wf()
        &&& self.buffer.depth() == self.criteria.context_depth
        &&& self.next_number == self.fed@.len()
        &&& self.buffer.history() == decoded_lines(self.fed@, self.fed@.len() as int)
    }

    /// A scanner at the start of the input named `label`.
    pub fn new(label: String, criteria: &'a SearchCriteria) -> (scanner: Scanner<'a>)
        ensures
            scanner.wf(),
            scanner.label() == label@,
            scanner.criteria() == *criteria,
            scanner.fed() == Seq::<Option<Seq<char>>>::empty(),
    {
        Scanner {
            criteria,
            label,
            next_number: 0,
            buffer: ContextBuffer::new(criteria.context_depth),
            fed: Ghost(Seq::empty()),
        }
    }

    /// The number of lines fed so far, which is the number of the next line.
    pub fn lines_fed(&self) -> (count: usize)
        requires
            self.wf(),
        ensures
            count == self.fed().len(),
    {
        self.next_number
    }

    /// Takes the next line of the input: `None` for a line that could not be
    /// read as text, which is counted and otherwise skipped. Returns the
    /// event of that line, if it is selected.
    pub fn feed(&mut self, line: Option<String>) -> (event: Option<MatchEvent>)
        requires
            old(self).wf(),
            old(self).fed().len() < usize::MAX,
        ensures
            final(self).wf(),
            final(self).label() == old(self).label(),
            final(self).criteria() == old(self).criteria(),
            final(self).fed() == old(self).fed().push(line.deep_view()),
            event.deep_view() == event_at(
                old(self).label(),
                final(self).fed(),
                old(self).fed().len() as int,
                old(self).criteria(),
            ),
    {
        let number: usize = self.next_number;
        let ghost before = self.fed@;
        let ghost after = before.push(line.deep_view());
        proof {
            lemma_decoded_lines_of_prefix(before, after, before.len() as int);
        }
        self.next_number = number + 1;
        self.fed = Ghost(after);
        match line {
            None => None,
            Some(text) => {
                self.buffer.push(number, text.clone());
                if self.criteria.is_match(text.as_str()) {
                    let context_lines = if self.criteria.context_depth > 0 {
                        let snapshot = self.buffer.snapshot();
                        assert(self.buffer.history().drop_last() =~= decoded_lines(
                            before,
                            before.len() as int,
                        ));
                        Some(snapshot)
                    } else {
                        None
                    };
                    Some(
                        MatchEvent {
                            source_label: self.label.clone(),
                            line_number: number,
                            line_text: text,
                            context_lines,
                        },
                    )
                } else {
                    None
                }
            },
        }
    }
}

/// Scans a whole input held in memory and returns its events in the order of
/// the lines. An entry `None` stands for a line that could not be read as
/// text.
pub fn scan_lines(label: &str, lines: &Vec<Option<String>>, criteria: &SearchCriteria) -> (events:
    Vec<MatchEvent>)
    ensures
        events.deep_view() == scan_events(label@, lines.deep_view(), *criteria),
{
    let mut scanner = Scanner::new(label.to_owned(), criteria);
    let mut events: Vec<MatchEvent> = Vec::new();
    let ghost all = lines.deep_view();
    let mut index: usize = 0;
    while index < lines.len()
        invariant
            scanner.wf(),
            scanner.label() == label@,
            scanner.criteria() == *criteria,
            all == lines.deep_view(),
            index <= lines.len(),
            scanner.fed() == all.subrange(0, index as int),
            events.deep_view() == events_upto(label@, all, *criteria, index as int),
        decreases lines.len() - index,
    {
        let line: Option<String> = match &lines[index] {
            Some(text) => Some(text.clone()),
            None => None,
        };
        assert(line.deep_view() == all[index as int]);
        let ghost earlier = events.deep_view();
        let found = scanner.feed(line);
        proof {
            let fed = scanner.fed();
            assert(fed =~= all.subrange(0, index + 1));
            lemma_decoded_lines_of_prefix(fed, all, index as int);
            assert(event_at(label@, fed, index as int, *criteria) == event_at(
                label@,
                all,
                index as int,
                *criteria,
            ));
        }
        match found {
            Some(event) => {
                events.push(event);
                assert(events.deep_view() =~= earlier.push(event.deep_view()));
            },
            None => {},
        }
        index = index + 1;
    }
    events
}

} // verus!
