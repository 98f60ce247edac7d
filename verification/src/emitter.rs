//! The emitter: turns match events into the records of the report.

use crate::scanner::{MatchEvent, MatchEventView};
use vstd::prelude::*;

verus! {

/// The text of one decimal digit.
pub open spec fn digit_text(digit: nat) -> Seq<char>
    recommends
        digit < 10,
{
    if digit == 0 {
        "0"@
    } else if digit == 1 {
        "1"@
    } else if digit == 2 {
        "2"@
    } else if digit == 3 {
        "3"@
    } else if digit == 4 {
        "4"@
    } else if digit == 5 {
        "5"@
    } else if digit == 6 {
        "6"@
    } else if digit == 7 {
        "7"@
    } else if digit == 8 {
        "8"@
    } else {
        "9"@
    }
}

/// A number written in decimal, without sign and without leading zeros.
pub open spec fn decimal_text(number: nat) -> Seq<char>
    decreases number,
{
    if number < 10 {
        digit_text(number)
    } else {
        decimal_text(number / 10) + digit_text(number % 10)
    }
}

/// One record of the report: the source, the line number and the line.
pub open spec fn record_text(label: Seq<char>, number: nat, text: Seq<char>) -> Seq<char> {
    label + " +"@ + decimal_text(number) + " |"@ + text
}

/// The record that comes before the context of a reported line.
pub open spec fn separator_text() -> Seq<char> {
    "--"@
}

/// The records of one event. Where context was asked for, a separator comes
/// first, then the context lines from the oldest to the newest, and the
/// reported line last; where it was not, the reported line stands alone.
pub open spec fn event_records(event: MatchEventView) -> Seq<Seq<char>> {
    let reported = record_text(event.source_label, event.line_number, event.line_text);
    match event.context_lines {
        None => seq![reported],
        Some(lines) => seq![separator_text()] + Seq::new(
            lines.len(),
            |i: int| record_text(event.source_label, lines[i].number, lines[i].text),
        ) + seq![reported],
    }
}

fn digit(value: usize) -> (text: &'static str)
    requires
        value < 10,
    ensures
        text@ == digit_text(value as nat),
{
    if value == 0 {
        "0"
    } else if value == 1 {
        "1"
    } else if value == 2 {
        "2"
    } else if value == 3 {
        "3"
    } else if value == 4 {
        "4"
    } else if value == 5 {
        "5"
    } else if value == 6 {
        "6"
    } else if value == 7 {
        "7"
    } else if value == 8 {
        "8"
    } else {
        "9"
    }
}

/// Writes a number in decimal.
pub fn decimal(number: usize) -> (text: String)
    ensures
        text@ == decimal_text(number as nat),
    decreases number,
{
    if number < 10 {
        digit(number).to_owned()
    } else {
        let mut text = decimal(number / 10);
        text.append(digit(number % 10));
        text
    }
}

/// Formats one record: `<label> +<number> |<text>`.
pub fn format_record(label: &str, number: usize, text: &str) -> (record: String)
    ensures
        record@ == record_text(label@, number as nat, text@),
{
    let mut record = label.to_owned();
    record.append(" +");
    let digits = decimal(number);
    record.append(digits.as_str());
    record.append(" |");
    record.append(text);
    record
}

/// The records of one event, in the order in which they are written.
pub fn render_event(event: &MatchEvent) -> (records: Vec<String>)
    ensures
        records.deep_view() == event_records(event@),
{
    let mut records: Vec<String> = Vec::new();
    let label = event.source_label.as_str();
    match &event.context_lines {
        None => {},
        Some(lines) => {
            records.push("--".to_owned());
            let mut index: usize = 0;
            while index < lines.len()
                invariant
                    index <= lines.len(),
                    label@ == event.source_label@,
                    records.len() == index + 1,
                    records[0]@ == separator_text(),
                    forall|k: int|
                        1 <= k < records.len() ==> (#[trigger] records[k])@ == record_text(
                            label@,
                            lines[k - 1].number as nat,
                            lines[k - 1].text@,
                        ),
                decreases lines.len() - index,
            {
                let line = &lines[index];
                records.push(format_record(label, line.number, line.text.as_str()));
                index = index + 1;
            }
        },
    }
    records.push(format_record(label, event.line_number, event.line_text.as_str()));
    proof {
        let expected = event_records(event@);
        assert(records.len() == expected.len());
        assert forall|k: int| 0 <= k < records.len() implies (#[trigger] records[k])@
            == expected[k] by {
            if event.context_lines is Some && 1 <= k < records.len() - 1 {
                let lines = event.context_lines->0;
                assert(lines.deep_view()[k - 1] == lines[k - 1]@);
            }
        }
        assert(records.deep_view() =~= expected);
    }
    records
}

} // verus!
