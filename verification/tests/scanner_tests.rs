use regex::Regex;
use rgrep::context::Line;
use rgrep::criteria::SearchCriteria;
use rgrep::emitter::render_event;
use rgrep::scanner::{scan_lines, standard_input_label, MatchEvent, Scanner};

fn criteria(wanted: &str, unwanted: Option<&str>, depth: u8) -> SearchCriteria {
    SearchCriteria::new(
        Regex::new(wanted).unwrap(),
        unwanted.map(|pattern| Regex::new(pattern).unwrap()),
        depth,
    )
}

fn decoded(texts: &[&str]) -> Vec<Option<String>> {
    texts.iter().map(|text| Some(text.to_string())).collect()
}

fn line(number: usize, text: &str) -> Line {
    Line { number, text: text.to_string() }
}

fn event(number: usize, text: &str, context: Option<Vec<Line>>) -> MatchEvent {
    MatchEvent {
        source_label: "a.txt".to_string(),
        line_number: number,
        line_text: text.to_string(),
        context_lines: context,
    }
}

fn report(lines: &Vec<Option<String>>, criteria: &SearchCriteria) -> Vec<String> {
    let mut out = Vec::new();
    for event in scan_lines("a.txt", lines, criteria) {
        out.extend(render_event(&event));
    }
    out
}

#[test]
fn matches_without_context() {
    let lines = decoded(&["foo", "bar", "foobar"]);
    let criteria = criteria("foo", None, 0);
    assert_eq!(
        scan_lines("a.txt", &lines, &criteria),
        vec![event(0, "foo", None), event(2, "foobar", None)]
    );
    assert_eq!(report(&lines, &criteria), vec!["a.txt +0 |foo", "a.txt +2 |foobar"]);
}

#[test]
fn match_with_one_line_of_context() {
    let lines = decoded(&["foo", "bar", "foobar"]);
    let criteria = criteria("foo", None, 1);
    assert_eq!(
        scan_lines("a.txt", &lines, &criteria),
        vec![event(0, "foo", Some(vec![])), event(2, "foobar", Some(vec![line(1, "bar")]))]
    );
    assert_eq!(
        report(&lines, &criteria),
        vec!["--", "a.txt +0 |foo", "--", "a.txt +1 |bar", "a.txt +2 |foobar"]
    );
}

#[test]
fn exclusion_suppresses_a_line_matching_both() {
    let lines = decoded(&["foo", "bar", "foobar"]);
    let criteria = criteria("foo", Some("bar"), 0);
    assert_eq!(scan_lines("a.txt", &lines, &criteria), vec![event(0, "foo", None)]);
    assert_eq!(report(&lines, &criteria), vec!["a.txt +0 |foo"]);
}

#[test]
fn empty_input_has_no_events() {
    assert_eq!(scan_lines("a.txt", &vec![], &criteria("foo", None, 2)), vec![]);
}

#[test]
fn input_without_a_match_has_no_events() {
    let lines = decoded(&["bar", "baz"]);
    assert_eq!(scan_lines("a.txt", &lines, &criteria("foo", None, 2)), vec![]);
}

#[test]
fn context_is_cut_short_at_the_start_of_the_input() {
    let lines = decoded(&["a", "foo", "b", "c", "d", "foo"]);
    let criteria = criteria("foo", None, 3);
    assert_eq!(
        scan_lines("a.txt", &lines, &criteria),
        vec![
            event(1, "foo", Some(vec![line(0, "a")])),
            event(5, "foo", Some(vec![line(2, "b"), line(3, "c"), line(4, "d")])),
        ]
    );
}

#[test]
fn overlapping_contexts_are_each_written_in_full() {
    let lines = decoded(&["a", "foo 1", "foo 2"]);
    let criteria = criteria("foo", None, 2);
    assert_eq!(
        report(&lines, &criteria),
        vec![
            "--",
            "a.txt +0 |a",
            "a.txt +1 |foo 1",
            "--",
            "a.txt +0 |a",
            "a.txt +1 |foo 1",
            "a.txt +2 |foo 2",
        ]
    );
}

#[test]
fn excluded_lines_still_serve_as_context() {
    let lines = decoded(&["foobar", "foo"]);
    let criteria = criteria("foo", Some("bar"), 1);
    assert_eq!(
        scan_lines("a.txt", &lines, &criteria),
        vec![event(1, "foo", Some(vec![line(0, "foobar")]))]
    );
}

#[test]
fn unreadable_line_is_counted_and_skipped() {
    let lines = vec![Some("foo".to_string()), None, Some("foo again".to_string())];
    let criteria = criteria("foo", None, 0);
    assert_eq!(
        scan_lines("a.txt", &lines, &criteria),
        vec![event(0, "foo", None), event(2, "foo again", None)]
    );
}

#[test]
fn unreadable_line_is_no_context() {
    let lines = vec![
        Some("a".to_string()),
        None,
        Some("b".to_string()),
        None,
        None,
        Some("foo".to_string()),
    ];
    let criteria = criteria("foo", None, 2);
    assert_eq!(
        scan_lines("a.txt", &lines, &criteria),
        vec![event(5, "foo", Some(vec![line(0, "a"), line(2, "b")]))]
    );
}

#[test]
fn input_of_unreadable_lines_has_no_events() {
    let lines = vec![None, None, None];
    assert_eq!(scan_lines("a.txt", &lines, &criteria("", None, 1)), vec![]);
}

#[test]
fn feeding_line_by_line_gives_the_events_of_the_whole_scan() {
    let lines = vec![
        Some("foo".to_string()),
        Some("bar".to_string()),
        None,
        Some("foobar".to_string()),
        Some("x".to_string()),
        Some("foo x".to_string()),
        Some("foo".to_string()),
    ];
    for depth in 0u8..4 {
        let criteria = criteria("foo", Some("x"), depth);
        let mut scanner = Scanner::new("a.txt".to_string(), &criteria);
        let mut events = Vec::new();
        for (n, line) in lines.iter().enumerate() {
            assert_eq!(scanner.lines_fed(), n);
            events.extend(scanner.feed(line.clone()));
        }
        assert_eq!(scanner.lines_fed(), lines.len());
        assert_eq!(events, scan_lines("a.txt", &lines, &criteria));
    }
}

#[test]
fn feed_reports_the_line_just_fed() {
    let criteria = criteria("foo", None, 1);
    let mut scanner = Scanner::new("(standard input)".to_string(), &criteria);
    assert_eq!(scanner.feed(Some("bar".to_string())), None);
    let found = scanner.feed(Some("foo".to_string())).unwrap();
    assert_eq!(found.source_label, "(standard input)");
    assert_eq!(found.line_number, 1);
    assert_eq!(found.line_text, "foo");
    assert_eq!(found.context_lines, Some(vec![line(0, "bar")]));
    assert_eq!(scanner.feed(None), None);
    assert_eq!(scanner.lines_fed(), 3);
}

#[test]
fn scanning_twice_gives_the_same_events() {
    let lines = decoded(&["foo", "bar", "foobar", "", "foo foo"]);
    for depth in 0u8..3 {
        let criteria = criteria("foo", Some("^$"), depth);
        let first = scan_lines("a.txt", &lines, &criteria);
        let second = scan_lines("a.txt", &lines, &criteria);
        assert_eq!(first, second);
        assert_eq!(first.len(), 3);
    }
}

#[test]
fn events_come_in_the_order_of_the_lines() {
    let lines = decoded(&["foo", "foo", "x", "foo"]);
    let numbers: Vec<usize> = scan_lines("a.txt", &lines, &criteria("foo", None, 0))
        .iter()
        .map(|event| event.line_number)
        .collect();
    assert_eq!(numbers, vec![0, 1, 3]);
}

#[test]
fn events_are_the_selected_lines() {
    let lines = decoded(&["ab", "xab", "b", "aab", "", "ab x"]);
    let criteria = criteria("a+b", Some("x"), 0);
    let events = scan_lines("label", &lines, &criteria);
    let expected: Vec<usize> = (0..lines.len())
        .filter(|n| criteria.is_match(lines[*n].as_ref().unwrap()))
        .collect();
    assert_eq!(events.iter().map(|event| event.line_number).collect::<Vec<_>>(), expected);
    assert_eq!(expected, vec![0, 3]);
    assert!(events.iter().all(|event| event.source_label == "label"));
}

#[test]
fn standard_input_has_its_own_label() {
    assert_eq!(standard_input_label(), "(standard input)");
    let criteria = criteria("foo", None, 0);
    let mut scanner = Scanner::new(standard_input_label(), &criteria);
    let found = scanner.feed(Some("foo".to_string())).unwrap();
    assert_eq!(render_event(&found), vec!["(standard input) +0 |foo"]);
}
