use regex::Regex;
use rgrep::config::{
    assemble, configure, extension_pattern, plan_inputs, Compilation, ConfigError, InputPlan,
    Options, PatternRole,
};

fn options(content: Option<&str>) -> Options {
    Options {
        content_include: content.map(str::to_string),
        content_exclude: None,
        name_include: None,
        name_exclude: None,
        extension: None,
        context_depth: 0,
    }
}

fn ready(pattern: &str) -> Compilation {
    Compilation::Ready(Regex::new(pattern).unwrap())
}

fn strings(items: &[&str]) -> Vec<String> {
    items.iter().map(|item| item.to_string()).collect()
}

const MALFORMED: &str = "foo(";

#[test]
fn configure_compiles_every_pattern() {
    let engine = configure(&Options {
        content_include: Some("foo".to_string()),
        content_exclude: Some("bar".to_string()),
        name_include: Some(r"\.txt$".to_string()),
        name_exclude: Some("^tmp/".to_string()),
        extension: None,
        context_depth: 4,
    })
    .unwrap();
    assert_eq!(engine.criteria.content_include.as_str(), "foo");
    assert_eq!(engine.criteria.content_exclude.unwrap().as_str(), "bar");
    assert_eq!(engine.criteria.context_depth, 4);
    assert_eq!(engine.filter.name_include.unwrap().as_str(), r"\.txt$");
    assert_eq!(engine.filter.name_exclude.unwrap().as_str(), "^tmp/");
}

#[test]
fn configure_with_the_content_pattern_alone() {
    let engine = configure(&options(Some("fo+"))).unwrap();
    assert!(engine.criteria.is_match("xfoooy"));
    assert!(!engine.criteria.is_match("f"));
    assert!(engine.criteria.content_exclude.is_none());
    assert!(engine.filter.name_include.is_none());
    assert!(engine.filter.name_exclude.is_none());
    assert!(engine.filter.accepts("anything"));
}

#[test]
fn compiled_patterns_match_as_patterns_not_as_text() {
    let engine = configure(&options(Some("^a.c$"))).unwrap();
    assert!(engine.criteria.is_match("abc"));
    assert!(!engine.criteria.is_match("^a.c$"));
}

#[test]
fn missing_content_pattern_is_an_error() {
    assert_eq!(configure(&options(None)).unwrap_err(), ConfigError::MissingContentPattern);
}

#[test]
fn malformed_content_inclusion_is_an_error() {
    assert_eq!(
        configure(&options(Some(MALFORMED))).unwrap_err(),
        ConfigError::MalformedPattern(PatternRole::ContentInclusion)
    );
}

#[test]
fn malformed_content_exclusion_is_an_error() {
    let mut given = options(Some("foo"));
    given.content_exclude = Some(MALFORMED.to_string());
    assert_eq!(
        configure(&given).unwrap_err(),
        ConfigError::MalformedPattern(PatternRole::ContentExclusion)
    );
}

#[test]
fn malformed_name_inclusion_is_an_error() {
    let mut given = options(Some("foo"));
    given.name_include = Some(MALFORMED.to_string());
    assert_eq!(
        configure(&given).unwrap_err(),
        ConfigError::MalformedPattern(PatternRole::NameInclusion)
    );
}

#[test]
fn malformed_name_exclusion_is_an_error() {
    let mut given = options(Some("foo"));
    given.name_exclude = Some(MALFORMED.to_string());
    assert_eq!(
        configure(&given).unwrap_err(),
        ConfigError::MalformedPattern(PatternRole::NameExclusion)
    );
}

#[test]
fn malformed_extension_is_an_error() {
    let mut given = options(Some("foo"));
    given.extension = Some("t(xt".to_string());
    assert_eq!(
        configure(&given).unwrap_err(),
        ConfigError::MalformedPattern(PatternRole::NameExtension)
    );
}

#[test]
fn malformed_name_inclusion_counts_even_beside_an_extension() {
    let mut given = options(Some("foo"));
    given.name_include = Some(MALFORMED.to_string());
    given.extension = Some("txt".to_string());
    assert_eq!(
        configure(&given).unwrap_err(),
        ConfigError::MalformedPattern(PatternRole::NameInclusion)
    );
}

#[test]
fn the_first_option_at_fault_is_named() {
    let all_malformed = Options {
        content_include: Some(MALFORMED.to_string()),
        content_exclude: Some(MALFORMED.to_string()),
        name_include: Some(MALFORMED.to_string()),
        name_exclude: Some(MALFORMED.to_string()),
        extension: Some(MALFORMED.to_string()),
        context_depth: 0,
    };
    let order = [
        PatternRole::NameInclusion,
        PatternRole::NameExtension,
        PatternRole::NameExclusion,
        PatternRole::ContentInclusion,
        PatternRole::ContentExclusion,
    ];
    let mut given = all_malformed;
    for role in order {
        assert_eq!(configure(&given).unwrap_err(), ConfigError::MalformedPattern(role));
        match role {
            PatternRole::NameInclusion => given.name_include = None,
            PatternRole::NameExtension => given.extension = None,
            PatternRole::NameExclusion => given.name_exclude = None,
            PatternRole::ContentInclusion => given.content_include = Some("ok".to_string()),
            PatternRole::ContentExclusion => given.content_exclude = None,
        }
    }
    assert!(configure(&given).is_ok());
}

#[test]
fn missing_content_pattern_comes_before_a_malformed_exclusion() {
    let mut given = options(None);
    given.content_exclude = Some(MALFORMED.to_string());
    assert_eq!(configure(&given).unwrap_err(), ConfigError::MissingContentPattern);
    given.name_exclude = Some(MALFORMED.to_string());
    assert_eq!(
        configure(&given).unwrap_err(),
        ConfigError::MalformedPattern(PatternRole::NameExclusion)
    );
}

#[test]
fn extension_stands_for_names_that_end_in_it() {
    let mut given = options(Some("foo"));
    given.extension = Some("txt".to_string());
    let engine = configure(&given).unwrap();
    assert_eq!(engine.filter.name_include.as_ref().unwrap().as_str(), r"\.txt$");
    assert!(engine.filter.accepts("x.txt"));
    assert!(engine.filter.accepts("dir/y.txt"));
    assert!(!engine.filter.accepts("x.go"));
    assert!(!engine.filter.accepts("xtxt"));
    assert!(!engine.filter.accepts("x.txt.bak"));
}

#[test]
fn extension_takes_the_place_of_the_name_inclusion() {
    let mut given = options(Some("foo"));
    given.name_include = Some("^src/".to_string());
    given.extension = Some("rs".to_string());
    given.name_exclude = Some("test".to_string());
    let engine = configure(&given).unwrap();
    assert_eq!(engine.filter.name_include.as_ref().unwrap().as_str(), r"\.rs$");
    assert!(engine.filter.accepts("doc/a.rs"));
    assert!(!engine.filter.accepts("src/a.txt"));
    assert!(!engine.filter.accepts("doc/test.rs"));
}

#[test]
fn extension_pattern_is_dot_extension_end() {
    assert_eq!(extension_pattern("txt"), r"\.txt$");
    assert_eq!(extension_pattern(""), r"\.$");
    assert_eq!(extension_pattern("tar.gz"), r"\.tar.gz$");
}

#[test]
fn assemble_puts_the_patterns_in_their_places() {
    let engine = assemble(
        ready("ni"),
        Compilation::Absent,
        ready("ne"),
        ready("ci"),
        ready("ce"),
        9,
    )
    .unwrap();
    assert_eq!(engine.filter.name_include.unwrap().as_str(), "ni");
    assert_eq!(engine.filter.name_exclude.unwrap().as_str(), "ne");
    assert_eq!(engine.criteria.content_include.as_str(), "ci");
    assert_eq!(engine.criteria.content_exclude.unwrap().as_str(), "ce");
    assert_eq!(engine.criteria.context_depth, 9);
}

#[test]
fn assemble_prefers_the_extension() {
    let engine = assemble(
        ready("ni"),
        ready("ext"),
        Compilation::Absent,
        ready("ci"),
        Compilation::Absent,
        0,
    )
    .unwrap();
    assert_eq!(engine.filter.name_include.unwrap().as_str(), "ext");
    assert!(engine.filter.name_exclude.is_none());
    assert!(engine.criteria.content_exclude.is_none());
}

#[test]
fn assemble_names_each_fault() {
    let absent = || Compilation::Absent;
    let bad = || Compilation::Malformed;
    assert_eq!(
        assemble(bad(), absent(), absent(), ready("c"), absent(), 0).unwrap_err(),
        ConfigError::MalformedPattern(PatternRole::NameInclusion)
    );
    assert_eq!(
        assemble(absent(), bad(), absent(), ready("c"), absent(), 0).unwrap_err(),
        ConfigError::MalformedPattern(PatternRole::NameExtension)
    );
    assert_eq!(
        assemble(absent(), absent(), bad(), ready("c"), absent(), 0).unwrap_err(),
        ConfigError::MalformedPattern(PatternRole::NameExclusion)
    );
    assert_eq!(
        assemble(absent(), absent(), absent(), bad(), absent(), 0).unwrap_err(),
        ConfigError::MalformedPattern(PatternRole::ContentInclusion)
    );
    assert_eq!(
        assemble(absent(), absent(), absent(), absent(), absent(), 0).unwrap_err(),
        ConfigError::MissingContentPattern
    );
    assert_eq!(
        assemble(absent(), absent(), absent(), ready("c"), bad(), 0).unwrap_err(),
        ConfigError::MalformedPattern(PatternRole::ContentExclusion)
    );
}

#[test]
fn no_argument_means_the_current_directory() {
    assert_eq!(plan_inputs(&vec![]), InputPlan { roots: strings(&["."]), from_stdin: false });
}

#[test]
fn arguments_are_the_roots() {
    assert_eq!(
        plan_inputs(&strings(&["a", "b/c", "-"])),
        InputPlan { roots: strings(&["a", "b/c", "-"]), from_stdin: false }
    );
}

#[test]
fn marker_asks_for_the_standard_input() {
    assert_eq!(plan_inputs(&strings(&["--"])), InputPlan { roots: vec![], from_stdin: true });
    assert_eq!(
        plan_inputs(&strings(&["a", "--"])),
        InputPlan { roots: strings(&["a"]), from_stdin: true }
    );
}

#[test]
fn arguments_after_the_marker_are_left_aside() {
    assert_eq!(
        plan_inputs(&strings(&["a", "b", "--", "c", "--", "d"])),
        InputPlan { roots: strings(&["a", "b"]), from_stdin: true }
    );
}

#[test]
fn only_the_exact_marker_counts() {
    assert_eq!(
        plan_inputs(&strings(&["---", "-- ", ""])),
        InputPlan { roots: strings(&["---", "-- ", ""]), from_stdin: false }
    );
}
