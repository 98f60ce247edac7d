//! What to search for, and which files to search in.

use crate::matcher::{is_match, pattern_matches};
use regex::Regex;
use vstd::prelude::*;

verus! {

/// The patterns applied to each line, and the number of preceding lines shown
/// with a reported line.
#[derive(Debug)]
pub struct SearchCriteria {
    /// A line is reported only if this pattern matches it.
    pub content_include: Regex,
    /// A line that this pattern matches is never reported.
    pub content_exclude: Option<Regex>,
    /// How many lines before a reported line are shown with it.
    pub context_depth: u8,
}

/// The patterns applied to the path of each file found in a directory.
#[derive(Debug)]
pub struct FileFilter {
    /// When present, only files whose path it matches are scanned.
    pub name_include: Option<Regex>,
    /// Narrows `name_include`; it has no effect on its own.
    pub name_exclude: Option<Regex>,
}

impl SearchCriteria {
    /// A line is selected when the inclusion pattern matches it and the
    /// exclusion pattern, if there is one, does not.
    pub open spec fn selects(&self, line: Seq<char>) -> bool {
        pattern_matches(self.content_include, line) && !(self.content_exclude is Some
            && pattern_matches(self.content_exclude->0, line))
    }

    pub fn new(content_include: Regex, content_exclude: Option<Regex>, context_depth: u8) -> (criteria:
        SearchCriteria)
        ensures
            criteria.content_include == content_include,
            criteria.content_exclude == content_exclude,
            criteria.context_depth == context_depth,
    {
        SearchCriteria { content_include, content_exclude, context_depth }
    }

    /// Decides whether `line` is reported. The exclusion pattern is consulted
    /// only for lines that the inclusion pattern matches.
    pub fn is_match(&self, line: &str) -> (selected: bool)
        ensures
            selected == self.selects(line@),
            selected == (pattern_matches(self.content_include, line@) && (self.content_exclude is None
                || !pattern_matches(self.content_exclude->0, line@))),
    {
        if !is_match(&self.content_include, line) {
            return false;
        }
        match &self.content_exclude {
            Some(exclude) => !is_match(exclude, line),
            None => true,
        }
    }
}

impl FileFilter {
    /// A path is accepted when there is no inclusion pattern, or when the
    /// inclusion pattern matches it and the exclusion pattern, if there is
    /// one, does not.
    pub open spec fn accepts_path(&self, path: Seq<char>) -> bool {
        self.name_include is None || (pattern_matches(self.name_include->0, path) && !(
        self.name_exclude is Some && pattern_matches(self.name_exclude->0, path)))
    }

    pub fn new(name_include: Option<Regex>, name_exclude: Option<Regex>) -> (filter: FileFilter)
        ensures
            filter.name_include == name_include,
            filter.name_exclude == name_exclude,
    {
        FileFilter { name_include, name_exclude }
    }

    /// Decides whether the file at `path` is scanned. Without an inclusion
    /// pattern every file is, whatever the exclusion pattern says.
    pub fn accepts(&self, path: &str) -> (accepted: bool)
        ensures
            accepted == self.accepts_path(path@),
    {
        match &self.name_include {
            None => true,
            Some(include_re) => {
                if !is_match(include_re, path) {
                    return false;
                }
                match &self.name_exclude {
                    Some(exclude_re) => !is_match(exclude_re, path),
                    None => true,
                }
            },
        }
    }
}

} // verus!
