//! From the text of the options to the search criteria and the file filter.

use crate::criteria::{FileFilter, SearchCriteria};
use crate::matcher::{compile, compiled_pattern};
use regex::Regex;
use vstd::prelude::*;

verus! {

/// The place of a pattern among the options.
#[derive(Clone, Copy, Debug, PartialEq, Eq, Structural)]
pub enum PatternRole {
    /// The pattern that a reported line must match.
    ContentInclusion,
    /// The pattern that a reported line must not match.
    ContentExclusion,
    /// The pattern that the path of a scanned file must match.
    NameInclusion,
    /// The pattern for file names made from a file extension.
    NameExtension,
    /// The pattern that the path of a scanned file must not match.
    NameExclusion,
}

/// Why no search can start.
#[derive(Clone, Copy, Debug, PartialEq, Eq, Structural)]
pub enum ConfigError {
    /// No pattern for the content of lines was given.
    MissingContentPattern,
    /// The text given in this role is not a pattern.
    MalformedPattern(PatternRole),
}

/// What became of the text of one option.
#[derive(Debug)]
pub enum Compilation {
    /// The option was not given.
    Absent,
    /// The option was given and its text is not a pattern.
    Malformed,
    /// The option was given and compiled to this pattern.
    Ready(Regex),
}

/// The options of a search, as text.
#[derive(Debug, PartialEq, Eq)]
pub struct Options {
    pub content_include: Option<String>,
    pub content_exclude: Option<String>,
    pub name_include: Option<String>,
    pub name_exclude: Option<String>,
    /// A file extension; it stands for the file names that end in a dot
    /// and this extension, and takes the place of `name_include`.
    pub extension: Option<String>,
    pub context_depth: u8,
}

/// The criteria and the filter of a search.
#[derive(Debug)]
pub struct Engine {
    pub criteria: SearchCriteria,
    pub filter: FileFilter,
}

/// The text of the pattern that stands for a file extension.
pub open spec fn extension_pattern_text(extension: Seq<char>) -> Seq<char> {
    "\\."@ + extension + "$"@
}

/// The pattern text for the file names that end in a dot and `extension`.
/// The extension is taken as pattern text, not as literal characters.
pub fn extension_pattern(extension: &str) -> (text: String)
    ensures
        text@ == extension_pattern_text(extension@),
{
    let mut text = "\\.".to_owned();
    text.append(extension);
    text.append("$");
    text
}

/// The pattern of a compilation, if it has one.
pub open spec fn pattern_of(compilation: Compilation) -> Option<Regex> {
    match compilation {
        Compilation::Ready(re) => Some(re),
        _ => None,
    }
}

/// What the compiled options amount to.
///
/// A malformed pattern is an error, and so is the lack of a pattern for the
/// content of lines. Where several options are at fault, the error names the
/// first of them in this order: file name inclusion, file extension, file
/// name exclusion, content inclusion, content exclusion. Otherwise the
/// patterns go to their places; the pattern of a file extension takes the
/// place of the one for file name inclusion.
pub open spec fn assembled(
    name_include: Compilation,
    extension: Compilation,
    name_exclude: Compilation,
    content_include: Compilation,
    content_exclude: Compilation,
    context_depth: u8,
) -> Result<Engine, ConfigError> {
    if name_include is Malformed {
        Err(ConfigError::MalformedPattern(PatternRole::NameInclusion))
    } else if extension is Malformed {
        Err(ConfigError::MalformedPattern(PatternRole::NameExtension))
    } else if name_exclude is Malformed {
        Err(ConfigError::MalformedPattern(PatternRole::NameExclusion))
    } else if content_include is Malformed {
        Err(ConfigError::MalformedPattern(PatternRole::ContentInclusion))
    } else if content_include is Absent {
        Err(ConfigError::MissingContentPattern)
    } else if content_exclude is Malformed {
        Err(ConfigError::MalformedPattern(PatternRole::ContentExclusion))
    } else {
        Ok(
            Engine {
                criteria: SearchCriteria {
                    content_include: content_include->Ready_0,
                    content_exclude: pattern_of(content_exclude),
                    context_depth,
                },
                filter: FileFilter {
                    name_include: if extension is Ready {
                        pattern_of(extension)
                    } else {
                        pattern_of(name_include)
                    },
                    name_exclude: pattern_of(name_exclude),
                },
            },
        )
    }
}

/// Puts the compiled options together, or names the first one at fault.
pub fn assemble(
    name_include: Compilation,
    extension: Compilation,
    name_exclude: Compilation,
    content_include: Compilation,
    content_exclude: Compilation,
    context_depth: u8,
) -> (result: Result<Engine, ConfigError>)
    ensures
        result == assembled(
            name_include,
            extension,
            name_exclude,
            content_include,
            content_exclude,
            context_depth,
        ),
{
    let by_name = match name_include {
        Compilation::Malformed => {
            return Err(ConfigError::MalformedPattern(PatternRole::NameInclusion));
        },
        Compilation::Ready(re) => Some(re),
        Compilation::Absent => None,
    };
    let name_include = match extension {
        Compilation::Malformed => {
            return Err(ConfigError::MalformedPattern(PatternRole::NameExtension));
        },
        Compilation::Ready(re) => Some(re),
        Compilation::Absent => by_name,
    };
    let name_exclude = match name_exclude {
        Compilation::Malformed => {
            return Err(ConfigError::MalformedPattern(PatternRole::NameExclusion));
        },
        Compilation::Ready(re) => Some(re),
        Compilation::Absent => None,
    };
    let content_include = match content_include {
        Compilation::Malformed => {
            return Err(ConfigError::MalformedPattern(PatternRole::ContentInclusion));
        },
        Compilation::Ready(re) => re,
        Compilation::Absent => {
            return Err(ConfigError::MissingContentPattern);
        },
    };
    let content_exclude = match content_exclude {
        Compilation::Malformed => {
            return Err(ConfigError::MalformedPattern(PatternRole::ContentExclusion));
        },
        Compilation::Ready(re) => Some(re),
        Compilation::Absent => None,
    };
    Ok(
        Engine {
            criteria: SearchCriteria { content_include, content_exclude, context_depth },
            filter: FileFilter { name_include, name_exclude },
        },
    )
}

/// What compiling the text of an option yields.
pub open spec fn compilation_of(text: Option<Seq<char>>) -> Compilation {
    match text {
        None => Compilation::Absent,
        Some(text) => match compiled_pattern(text) {
            Some(re) => Compilation::Ready(re),
            None => Compilation::Malformed,
        },
    }
}

fn compile_option(text: &Option<String>) -> (compilation: Compilation)
    ensures
        compilation == compilation_of(text.deep_view()),
{
    match text {
        None => Compilation::Absent,
        Some(text) => match compile(text.as_str()) {
            Ok(re) => Compilation::Ready(re),
            Err(_) => Compilation::Malformed,
        },
    }
}

/// Compiles the patterns of the options and puts them together.
pub fn configure(options: &Options) -> (result: Result<Engine, ConfigError>)
    ensures
        result == assembled(
            compilation_of(options.name_include.deep_view()),
            compilation_of(
                match options.extension {
                    Some(extension) => Some(extension_pattern_text(extension@)),
                    None => None,
                },
            ),
            compilation_of(options.name_exclude.deep_view()),
            compilation_of(options.content_include.deep_view()),
            compilation_of(options.content_exclude.deep_view()),
            options.context_depth,
        ),
{
    let extension = match &options.extension {
        Some(extension) => Some(extension_pattern(extension.as_str())),
        None => None,
    };
    assemble(
        compile_option(&options.name_include),
        compile_option(&extension),
        compile_option(&options.name_exclude),
        compile_option(&options.content_include),
        compile_option(&options.content_exclude),
        options.context_depth,
    )
}

/// Where a search reads from.
#[derive(Debug, PartialEq, Eq)]
pub struct InputPlan {
    /// The paths to traverse, in order.
    pub roots: Vec<String>,
    /// Whether the standard input is scanned after the paths.
    pub from_stdin: bool,
}

/// The argument that stands for the standard input.
pub open spec fn stdin_marker() -> Seq<char> {
    "--"@
}

/// The path traversed where no argument is given.
pub open spec fn default_root() -> Seq<char> {
    "."@
}

/// The arguments that count: those given, or the default root where none
/// is given.
pub open spec fn effective_arguments(arguments: Seq<Seq<char>>) -> Seq<Seq<char>> {
    if arguments.len() == 0 {
        seq![default_root()]
    } else {
        arguments
    }
}

/// Reads the free arguments of the command line. The arguments before the
/// first marker of the standard input are the paths to traverse; the marker
/// asks for the standard input and ends the list, so that whatever follows
/// it is left aside. Without any argument the current directory is
/// traversed.
pub fn plan_inputs(arguments: &Vec<String>) -> (plan: InputPlan)
    ensures
        plan.roots.len() <= effective_arguments(arguments.deep_view()).len(),
        plan.roots.deep_view() == effective_arguments(arguments.deep_view()).subrange(
            0,
            plan.roots.len() as int,
        ),
        forall|i: int| 0 <= i < plan.roots.len() ==> plan.roots[i]@ != stdin_marker(),
        plan.from_stdin == (plan.roots.len() < effective_arguments(arguments.deep_view()).len()),
        plan.from_stdin ==> effective_arguments(arguments.deep_view())[plan.roots.len() as int]
            == stdin_marker(),
{
    let mut roots: Vec<String> = Vec::new();
    if arguments.len() == 0 {
        roots.push(".".to_owned());
        assert(roots.deep_view() =~= seq![default_root()]);
        proof {
            reveal_strlit(".");
            reveal_strlit("--");
            assert(default_root().len() == 1 && stdin_marker().len() == 2);
        }
        return InputPlan { roots, from_stdin: false };
    }
    let marker = "--".to_owned();
    let ghost all = arguments.deep_view();
    let mut index: usize = 0;
    while index < arguments.len()
        invariant
            index <= arguments.len(),
            all == arguments.deep_view(),
            marker@ == stdin_marker(),
            roots.len() == index,
            roots.deep_view() == all.subrange(0, index as int),
            forall|i: int| 0 <= i < index ==> roots[i]@ != stdin_marker(),
        decreases arguments.len() - index,
    {
        let argument = &arguments[index];
        assert(all[index as int] == argument@);
        if *argument == marker {
            return InputPlan { roots, from_stdin: true };
        }
        let ghost before = roots.deep_view();
        roots.push(argument.clone());
        assert(roots.deep_view() =~= before.push(argument@));
        assert(roots.deep_view() =~= all.subrange(0, index + 1));
        index = index + 1;
    }
    assert(roots.deep_view() =~= all.subrange(0, roots.len() as int));
    InputPlan { roots, from_stdin: false }
}

} // verus!
