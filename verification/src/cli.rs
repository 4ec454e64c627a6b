//! What one invocation asks for: which positions, of what, from which sources.

use crate::position::{all_non_empty, message, parse, parse_pos, Failure, ParseError};
use std::ops::Range;
use vstd::prelude::*;

verus! {

/// The name that stands for standard input among the sources.
pub const STDIN_NAME: &'static str = "-";

/// The delimiter between fields where none is chosen.
pub const DEFAULT_DELIMITER: char = '\t';

/// What is selected, as a mathematical value: one position list, and what its
/// positions count.
pub enum Selection {
    Fields(Seq<Range<usize>>),
    Bytes(Seq<Range<usize>>),
    Chars(Seq<Range<usize>>),
}

impl Selection {
    /// The position list, whatever it counts.
    pub open spec fn ranges(self) -> Seq<Range<usize>> {
        match self {
            Selection::Fields(ranges) => ranges,
            Selection::Bytes(ranges) => ranges,
            Selection::Chars(ranges) => ranges,
        }
    }
}

/// What is selected: one position list, and what its positions count.
#[derive(Debug)]
pub enum ExtractionMode {
    /// Fields of a delimited record.
    Fields(Vec<Range<usize>>),
    /// Bytes of a line.
    Bytes(Vec<Range<usize>>),
    /// Characters of a line.
    Chars(Vec<Range<usize>>),
}

impl View for ExtractionMode {
    type V = Selection;

    open spec fn view(&self) -> Selection {
        match self {
            ExtractionMode::Fields(list) => Selection::Fields(list@),
            ExtractionMode::Bytes(list) => Selection::Bytes(list@),
            ExtractionMode::Chars(list) => Selection::Chars(list@),
        }
    }
}

impl ExtractionMode {
    /// The position list, whatever it counts.
    pub fn positions(&self) -> (list: &Vec<Range<usize>>)
        ensures
            list@ == self@.ranges(),
    {
        match self {
            ExtractionMode::Fields(list) => list,
            ExtractionMode::Bytes(list) => list,
            ExtractionMode::Chars(list) => list,
        }
    }
}

/// Why the arguments of an invocation were refused, as a mathematical value.
pub enum ArgsFailure {
    MissingMode,
    ConflictingModes,
    Position(Failure),
}

/// Why the arguments of an invocation were refused.
#[derive(Debug, PartialEq, Eq)]
pub enum ArgsError {
    /// Neither fields, bytes nor characters were selected.
    MissingMode,
    /// More than one of fields, bytes and characters was selected.
    ConflictingModes,
    /// The position list was refused.
    Position(ParseError),
}

impl View for ArgsError {
    type V = ArgsFailure;

    open spec fn view(&self) -> ArgsFailure {
        match self {
            ArgsError::MissingMode => ArgsFailure::MissingMode,
            ArgsError::ConflictingModes => ArgsFailure::ConflictingModes,
            ArgsError::Position(error) => ArgsFailure::Position(error@),
        }
    }
}

/// What is reported for refused arguments.
pub open spec fn args_message(failure: ArgsFailure) -> Seq<char> {
    match failure {
        ArgsFailure::MissingMode => "one of fields, bytes or characters must be selected"@,
        ArgsFailure::ConflictingModes =>
            "only one of fields, bytes or characters can be selected"@,
        ArgsFailure::Position(failure) => message(failure),
    }
}

impl ArgsError {
    /// The report for this error, as it is shown to the user.
    pub fn to_string(&self) -> (res: String)
        ensures
            res@ == args_message(self@),
    {
        match self {
            ArgsError::MissingMode => String::from_str(
                "one of fields, bytes or characters must be selected",
            ),
            ArgsError::ConflictingModes => String::from_str(
                "only one of fields, bytes or characters can be selected",
            ),
            ArgsError::Position(error) => error.to_string(),
        }
    }
}

/// The arguments of one invocation, as a mathematical value.
pub struct Invocation {
    /// What is selected.
    pub extract: Selection,
    /// The names of the sources, in the order in which they are read.
    pub files: Seq<Seq<char>>,
    /// The delimiter between fields.
    pub delimiter: char,
}

impl Invocation {
    /// None of the selected ranges is empty.
    pub open spec fn valid(self) -> bool {
        all_non_empty(self.extract.ranges())
    }
}

/// The arguments of one invocation, accepted: what to select, the sources to
/// read in their order, and the delimiter between fields. The position list
/// came out of the parser, so none of its ranges is empty.
#[derive(Debug)]
pub struct Cli {
    extract: ExtractionMode,
    files: Vec<String>,
    delimiter: char,
}

impl View for Cli {
    type V = Invocation;

    closed spec fn view(&self) -> Invocation {
        Invocation {
            extract: self.extract@,
            files: self.files.deep_view(),
            delimiter: self.delimiter,
        }
    }
}

impl Cli {
    /// Holds of every `Cli`: it is valid.
    #[verifier::type_invariant]
    pub open spec fn well_formed(&self) -> bool {
        self@.valid()
    }

    /// What is selected.
    pub fn extract(&self) -> (mode: &ExtractionMode)
        ensures
            mode@ == self@.extract,
            self@.valid(),
    {
        proof {
            use_type_invariant(self);
        }
        &self.extract
    }

    /// The names of the sources, in the order in which they are read.
    pub fn files(&self) -> (names: &Vec<String>)
        ensures
            names.deep_view() == self@.files,
    {
        &self.files
    }

    /// The delimiter between fields.
    pub fn delimiter(&self) -> (delimiter: char)
        ensures
            delimiter == self@.delimiter,
    {
        self.delimiter
    }
}

/// The text of each list that was given.
pub open spec fn given(list: Option<&str>) -> Option<Seq<char>> {
    match list {
        Some(text) => Some(text@),
        None => None,
    }
}

/// What the three optional lists select: exactly one of them must be given,
/// and it must parse.
pub open spec fn selected(
    fields: Option<Seq<char>>,
    bytes: Option<Seq<char>>,
    chars: Option<Seq<char>>,
) -> Result<Selection, ArgsFailure> {
    match (fields, bytes, chars) {
        (None, None, None) => Err(ArgsFailure::MissingMode),
        (Some(text), None, None) => match parse(text) {
            Ok(ranges) => Ok(Selection::Fields(ranges)),
            Err(failure) => Err(ArgsFailure::Position(failure)),
        },
        (None, Some(text), None) => match parse(text) {
            Ok(ranges) => Ok(Selection::Bytes(ranges)),
            Err(failure) => Err(ArgsFailure::Position(failure)),
        },
        (None, None, Some(text)) => match parse(text) {
            Ok(ranges) => Ok(Selection::Chars(ranges)),
            Err(failure) => Err(ArgsFailure::Position(failure)),
        },
        _ => Err(ArgsFailure::ConflictingModes),
    }
}

/// Accepts the arguments of an invocation, or says why not.
///
/// `fields`, `bytes` and `chars` are the position lists as they were written,
/// each present only if it was given. Exactly one of them must be, and it must
/// be a position list; nothing else is looked at before that one has been
/// parsed. `files` and `delimiter` are taken as they are.
pub fn get_args(
    fields: Option<&str>,
    bytes: Option<&str>,
    chars: Option<&str>,
    files: Vec<String>,
    delimiter: char,
) -> (res: Result<Cli, ArgsError>)
    ensures
        match selected(given(fields), given(bytes), given(chars)) {
            Ok(extract) => res matches Ok(cli) && cli@ == (Invocation {
                extract,
                files: files.deep_view(),
                delimiter,
            }) && cli@.valid(),
            Err(failure) => res matches Err(error) && error@ == failure,
        },
{
    let extract = match (fields, bytes, chars) {
        (None, None, None) => {
            return Err(ArgsError::MissingMode);
        },
        (Some(text), None, None) => match parse_pos(text) {
            Ok(list) => ExtractionMode::Fields(list),
            Err(error) => {
                return Err(ArgsError::Position(error));
            },
        },
        (None, Some(text), None) => match parse_pos(text) {
            Ok(list) => ExtractionMode::Bytes(list),
            Err(error) => {
                return Err(ArgsError::Position(error));
            },
        },
        (None, None, Some(text)) => match parse_pos(text) {
            Ok(list) => ExtractionMode::Chars(list),
            Err(error) => {
                return Err(ArgsError::Position(error));
            },
        },
        _ => {
            return Err(ArgsError::ConflictingModes);
        },
    };
    Ok(Cli { extract, files, delimiter })
}

} // verus!
