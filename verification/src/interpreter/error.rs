//! The errors of the interpreter.

use vstd::prelude::*;
use crate::strings::{decimal_text, decimal_string};

verus! {

/// An error of the interpreter.
#[derive(Debug, Clone)]
pub enum InterpreterError {
    /// The document could not be parsed.
    HtmlParseError(String),
    /// The selector could not be parsed.
    ParserError(String),
    /// Nodes could not be selected.
    NodeSelectionError(String),
    /// Text could not be extracted.
    TextExtractionError(String),
    /// An attribute could not be extracted.
    AttributeExtractionError(String),
    /// An index lies outside the result: the index, and the length of the result.
    IndexOutOfBounds(i128, usize),
    /// A step that a range cannot take.
    InvalidStep(i64),
    /// A regular expression that does not compile.
    InvalidRegex(String),
    /// A function that does not exist.
    UnknownFunction(String),
    /// A function was given too few or too many arguments.
    MissingArgument(String),
    /// A function or an index was given an argument of the wrong kind.
    InvalidArgument(String),
    /// Another error of execution.
    ExecutionError(String),
    /// More results than the limit allows.
    ResultLimitExceeded(usize),
}

/// The mathematical value of an [`InterpreterError`].
pub enum SpecInterpreterError {
    HtmlParseError(Seq<char>),
    ParserError(Seq<char>),
    NodeSelectionError(Seq<char>),
    TextExtractionError(Seq<char>),
    AttributeExtractionError(Seq<char>),
    IndexOutOfBounds(int, usize),
    InvalidStep(i64),
    InvalidRegex(Seq<char>),
    UnknownFunction(Seq<char>),
    MissingArgument(Seq<char>),
    InvalidArgument(Seq<char>),
    ExecutionError(Seq<char>),
    ResultLimitExceeded(usize),
}

impl View for InterpreterError {
    type V = SpecInterpreterError;

    open spec fn view(&self) -> SpecInterpreterError {
        match self {
            InterpreterError::HtmlParseError(m) => SpecInterpreterError::HtmlParseError(m@),
            InterpreterError::ParserError(m) => SpecInterpreterError::ParserError(m@),
            InterpreterError::NodeSelectionError(m) => SpecInterpreterError::NodeSelectionError(m@),
            InterpreterError::TextExtractionError(m) => SpecInterpreterError::TextExtractionError(
                m@,
            ),
            InterpreterError::AttributeExtractionError(m) =>
                SpecInterpreterError::AttributeExtractionError(m@),
            InterpreterError::IndexOutOfBounds(i, n) => SpecInterpreterError::IndexOutOfBounds(
                *i as int,
                *n,
            ),
            InterpreterError::InvalidStep(s) => SpecInterpreterError::InvalidStep(*s),
            InterpreterError::InvalidRegex(m) => SpecInterpreterError::InvalidRegex(m@),
            InterpreterError::UnknownFunction(m) => SpecInterpreterError::UnknownFunction(m@),
            InterpreterError::MissingArgument(m) => SpecInterpreterError::MissingArgument(m@),
            InterpreterError::InvalidArgument(m) => SpecInterpreterError::InvalidArgument(m@),
            InterpreterError::ExecutionError(m) => SpecInterpreterError::ExecutionError(m@),
            InterpreterError::ResultLimitExceeded(n) => SpecInterpreterError::ResultLimitExceeded(
                *n,
            ),
        }
    }
}

/// The result of a step of the interpreter.
pub type InterpreterResult<T> = Result<T, InterpreterError>;

/// What an error says of the indices of a result of `len` items: that
/// there are none, or from which to which they go.
pub open spec fn index_range_text(len: usize) -> Seq<char> {
    if len == 0 {
        " is out of range: the result is empty"@
    } else {
        " is out of range 0-"@ + decimal_text(len - 1)
    }
}

/// An error as one text: what kind of error it is, then what it says.
pub open spec fn interpreter_error_text(e: SpecInterpreterError) -> Seq<char> {
    match e {
        SpecInterpreterError::HtmlParseError(m) => "HTML parsing error: "@ + m,
        SpecInterpreterError::ParserError(m) => "Syntax parsing error: "@ + m,
        SpecInterpreterError::NodeSelectionError(m) => "Node selection error: "@ + m,
        SpecInterpreterError::TextExtractionError(m) => "Text extraction error: "@ + m,
        SpecInterpreterError::AttributeExtractionError(m) => "Attribute extraction error: "@ + m,
        SpecInterpreterError::IndexOutOfBounds(i, n) => "Index out of bounds: index "@
            + decimal_text(i) + index_range_text(n),
        SpecInterpreterError::InvalidStep(s) => "Invalid step: step cannot be "@ + decimal_text(
            s as int,
        ),
        SpecInterpreterError::InvalidRegex(m) => "Invalid regular expression: "@ + m,
        SpecInterpreterError::UnknownFunction(m) => "Unknown function: "@ + m,
        SpecInterpreterError::MissingArgument(m) => "Missing argument: "@ + m,
        SpecInterpreterError::InvalidArgument(m) => "Invalid argument: "@ + m,
        SpecInterpreterError::ExecutionError(m) => "Execution error: "@ + m,
        SpecInterpreterError::ResultLimitExceeded(n) => "Result limit exceeded: more than "@
            + decimal_text(n as int) + " results"@,
    }
}

/// `head` followed by `tail`.
fn prefixed(head: &str, tail: &str) -> (s: String)
    ensures
        s@ == head@ + tail@,
{
    let mut s = String::from_str(head);
    s.append(tail);
    s
}

impl InterpreterError {
    /// An error of node selection.
    pub fn node_selection_error(message: &str) -> (e: InterpreterError)
        ensures
            e@ == SpecInterpreterError::NodeSelectionError(message@),
    {
        InterpreterError::NodeSelectionError(String::from_str(message))
    }

    /// An error of the HTML parser.
    pub fn html_parse_error(message: &str) -> (e: InterpreterError)
        ensures
            e@ == SpecInterpreterError::HtmlParseError(message@),
    {
        InterpreterError::HtmlParseError(String::from_str(message))
    }

    /// An error of text extraction.
    pub fn text_extraction_error(message: &str) -> (e: InterpreterError)
        ensures
            e@ == SpecInterpreterError::TextExtractionError(message@),
    {
        InterpreterError::TextExtractionError(String::from_str(message))
    }

    /// An error of attribute extraction.
    pub fn attribute_extraction_error(message: &str) -> (e: InterpreterError)
        ensures
            e@ == SpecInterpreterError::AttributeExtractionError(message@),
    {
        InterpreterError::AttributeExtractionError(String::from_str(message))
    }

    /// An error of execution.
    pub fn execution_error(message: &str) -> (e: InterpreterError)
        ensures
            e@ == SpecInterpreterError::ExecutionError(message@),
    {
        InterpreterError::ExecutionError(String::from_str(message))
    }

    /// The error for a function that does not exist.
    pub fn unknown_function(name: &str) -> (e: InterpreterError)
        ensures
            e@ == SpecInterpreterError::UnknownFunction(name@),
    {
        InterpreterError::UnknownFunction(String::from_str(name))
    }

    /// The error for a missing argument.
    pub fn missing_argument(message: &str) -> (e: InterpreterError)
        ensures
            e@ == SpecInterpreterError::MissingArgument(message@),
    {
        InterpreterError::MissingArgument(String::from_str(message))
    }

    /// The error for an argument of the wrong kind.
    pub fn invalid_argument(message: &str) -> (e: InterpreterError)
        ensures
            e@ == SpecInterpreterError::InvalidArgument(message@),
    {
        InterpreterError::InvalidArgument(String::from_str(message))
    }

    /// The error as one text: what kind of error it is, then what it says.
    pub fn to_text(&self) -> (s: String)
        ensures
            s@ == interpreter_error_text(self@),
    {
        match self {
            InterpreterError::HtmlParseError(m) => prefixed("HTML parsing error: ", m.as_str()),
            InterpreterError::ParserError(m) => prefixed("Syntax parsing error: ", m.as_str()),
            InterpreterError::NodeSelectionError(m) => prefixed(
                "Node selection error: ",
                m.as_str(),
            ),
            InterpreterError::TextExtractionError(m) => prefixed(
                "Text extraction error: ",
                m.as_str(),
            ),
            InterpreterError::AttributeExtractionError(m) => prefixed(
                "Attribute extraction error: ",
                m.as_str(),
            ),
            InterpreterError::IndexOutOfBounds(i, n) => {
                let index = decimal_string(*i);
                let mut s = prefixed("Index out of bounds: index ", index.as_str());
                if *n == 0 {
                    s.append(" is out of range: the result is empty");
                } else {
                    s.append(" is out of range 0-");
                    let bound = decimal_string((*n - 1) as i128);
                    s.append(bound.as_str());
                }
                s
            },
            InterpreterError::InvalidStep(step) => {
                let text = decimal_string(*step as i128);
                prefixed("Invalid step: step cannot be ", text.as_str())
            },
            InterpreterError::InvalidRegex(m) => prefixed(
                "Invalid regular expression: ",
                m.as_str(),
            ),
            InterpreterError::UnknownFunction(m) => prefixed("Unknown function: ", m.as_str()),
            InterpreterError::MissingArgument(m) => prefixed("Missing argument: ", m.as_str()),
            InterpreterError::InvalidArgument(m) => prefixed("Invalid argument: ", m.as_str()),
            InterpreterError::ExecutionError(m) => prefixed("Execution error: ", m.as_str()),
            InterpreterError::ResultLimitExceeded(n) => {
                let text = decimal_string(*n as i128);
                let mut s = prefixed("Result limit exceeded: more than ", text.as_str());
                s.append(" results");
                s
            },
        }
    }
}

} // verus!
