//! The errors of the parser and of the validator.

use vstd::prelude::*;
use crate::strings::{decimal_text, decimal_string};

verus! {

/// The kinds of parse error.
#[derive(Debug, Clone, Copy, PartialEq, Eq, Structural)]
pub enum ParseErrorKind {
    /// A token other than the expected one was found.
    UnexpectedToken,
    /// A selector was given a value that it cannot take.
    InvalidSelectorValue,
    /// The expression is nested deeper than the parser goes.
    NestingTooDeep,
    /// Another syntax error.
    SyntaxError,
    /// A path holds more than one text selector.
    MultipleTextSelectors,
    /// An element selector follows a text selector on its path.
    ElementAfterTextSelector,
}

/// A parse error: its kind, a message, the place, and a hint at the remedy.
#[derive(Debug, Clone)]
pub struct ParseError {
    pub kind: ParseErrorKind,
    pub message: String,
    pub line: usize,
    pub column: usize,
    pub recovery_hint: Option<String>,
}

/// The mathematical value of a [`ParseError`].
pub struct SpecParseError {
    pub kind: ParseErrorKind,
    pub message: Seq<char>,
    pub line: nat,
    pub column: nat,
    pub recovery_hint: Option<Seq<char>>,
}

impl View for ParseError {
    type V = SpecParseError;

    open spec fn view(&self) -> SpecParseError {
        SpecParseError {
            kind: self.kind,
            message: self.message@,
            line: self.line as nat,
            column: self.column as nat,
            recovery_hint: match self.recovery_hint {
                Some(hint) => Some(hint@),
                None => None,
            },
        }
    }
}

/// The name of a kind of error, as it stands in a rendered error.
pub open spec fn kind_text(kind: ParseErrorKind) -> Seq<char> {
    match kind {
        ParseErrorKind::UnexpectedToken => "Unexpected token"@,
        ParseErrorKind::InvalidSelectorValue => "Invalid selector value"@,
        ParseErrorKind::NestingTooDeep => "Nesting level too deep"@,
        ParseErrorKind::SyntaxError => "Syntax error"@,
        ParseErrorKind::MultipleTextSelectors => "Multiple text query directives"@,
        ParseErrorKind::ElementAfterTextSelector => "Element query after text query"@,
    }
}

/// The error for a token other than the expected one.
pub open spec fn unexpected_token_error(
    expected: Seq<char>,
    found: Seq<char>,
    line: nat,
    column: nat,
) -> SpecParseError {
    SpecParseError {
        kind: ParseErrorKind::UnexpectedToken,
        message: "Expected "@ + expected + " but found "@ + found,
        line,
        column,
        recovery_hint: Some("Please check if "@ + expected + " is missing here"@),
    }
}

/// The error for another fault of syntax.
pub open spec fn syntax_error(message: Seq<char>, line: nat, column: nat) -> SpecParseError {
    SpecParseError {
        kind: ParseErrorKind::SyntaxError,
        message,
        line,
        column,
        recovery_hint: None,
    }
}

/// The error for a selector value that cannot be taken.
pub open spec fn invalid_selector_value_error(value: Seq<char>, line: nat, column: nat)
    -> SpecParseError {
    SpecParseError {
        kind: ParseErrorKind::InvalidSelectorValue,
        message: "Invalid selector value: "@ + value,
        line,
        column,
        recovery_hint: Some("Please check if the selector value format is correct"@),
    }
}

/// The error for nesting beyond `max_depth`.
pub open spec fn nesting_too_deep_error(max_depth: nat, line: nat, column: nat) -> SpecParseError {
    SpecParseError {
        kind: ParseErrorKind::NestingTooDeep,
        message: "Expression nesting exceeds maximum depth ("@ + decimal_text(max_depth as int)
            + ")"@,
        line,
        column,
        recovery_hint: Some("Please simplify the expression, reduce nesting levels"@),
    }
}

/// The error for a second text selector on a path.
pub open spec fn multiple_text_selectors_error(line: nat, column: nat) -> SpecParseError {
    SpecParseError {
        kind: ParseErrorKind::MultipleTextSelectors,
        message: "Query operation can only contain one text query directive"@,
        line,
        column,
        recovery_hint: Some(
            "Please remove extra text query directives or separate them with set operations (+, *, -)"@,
        ),
    }
}

/// The error for an element selector after a text selector.
pub open spec fn element_after_text_selector_error(line: nat, column: nat) -> SpecParseError {
    SpecParseError {
        kind: ParseErrorKind::ElementAfterTextSelector,
        message: "Element query directives cannot appear after text query directives"@,
        line,
        column,
        recovery_hint: Some(
            "Please place element query directives before text query directives"@,
        ),
    }
}

/// A parse error as one text: place, kind and message, then the hint, if any, on a line of its own.
pub open spec fn parse_error_text(e: SpecParseError) -> Seq<char> {
    let head = "Parse error (line "@ + decimal_text(e.line as int) + ", column "@ + decimal_text(
        e.column as int,
    ) + "): "@ + kind_text(e.kind) + " - "@ + e.message;
    match e.recovery_hint {
        Some(hint) => head + "\nHint: "@ + hint,
        None => head,
    }
}

impl ParseErrorKind {
    /// The name of the kind.
    pub fn to_text(&self) -> (s: String)
        ensures
            s@ == kind_text(*self),
    {
        match self {
            ParseErrorKind::UnexpectedToken => String::from_str("Unexpected token"),
            ParseErrorKind::InvalidSelectorValue => String::from_str("Invalid selector value"),
            ParseErrorKind::NestingTooDeep => String::from_str("Nesting level too deep"),
            ParseErrorKind::SyntaxError => String::from_str("Syntax error"),
            ParseErrorKind::MultipleTextSelectors => String::from_str(
                "Multiple text query directives",
            ),
            ParseErrorKind::ElementAfterTextSelector => String::from_str(
                "Element query after text query",
            ),
        }
    }
}

impl ParseError {
    /// An error made of the given parts.
    pub fn new(
        kind: ParseErrorKind,
        message: String,
        line: usize,
        column: usize,
        recovery_hint: Option<String>,
    ) -> (e: ParseError)
        ensures
            e.kind == kind,
            e.message == message,
            e.line == line,
            e.column == column,
            e.recovery_hint == recovery_hint,
    {
        ParseError { kind, message, line, column, recovery_hint }
    }

    /// The error for a token other than the expected one.
    pub fn unexpected_token(expected: &str, found: &str, line: usize, column: usize) -> (e:
        ParseError)
        ensures
            e@ == unexpected_token_error(expected@, found@, line as nat, column as nat),
    {
        let mut message = String::from_str("Expected ");
        message.append(expected);
        message.append(" but found ");
        message.append(found);
        let mut hint = String::from_str("Please check if ");
        hint.append(expected);
        hint.append(" is missing here");
        ParseError {
            kind: ParseErrorKind::UnexpectedToken,
            message,
            line,
            column,
            recovery_hint: Some(hint),
        }
    }

    /// The error for another fault of syntax.
    pub fn syntax_error(msg: &str, line: usize, column: usize) -> (e: ParseError)
        ensures
            e@ == syntax_error(msg@, line as nat, column as nat),
    {
        ParseError {
            kind: ParseErrorKind::SyntaxError,
            message: String::from_str(msg),
            line,
            column,
            recovery_hint: None,
        }
    }

    /// The error for a selector value that cannot be taken.
    pub fn invalid_selector_value(value: &str, line: usize, column: usize) -> (e: ParseError)
        ensures
            e@ == invalid_selector_value_error(value@, line as nat, column as nat),
    {
        let mut message = String::from_str("Invalid selector value: ");
        message.append(value);
        ParseError {
            kind: ParseErrorKind::InvalidSelectorValue,
            message,
            line,
            column,
            recovery_hint: Some(
                String::from_str("Please check if the selector value format is correct"),
            ),
        }
    }

    /// The error for nesting beyond `max_depth`.
    pub fn nesting_too_deep(max_depth: usize, line: usize, column: usize) -> (e: ParseError)
        ensures
            e@ == nesting_too_deep_error(max_depth as nat, line as nat, column as nat),
    {
        let mut message = String::from_str("Expression nesting exceeds maximum depth (");
        let depth = decimal_string(max_depth as i128);
        message.append(depth.as_str());
        message.append(")");
        ParseError {
            kind: ParseErrorKind::NestingTooDeep,
            message,
            line,
            column,
            recovery_hint: Some(
                String::from_str("Please simplify the expression, reduce nesting levels"),
            ),
        }
    }

    /// The error for a second text selector on a path.
    pub fn multiple_text_selectors(line: usize, column: usize) -> (e: ParseError)
        ensures
            e@ == multiple_text_selectors_error(line as nat, column as nat),
    {
        ParseError {
            kind: ParseErrorKind::MultipleTextSelectors,
            message: String::from_str("Query operation can only contain one text query directive"),
            line,
            column,
            recovery_hint: Some(
                String::from_str(
                    "Please remove extra text query directives or separate them with set operations (+, *, -)",
                ),
            ),
        }
    }

    /// The error for an element selector after a text selector.
    pub fn element_after_text_selector(line: usize, column: usize) -> (e: ParseError)
        ensures
            e@ == element_after_text_selector_error(line as nat, column as nat),
    {
        ParseError {
            kind: ParseErrorKind::ElementAfterTextSelector,
            message: String::from_str(
                "Element query directives cannot appear after text query directives",
            ),
            line,
            column,
            recovery_hint: Some(
                String::from_str(
                    "Please place element query directives before text query directives",
                ),
            ),
        }
    }

    /// The error as one text: place, kind and message, then the hint, if
    /// any, on a line of its own.
    pub fn to_text(&self) -> (s: String)
        ensures
            s@ == parse_error_text(self@),
    {
        let mut s = String::from_str("Parse error (line ");
        let line = decimal_string(self.line as i128);
        s.append(line.as_str());
        s.append(", column ");
        let column = decimal_string(self.column as i128);
        s.append(column.as_str());
        s.append("): ");
        let kind = self.kind.to_text();
        s.append(kind.as_str());
        s.append(" - ");
        s.append(self.message.as_str());
        match &self.recovery_hint {
            Some(hint) => {
                s.append("\nHint: ");
                s.append(hint.as_str());
            },
            None => {},
        }
        s
    }
}

} // verus!
