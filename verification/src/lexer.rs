//! The lexer: selector text to a stream of tokens, each with the line and
//! column at which the lexer stood when it set out to read it.

use vstd::prelude::*;
use crate::strings::{
    char_is_whitespace, char_is_alphabetic, char_is_alphanumeric, is_ascii_digit,
    is_ascii_alphabetic, is_ascii_hexdigit, hex_digit_value, char_is_ascii_digit,
    char_is_ascii_alphabetic, char_is_ascii_hexdigit, char_hex_value, string_of_range, str_eq,
    chars_of, decimal_text, decimal_string, digits_value,
};

verus! {

/// A token of the selector language.
#[derive(Debug, PartialEq)]
pub enum Token {
    /// `>`
    Pipeline,
    /// `class`
    Class,
    /// `id`
    Id,
    /// `tag`
    Tag,
    /// `attr`
    Attr,
    /// `text`
    Text,
    /// `src`
    Src,
    /// `href`
    Href,
    /// `#`, which introduces the name of an attribute whose value is wanted
    Pound,
    /// `@name`
    Function(String),
    /// `,`
    Comma,
    /// `:`
    Colon,
    /// A run of decimal digits.
    Number(usize),
    /// A float literal, held as its decimal text.
    Float(String),
    /// `true` or `false` as a literal.
    Bool(bool),
    /// `-`
    Minus,
    /// An unquoted argument.
    Argument(String),
    /// A quoted argument, without its quotes and with its escapes resolved.
    QuotedArgument(String),
    /// `~`
    Regex,
    /// `(`
    LeftParen,
    /// `)`
    RightParen,
    /// `[`
    LeftBracket,
    /// `]`
    RightBracket,
    /// `|`
    Union,
    /// `&`
    Intersection,
    /// `^`
    Difference,
    /// The end of the input.
    EOF,
}

/// The mathematical value of a [`Token`].
pub enum SpecToken {
    Pipeline,
    Class,
    Id,
    Tag,
    Attr,
    Text,
    Src,
    Href,
    Pound,
    Function(Seq<char>),
    Comma,
    Colon,
    Number(usize),
    Float(Seq<char>),
    Bool(bool),
    Minus,
    Argument(Seq<char>),
    QuotedArgument(Seq<char>),
    Regex,
    LeftParen,
    RightParen,
    LeftBracket,
    RightBracket,
    Union,
    Intersection,
    Difference,
    EOF,
}

impl View for Token {
    type V = SpecToken;

    open spec fn view(&self) -> SpecToken {
        match self {
            Token::Pipeline => SpecToken::Pipeline,
            Token::Class => SpecToken::Class,
            Token::Id => SpecToken::Id,
            Token::Tag => SpecToken::Tag,
            Token::Attr => SpecToken::Attr,
            Token::Text => SpecToken::Text,
            Token::Src => SpecToken::Src,
            Token::Href => SpecToken::Href,
            Token::Pound => SpecToken::Pound,
            Token::Function(s) => SpecToken::Function(s@),
            Token::Comma => SpecToken::Comma,
            Token::Colon => SpecToken::Colon,
            Token::Number(n) => SpecToken::Number(*n),
            Token::Float(s) => SpecToken::Float(s@),
            Token::Bool(b) => SpecToken::Bool(*b),
            Token::Minus => SpecToken::Minus,
            Token::Argument(s) => SpecToken::Argument(s@),
            Token::QuotedArgument(s) => SpecToken::QuotedArgument(s@),
            Token::Regex => SpecToken::Regex,
            Token::LeftParen => SpecToken::LeftParen,
            Token::RightParen => SpecToken::RightParen,
            Token::LeftBracket => SpecToken::LeftBracket,
            Token::RightBracket => SpecToken::RightBracket,
            Token::Union => SpecToken::Union,
            Token::Intersection => SpecToken::Intersection,
            Token::Difference => SpecToken::Difference,
            Token::EOF => SpecToken::EOF,
        }
    }
}

impl Clone for Token {
    fn clone(&self) -> (r: Self)
        ensures
            r == *self,
    {
        match self {
            Token::Pipeline => Token::Pipeline,
            Token::Class => Token::Class,
            Token::Id => Token::Id,
            Token::Tag => Token::Tag,
            Token::Attr => Token::Attr,
            Token::Text => Token::Text,
            Token::Src => Token::Src,
            Token::Href => Token::Href,
            Token::Pound => Token::Pound,
            Token::Function(s) => Token::Function(s.clone()),
            Token::Comma => Token::Comma,
            Token::Colon => Token::Colon,
            Token::Number(n) => Token::Number(*n),
            Token::Float(s) => Token::Float(s.clone()),
            Token::Bool(b) => Token::Bool(*b),
            Token::Minus => Token::Minus,
            Token::Argument(s) => Token::Argument(s.clone()),
            Token::QuotedArgument(s) => Token::QuotedArgument(s.clone()),
            Token::Regex => Token::Regex,
            Token::LeftParen => Token::LeftParen,
            Token::RightParen => Token::RightParen,
            Token::LeftBracket => Token::LeftBracket,
            Token::RightBracket => Token::RightBracket,
            Token::Union => Token::Union,
            Token::Intersection => Token::Intersection,
            Token::Difference => Token::Difference,
            Token::EOF => Token::EOF,
        }
    }
}

/// The text of a token, as it stands in a message.
pub open spec fn token_text(token: SpecToken) -> Seq<char> {
    match token {
        SpecToken::Pipeline => ">"@,
        SpecToken::Class => "class"@,
        SpecToken::Id => "id"@,
        SpecToken::Tag => "tag"@,
        SpecToken::Attr => "attr"@,
        SpecToken::Text => "text"@,
        SpecToken::Src => "src"@,
        SpecToken::Href => "href"@,
        SpecToken::Pound => "#"@,
        SpecToken::Function(name) => "@"@ + name,
        SpecToken::Comma => ","@,
        SpecToken::Colon => ":"@,
        SpecToken::Number(n) => decimal_text(n as int),
        SpecToken::Float(text) => text,
        SpecToken::Bool(b) => if b {
            "true"@
        } else {
            "false"@
        },
        SpecToken::Minus => "-"@,
        SpecToken::Argument(text) => text,
        SpecToken::QuotedArgument(text) => "\""@ + text + "\""@,
        SpecToken::Regex => "~"@,
        SpecToken::LeftParen => "("@,
        SpecToken::RightParen => ")"@,
        SpecToken::LeftBracket => "["@,
        SpecToken::RightBracket => "]"@,
        SpecToken::Union => "|"@,
        SpecToken::Intersection => "&"@,
        SpecToken::Difference => "^"@,
        SpecToken::EOF => "EOF"@,
    }
}

impl Token {
    /// The text of the token, as it stands in a message.
    pub fn to_text(&self) -> (s: String)
        ensures
            s@ == token_text(self@),
    {
        match self {
            Token::Pipeline => String::from_str(">"),
            Token::Class => String::from_str("class"),
            Token::Id => String::from_str("id"),
            Token::Tag => String::from_str("tag"),
            Token::Attr => String::from_str("attr"),
            Token::Text => String::from_str("text"),
            Token::Src => String::from_str("src"),
            Token::Href => String::from_str("href"),
            Token::Pound => String::from_str("#"),
            Token::Function(name) => {
                let mut s = String::from_str("@");
                s.append(name.as_str());
                s
            },
            Token::Comma => String::from_str(","),
            Token::Colon => String::from_str(":"),
            Token::Number(n) => decimal_string(*n as i128),
            Token::Float(text) => text.clone(),
            Token::Bool(b) => if *b {
                String::from_str("true")
            } else {
                String::from_str("false")
            },
            Token::Minus => String::from_str("-"),
            Token::Argument(text) => text.clone(),
            Token::QuotedArgument(text) => {
                let mut s = String::from_str("\"");
                s.append(text.as_str());
                s.append("\"");
                s
            },
            Token::Regex => String::from_str("~"),
            Token::LeftParen => String::from_str("("),
            Token::RightParen => String::from_str(")"),
            Token::LeftBracket => String::from_str("["),
            Token::RightBracket => String::from_str("]"),
            Token::Union => String::from_str("|"),
            Token::Intersection => String::from_str("&"),
            Token::Difference => String::from_str("^"),
            Token::EOF => String::from_str("EOF"),
        }
    }
}

/// A lexical error: what went wrong, and where the lexer stood.
#[derive(Debug)]
pub struct LexerError {
    pub message: String,
    pub line: usize,
    pub column: usize,
}

/// The mathematical value of a [`LexerError`].
pub struct SpecLexerError {
    pub message: Seq<char>,
    pub line: nat,
    pub column: nat,
}

impl View for LexerError {
    type V = SpecLexerError;

    open spec fn view(&self) -> SpecLexerError {
        SpecLexerError {
            message: self.message@,
            line: self.line as nat,
            column: self.column as nat,
        }
    }
}

/// Where a lexer stands in its input: the index of the current character, and
/// the line and column it counts there.
pub struct Cursor {
    pub pos: nat,
    pub line: nat,
    pub column: nat,
}

/// What reading one token gives: the token or an error, and where the lexer
/// stands afterwards.
pub struct Scan {
    pub result: Result<SpecToken, SpecLexerError>,
    pub next: Cursor,
}

/// The view of what `next_token` returns.
pub open spec fn token_result_view(r: Result<Token, LexerError>) -> Result<
    SpecToken,
    SpecLexerError,
> {
    match r {
        Ok(t) => Ok(t@),
        Err(e) => Err(e@),
    }
}

/// The view of a token stream.
pub open spec fn tokens_view(tokens: Seq<(Token, usize, usize)>) -> Seq<(SpecToken, nat, nat)> {
    Seq::new(tokens.len(), |i: int| (tokens[i].0@, tokens[i].1 as nat, tokens[i].2 as nat))
}

/// Where a lexer stands once it has taken up the first character: a line feed
/// in first place already counts as a line.
pub open spec fn start_cursor(chars: Seq<char>) -> Cursor {
    if chars.len() > 0 && chars[0] == '\n' {
        Cursor { pos: 0, line: 2, column: 0 }
    } else {
        Cursor { pos: 0, line: 1, column: 1 }
    }
}

/// The cursor after moving on by one character. Line and column follow the
/// character moved onto: a line feed starts a line, anything else (the end of
/// the input too) is one more column.
pub open spec fn step(chars: Seq<char>, cur: Cursor) -> Cursor {
    let pos = cur.pos + 1;
    if pos < chars.len() && chars[pos as int] == '\n' {
        Cursor { pos, line: cur.line + 1, column: 0 }
    } else {
        Cursor { pos, line: cur.line, column: cur.column + 1 }
    }
}

/// The cursor after moving on past every character for which `keep` holds.
pub open spec fn skip_while(chars: Seq<char>, cur: Cursor, keep: spec_fn(char) -> bool) -> Cursor
    decreases chars.len() - cur.pos,
{
    if cur.pos < chars.len() && keep(chars[cur.pos as int]) {
        skip_while(chars, step(chars, cur), keep)
    } else {
        cur
    }
}

pub open spec fn whitespace_pred() -> spec_fn(char) -> bool {
    |c: char| char_is_whitespace(c)
}

pub open spec fn digit_pred() -> spec_fn(char) -> bool {
    |c: char| is_ascii_digit(c)
}

pub open spec fn function_name_pred() -> spec_fn(char) -> bool {
    |c: char| is_function_name_part(c)
}

pub open spec fn argument_pred() -> spec_fn(char) -> bool {
    |c: char| !ends_argument(c)
}

pub open spec fn skipped_pred() -> spec_fn(char) -> bool {
    |c: char| !is_sync_point(c)
}

/// Whether `c` lies in one of the blocks of CJK ideographs, kana, Hangul,
/// emoji and symbols that may stand in an identifier.
pub open spec fn is_unicode_identifier_part(c: char) -> bool {
    ('\u{4E00}' <= c <= '\u{9FFF}') || ('\u{3040}' <= c <= '\u{309F}') || ('\u{30A0}' <= c
        <= '\u{30FF}') || ('\u{AC00}' <= c <= '\u{D7AF}') || ('\u{1F600}' <= c <= '\u{1F64F}') || (
    '\u{1F300}' <= c <= '\u{1F5FF}') || ('\u{1F680}' <= c <= '\u{1F6FF}') || ('\u{2600}' <= c
        <= '\u{26FF}')
}

/// Whether an identifier may start with `c`.
pub open spec fn is_identifier_start(c: char) -> bool {
    char_is_alphabetic(c) || c == '_' || is_unicode_identifier_part(c)
}

/// Whether an identifier may go on with `c`.
pub open spec fn is_identifier_part(c: char) -> bool {
    char_is_alphanumeric(c) || c == '_' || is_unicode_identifier_part(c)
}

/// Whether a function name may start with `c`.
pub open spec fn is_function_name_start(c: char) -> bool {
    is_ascii_alphabetic(c)
}

/// Whether a function name may go on with `c`.
pub open spec fn is_function_name_part(c: char) -> bool {
    is_ascii_alphabetic(c) || is_ascii_digit(c) || c == '_'
}

/// Whether `c` ends an unquoted argument.
pub open spec fn ends_argument(c: char) -> bool {
    char_is_whitespace(c) || c == '>' || c == ',' || c == '"' || c == '@' || c == ':'
}

/// Whether the lexer takes up reading again at `c` after an error: at
/// whitespace, at a structural character, at the start of a quoted string or
/// of a function name, and at a character that may start an identifier.
pub open spec fn is_sync_point(c: char) -> bool {
    char_is_whitespace(c) || c == '>' || c == ',' || c == ':' || c == '(' || c == ')' || c == '['
        || c == ']' || c == '"' || c == '@' || is_identifier_start(c)
}

/// The number that a run of hexadecimal digits denotes.
pub open spec fn hex_value(s: Seq<char>) -> nat
    decreases s.len(),
{
    if s.len() == 0 {
        0
    } else {
        (hex_value(s.drop_last()) * 16 + hex_digit_value(s.last())) as nat
    }
}

/// Whether `v` is a Unicode scalar value.
pub open spec fn is_scalar_value(v: nat) -> bool {
    v <= 0xD7FF || (0xE000 <= v <= 0x10FFFF)
}

/// The token for an unquoted word: its keyword, or the word as an argument.
pub open spec fn word_token(word: Seq<char>) -> SpecToken {
    if word == "class"@ {
        SpecToken::Class
    } else if word == "id"@ {
        SpecToken::Id
    } else if word == "tag"@ {
        SpecToken::Tag
    } else if word == "attr"@ {
        SpecToken::Attr
    } else if word == "text"@ {
        SpecToken::Text
    } else if word == "src"@ {
        SpecToken::Src
    } else if word == "href"@ {
        SpecToken::Href
    } else {
        SpecToken::Argument(word)
    }
}

/// An error at the place where `cur` stands.
pub open spec fn error_at(message: Seq<char>, cur: Cursor) -> SpecLexerError {
    SpecLexerError { message, line: cur.line, column: cur.column }
}

/// Reading a number, with `cur` on its first digit: the digits are taken, and
/// they are a token if their value fits a `usize`.
pub open spec fn scan_number(chars: Seq<char>, cur: Cursor) -> Scan {
    let end = skip_while(chars, cur, digit_pred());
    let digits = chars.subrange(cur.pos as int, end.pos as int);
    if digits_value(digits) <= usize::MAX {
        Scan { result: Ok(SpecToken::Number(digits_value(digits) as usize)), next: end }
    } else {
        Scan {
            result: Err(error_at("Unable to resolve the number: "@ + digits, end)),
            next: end,
        }
    }
}

/// Reading a function name, with `cur` on the `@`.
pub open spec fn scan_function(chars: Seq<char>, cur: Cursor) -> Scan {
    let first = step(chars, cur);
    if first.pos >= chars.len() {
        Scan { result: Err(error_at("Function name cannot be empty."@, first)), next: first }
    } else if !is_function_name_start(chars[first.pos as int]) {
        Scan {
            result: Err(error_at("Function names must start with a letter."@, first)),
            next: first,
        }
    } else {
        let end = skip_while(chars, first, function_name_pred());
        Scan {
            result: Ok(SpecToken::Function(chars.subrange(first.pos as int, end.pos as int))),
            next: end,
        }
    }
}

/// Reading an unquoted word, with `cur` on its first character.
pub open spec fn scan_argument(chars: Seq<char>, cur: Cursor) -> Scan {
    let end = skip_while(chars, cur, argument_pred());
    Scan { result: Ok(word_token(chars.subrange(cur.pos as int, end.pos as int))), next: end }
}

/// What an escaped character, other than `u`, stands for.
pub open spec fn unescaped(c: char) -> char {
    if c == 'n' {
        '\n'
    } else if c == 't' {
        '\t'
    } else if c == 'r' {
        '\r'
    } else {
        c
    }
}

/// What reading the digits of a `\u` escape gives: the character or an error,
/// and where the lexer stands afterwards.
pub struct EscapeScan {
    pub result: Result<char, SpecLexerError>,
    pub next: Cursor,
}

/// Reading the hexadecimal digits of a `\u` escape, `left` of them still to
/// come and `digits` read so far, with `cur` on the character before the next
/// digit. Four digits must follow the `u`, and must name a scalar value.
pub open spec fn scan_escape(chars: Seq<char>, cur: Cursor, digits: Seq<char>, left: nat)
    -> EscapeScan
    decreases left,
{
    if left == 0 {
        if is_scalar_value(hex_value(digits)) {
            EscapeScan { result: Ok(hex_value(digits) as char), next: cur }
        } else {
            EscapeScan {
                result: Err(error_at("Invalid Unicode code point: U+"@ + digits, cur)),
                next: cur,
            }
        }
    } else {
        let at = step(chars, cur);
        if at.pos >= chars.len() {
            EscapeScan {
                result: Err(error_at("Unfinished Unicode escape sequence."@, at)),
                next: at,
            }
        } else if is_ascii_hexdigit(chars[at.pos as int]) {
            scan_escape(chars, at, digits.push(chars[at.pos as int]), (left - 1) as nat)
        } else {
            EscapeScan {
                result: Err(error_at("Invalid Unicode escape sequence: \\u"@ + digits, at)),
                next: at,
            }
        }
    }
}

/// Reading the inside of a quoted string, with `value` gathered so far and
/// `escaped` telling whether a backslash has just been read.
pub open spec fn scan_quoted(chars: Seq<char>, cur: Cursor, value: Seq<char>, escaped: bool)
    -> Scan
    decreases chars.len() - cur.pos,
{
    if cur.pos >= chars.len() {
        Scan { result: Err(error_at("Unterminated string."@, cur)), next: cur }
    } else {
        let c = chars[cur.pos as int];
        if escaped {
            if c == 'u' {
                let esc = scan_escape(chars, cur, Seq::empty(), 4);
                match esc.result {
                    Err(e) => Scan { result: Err(e), next: esc.next },
                    Ok(ch) => {
                        if cur.pos <= esc.next.pos < chars.len() {
                            scan_quoted(chars, step(chars, esc.next), value.push(ch), false)
                        } else {
                            Scan { result: Err(error_at(Seq::empty(), cur)), next: cur }
                        }
                    },
                }
            } else {
                scan_quoted(chars, step(chars, cur), value.push(unescaped(c)), false)
            }
        } else if c == '\\' {
            scan_quoted(chars, step(chars, cur), value, true)
        } else if c == '"' {
            Scan { result: Ok(SpecToken::QuotedArgument(value)), next: step(chars, cur) }
        } else {
            scan_quoted(chars, step(chars, cur), value.push(c), false)
        }
    }
}

/// Reading one token from where `cur` stands: whitespace is passed over, then
/// the first character decides what is read.
pub open spec fn scan_token(chars: Seq<char>, cur: Cursor) -> Scan {
    let at = skip_while(chars, cur, whitespace_pred());
    if at.pos >= chars.len() {
        Scan { result: Ok(SpecToken::EOF), next: at }
    } else {
        let c = chars[at.pos as int];
        let after = step(chars, at);
        if c == '>' {
            Scan { result: Ok(SpecToken::Pipeline), next: after }
        } else if c == ',' {
            Scan { result: Ok(SpecToken::Comma), next: after }
        } else if c == ':' {
            Scan { result: Ok(SpecToken::Colon), next: after }
        } else if c == '|' {
            Scan { result: Ok(SpecToken::Union), next: after }
        } else if c == '^' {
            Scan { result: Ok(SpecToken::Difference), next: after }
        } else if c == '&' {
            Scan { result: Ok(SpecToken::Intersection), next: after }
        } else if c == '@' {
            scan_function(chars, at)
        } else if c == '"' {
            scan_quoted(chars, after, Seq::empty(), false)
        } else if c == '~' {
            Scan { result: Ok(SpecToken::Regex), next: after }
        } else if c == '(' {
            Scan { result: Ok(SpecToken::LeftParen), next: after }
        } else if c == ')' {
            Scan { result: Ok(SpecToken::RightParen), next: after }
        } else if c == '[' {
            Scan { result: Ok(SpecToken::LeftBracket), next: after }
        } else if c == ']' {
            Scan { result: Ok(SpecToken::RightBracket), next: after }
        } else if c == '#' {
            Scan { result: Ok(SpecToken::Pound), next: after }
        } else if c == '-' {
            Scan { result: Ok(SpecToken::Minus), next: after }
        } else if is_ascii_digit(c) {
            scan_number(chars, at)
        } else {
            scan_argument(chars, at)
        }
    }
}

/// The token stream of `chars` from where `cur` stands. Each token carries the
/// line and column at which the lexer stood before it passed over the
/// whitespace in front of the token. What gave a lexical error leaves no
/// token: the lexer moves on to the next sync point. The stream ends with the
/// end-of-input token, which occurs nowhere else in it.
pub open spec fn spec_tokenize(chars: Seq<char>, cur: Cursor) -> Seq<(SpecToken, nat, nat)>
    decreases chars.len() - cur.pos,
{
    let scan = scan_token(chars, cur);
    match scan.result {
        Ok(SpecToken::EOF) => seq![(SpecToken::EOF, cur.line, cur.column)],
        Ok(token) => {
            if cur.pos < scan.next.pos <= chars.len() {
                seq![(token, cur.line, cur.column)] + spec_tokenize(chars, scan.next)
            } else {
                seq![(SpecToken::EOF, cur.line, cur.column)]
            }
        },
        Err(_) => {
            let resume = skip_while(chars, scan.next, skipped_pred());
            if cur.pos < resume.pos <= chars.len() {
                spec_tokenize(chars, resume)
            } else {
                seq![(SpecToken::EOF, cur.line, cur.column)]
            }
        },
    }
}

/// Whether a name is one that the lexer takes for the name of a function:
/// an ASCII letter, then ASCII letters, digits and underscores.
pub open spec fn is_function_name(name: Seq<char>) -> bool {
    &&& name.len() > 0
    &&& is_function_name_start(name[0])
    &&& forall|j: int| 0 <= j < name.len() ==> is_function_name_part(#[trigger] name[j])
}

/// Whether a token is one that the lexer makes: it makes no float and no
/// boolean, and a function only with a name that it takes for one.
pub open spec fn lexer_made(token: SpecToken) -> bool {
    match token {
        SpecToken::Float(_) => false,
        SpecToken::Bool(_) => false,
        SpecToken::Function(name) => is_function_name(name),
        _ => true,
    }
}

/// Whether all tokens of a stream are tokens that the lexer makes.
pub open spec fn all_lexer_made(stream: Seq<(SpecToken, nat, nat)>) -> bool {
    forall|i: int| 0 <= i < stream.len() ==> lexer_made((#[trigger] stream[i]).0)
}

/// All characters that `skip_while` passes are characters to be skipped.
pub proof fn lemma_skip_while_passed(chars: Seq<char>, cur: Cursor, keep: spec_fn(char) -> bool)
    requires
        cur.pos <= chars.len(),
    ensures
        forall|j: int|
            cur.pos <= j < skip_while(chars, cur, keep).pos ==> keep(#[trigger] chars[j]),
    decreases chars.len() - cur.pos,
{
    if cur.pos < chars.len() && keep(chars[cur.pos as int]) {
        lemma_skip_while_passed(chars, step(chars, cur), keep);
    }
}

/// Reading the inside of a quoted string gives a quoted argument, or an error.
pub proof fn lemma_scan_quoted_kind(chars: Seq<char>, cur: Cursor, value: Seq<char>, escaped: bool)
    ensures
        scan_quoted(chars, cur, value, escaped).result matches Ok(token) ==> token
            is QuotedArgument,
    decreases chars.len() - cur.pos,
{
    if cur.pos < chars.len() {
        let c = chars[cur.pos as int];
        if escaped {
            if c == 'u' {
                let esc = scan_escape(chars, cur, Seq::empty(), 4);
                match esc.result {
                    Err(e) => {},
                    Ok(ch) => {
                        if cur.pos <= esc.next.pos < chars.len() {
                            lemma_scan_quoted_kind(
                                chars,
                                step(chars, esc.next),
                                value.push(ch),
                                false,
                            );
                        }
                    },
                }
            } else {
                lemma_scan_quoted_kind(chars, step(chars, cur), value.push(unescaped(c)), false);
            }
        } else if c == '\\' {
            lemma_scan_quoted_kind(chars, step(chars, cur), value, true);
        } else if c == '"' {
        } else {
            lemma_scan_quoted_kind(chars, step(chars, cur), value.push(c), false);
        }
    }
}

/// A token that the lexer reads is a token that the lexer makes.
#[verifier::rlimit(60)]
pub proof fn lemma_scan_token_made(chars: Seq<char>, cur: Cursor)
    requires
        cur.pos <= chars.len(),
    ensures
        scan_token(chars, cur).result matches Ok(token) ==> lexer_made(token),
{
    let at = skip_while(chars, cur, whitespace_pred());
    lemma_skip_while_bounds(chars, cur, whitespace_pred());
    if at.pos < chars.len() {
        let c = chars[at.pos as int];
        if c == '@' {
            let first = step(chars, at);
            if first.pos < chars.len() && is_function_name_start(chars[first.pos as int]) {
                let end = skip_while(chars, first, function_name_pred());
                lemma_skip_while_bounds(chars, first, function_name_pred());
                lemma_skip_while_passed(chars, first, function_name_pred());
                let name = chars.subrange(first.pos as int, end.pos as int);
                assert(function_name_pred()(chars[first.pos as int]));
                assert(end.pos > first.pos);
                assert(name[0] == chars[first.pos as int]);
                assert forall|j: int| 0 <= j < name.len() implies is_function_name_part(
                    #[trigger] name[j],
                ) by {
                    assert(function_name_pred()(chars[first.pos + j]));
                }
            }
        } else if c == '"' {
            lemma_scan_quoted_kind(chars, step(chars, at), Seq::empty(), false);
        }
    }
}

/// All tokens of a token stream are tokens that the lexer makes.
#[verifier::rlimit(60)]
pub proof fn lemma_stream_is_lexer_made(chars: Seq<char>, cur: Cursor)
    requires
        cur.pos <= chars.len(),
    ensures
        all_lexer_made(spec_tokenize(chars, cur)),
    decreases chars.len() - cur.pos,
{
    let scan = scan_token(chars, cur);
    lemma_scan_token_advances(chars, cur);
    lemma_scan_token_made(chars, cur);
    let all = spec_tokenize(chars, cur);
    match scan.result {
        Ok(SpecToken::EOF) => {},
        Ok(token) => {
            lemma_stream_is_lexer_made(chars, scan.next);
            let rest = spec_tokenize(chars, scan.next);
            assert(all == seq![(token, cur.line, cur.column)] + rest);
            assert forall|i: int| 0 <= i < all.len() implies lexer_made((#[trigger] all[i]).0) by {
                if i > 0 {
                    assert(all[i] == rest[i - 1]);
                }
            }
        },
        Err(_) => {
            let resume = skip_while(chars, scan.next, skipped_pred());
            lemma_skip_while_bounds(chars, scan.next, skipped_pred());
            lemma_stream_is_lexer_made(chars, resume);
        },
    }
}

/// A token stream ends with the end-of-input token, and holds it nowhere else.
#[verifier::rlimit(60)]
pub proof fn lemma_stream_ends_with_eof(chars: Seq<char>, cur: Cursor)
    requires
        cur.pos <= chars.len(),
    ensures
        spec_tokenize(chars, cur).len() > 0,
        spec_tokenize(chars, cur).last().0 == SpecToken::EOF,
        forall|i: int|
            0 <= i < spec_tokenize(chars, cur).len() - 1 ==> (#[trigger] spec_tokenize(
                chars,
                cur,
            )[i]).0 != SpecToken::EOF,
    decreases chars.len() - cur.pos,
{
    let scan = scan_token(chars, cur);
    lemma_scan_token_advances(chars, cur);
    match scan.result {
        Ok(SpecToken::EOF) => {},
        Ok(token) => {
            lemma_stream_ends_with_eof(chars, scan.next);
            let rest = spec_tokenize(chars, scan.next);
            let all = spec_tokenize(chars, cur);
            assert(all == seq![(token, cur.line, cur.column)] + rest);
            assert(all.last() == rest.last());
            assert forall|i: int| 0 <= i < all.len() - 1 implies (#[trigger] all[i]).0
                != SpecToken::EOF by {
                if i > 0 {
                    assert(all[i] == rest[i - 1]);
                }
            }
        },
        Err(_) => {
            let resume = skip_while(chars, scan.next, skipped_pred());
            lemma_skip_while_bounds(chars, scan.next, skipped_pred());
            lemma_stream_ends_with_eof(chars, resume);
        },
    }
}

/// `skip_while` never moves back, stays within the input, and counts at most
/// one line or column for each character passed.
pub proof fn lemma_skip_while_bounds(chars: Seq<char>, cur: Cursor, keep: spec_fn(char) -> bool)
    requires
        cur.pos <= chars.len(),
    ensures
        cur.pos <= skip_while(chars, cur, keep).pos <= chars.len(),
        skip_while(chars, cur, keep).pos < chars.len() ==> !keep(
            chars[skip_while(chars, cur, keep).pos as int],
        ),
        skip_while(chars, cur, keep).line + skip_while(chars, cur, keep).column - skip_while(
            chars,
            cur,
            keep,
        ).pos <= cur.line + cur.column - cur.pos,
    decreases chars.len() - cur.pos,
{
    if cur.pos < chars.len() && keep(chars[cur.pos as int]) {
        lemma_skip_while_bounds(chars, step(chars, cur), keep);
    }
}

/// Reading the digits of an escape never moves back, and goes at most one
/// character past the end of the input.
pub proof fn lemma_scan_escape_bounds(chars: Seq<char>, cur: Cursor, digits: Seq<char>, left: nat)
    requires
        cur.pos < chars.len(),
    ensures
        cur.pos <= scan_escape(chars, cur, digits, left).next.pos <= chars.len(),
        scan_escape(chars, cur, digits, left).result is Ok ==> scan_escape(
            chars,
            cur,
            digits,
            left,
        ).next.pos < chars.len(),
    decreases left,
{
    if left > 0 {
        let at = step(chars, cur);
        if at.pos < chars.len() && is_ascii_hexdigit(chars[at.pos as int]) {
            lemma_scan_escape_bounds(chars, at, digits.push(chars[at.pos as int]), (left - 1) as nat);
        }
    }
}

/// Reading the inside of a quoted string never moves back and stays within the input.
#[verifier::rlimit(60)]
pub proof fn lemma_scan_quoted_bounds(chars: Seq<char>, cur: Cursor, value: Seq<char>, escaped: bool)
    requires
        cur.pos <= chars.len(),
    ensures
        cur.pos <= scan_quoted(chars, cur, value, escaped).next.pos <= chars.len(),
    decreases chars.len() - cur.pos,
{
    if cur.pos < chars.len() {
        let c = chars[cur.pos as int];
        if escaped {
            if c == 'u' {
                let esc = scan_escape(chars, cur, Seq::empty(), 4);
                lemma_scan_escape_bounds(chars, cur, Seq::empty(), 4);
                match esc.result {
                    Err(e) => {},
                    Ok(ch) => {
                        lemma_scan_quoted_bounds(chars, step(chars, esc.next), value.push(ch), false);
                    },
                }
            } else {
                lemma_scan_quoted_bounds(chars, step(chars, cur), value.push(unescaped(c)), false);
            }
        } else if c == '\\' {
            lemma_scan_quoted_bounds(chars, step(chars, cur), value, true);
        } else if c == '"' {
        } else {
            lemma_scan_quoted_bounds(chars, step(chars, cur), value.push(c), false);
        }
    }
}

/// Reading a token stays within the input, and moves on unless it finds the
/// end of the input.
#[verifier::rlimit(60)]
pub proof fn lemma_scan_token_advances(chars: Seq<char>, cur: Cursor)
    requires
        cur.pos <= chars.len(),
    ensures
        cur.pos <= scan_token(chars, cur).next.pos <= chars.len(),
        scan_token(chars, cur).result != Ok::<SpecToken, SpecLexerError>(SpecToken::EOF)
            ==> scan_token(chars, cur).next.pos > cur.pos,
{
    let at = skip_while(chars, cur, whitespace_pred());
    lemma_skip_while_bounds(chars, cur, whitespace_pred());
    if at.pos < chars.len() {
        let c = chars[at.pos as int];
        let after = step(chars, at);
        if c == '@' {
            let first = step(chars, at);
            if first.pos < chars.len() {
                lemma_skip_while_bounds(chars, first, function_name_pred());
            }
        } else if c == '"' {
            lemma_scan_quoted_bounds(chars, after, Seq::empty(), false);
        } else if is_ascii_digit(c) {
            lemma_skip_while_bounds(chars, step(chars, at), digit_pred());
            assert(digit_pred()(c));
        } else if c == '>' || c == ',' || c == ':' || c == '|' || c == '^' || c == '&' || c == '~'
            || c == '(' || c == ')' || c == '[' || c == ']' || c == '#' || c == '-' {
        } else {
            assert(!whitespace_pred()(c));
            assert(argument_pred()(c));
            lemma_skip_while_bounds(chars, step(chars, at), argument_pred());
        }
    }
}

/// The lexer: the characters of the input and the place reached in them.
pub struct Lexer {
    chars: Vec<char>,
    position: usize,
    current_char: Option<char>,
    line: usize,
    column: usize,
}

/// A lexical error with the given fixed message, at the given place.
fn error_with(message: &str, line: usize, column: usize) -> (e: LexerError)
    ensures
        e@ == (SpecLexerError { message: message@, line: line as nat, column: column as nat }),
{
    LexerError { message: String::from_str(message), line, column }
}

/// A lexical error whose message is `prefix` followed by the characters of `tail`.
fn error_about(prefix: &str, tail: &str, line: usize, column: usize) -> (e: LexerError)
    ensures
        e@ == (SpecLexerError {
            message: prefix@ + tail@,
            line: line as nat,
            column: column as nat,
        }),
{
    let mut message = String::from_str(prefix);
    message.append(tail);
    LexerError { message, line, column }
}

impl Lexer {
    /// The characters that the lexer reads.
    pub closed spec fn chars(&self) -> Seq<char> {
        self.chars@
    }

    /// Where the lexer stands.
    pub closed spec fn cursor(&self) -> Cursor {
        Cursor { pos: self.position as nat, line: self.line as nat, column: self.column as nat }
    }

    /// The lexer stands within its input or at its end, holds the character
    /// it stands on, and its counters have room to grow.
    pub closed spec fn wf(&self) -> bool {
        &&& self.position <= self.chars.len()
        &&& self.chars.len() + 2 <= usize::MAX
        &&& self.line + self.column <= self.position + 2
        &&& self.current_char == if self.position < self.chars.len() {
            Some(self.chars@[self.position as int])
        } else {
            None::<char>
        }
    }

    /// A lexer at the start of `input`.
    pub fn new(input: &str) -> (lexer: Lexer)
        requires
            input@.len() + 2 <= usize::MAX,
        ensures
            lexer.wf(),
            lexer.chars() == input@,
            lexer.cursor() == start_cursor(input@),
    {
        let chars = chars_of(input);
        let current_char = if chars.len() > 0 {
            Some(chars[0])
        } else {
            None
        };
        let newline = match current_char {
            Some(c) => c == '\n',
            None => false,
        };
        if newline {
            Lexer { chars, position: 0, current_char, line: 2, column: 0 }
        } else {
            Lexer { chars, position: 0, current_char, line: 1, column: 1 }
        }
    }

    /// Moves on by one character.
    fn read_char(&mut self)
        requires
            old(self).wf(),
            old(self).position < old(self).chars.len(),
        ensures
            final(self).wf(),
            final(self).chars() == old(self).chars(),
            final(self).cursor() == step(old(self).chars(), old(self).cursor()),
    {
        let next: usize = self.position + 1;
        let mut newline = false;
        if next >= self.chars.len() {
            self.current_char = None;
        } else {
            let c = self.chars[next];
            self.current_char = Some(c);
            newline = c == '\n';
        }
        self.position = next;
        if newline {
            self.line += 1;
            self.column = 0;
        } else {
            self.column += 1;
        }
    }

    /// Passes over whitespace.
    fn skip_whitespace(&mut self)
        requires
            old(self).wf(),
        ensures
            final(self).wf(),
            final(self).chars() == old(self).chars(),
            final(self).cursor() == skip_while(
                old(self).chars(),
                old(self).cursor(),
                whitespace_pred(),
            ),
    {
        let ghost chars = self.chars@;
        let ghost start = self.cursor();
        loop
            invariant_except_break
                self.wf(),
                self.chars@ == chars,
                skip_while(chars, self.cursor(), whitespace_pred()) == skip_while(
                    chars,
                    start,
                    whitespace_pred(),
                ),
            ensures
                self.wf(),
                self.chars@ == chars,
                self.cursor() == skip_while(chars, start, whitespace_pred()),
            decreases self.chars.len() - self.position,
        {
            match self.current_char {
                Some(c) => {
                    if c.is_whitespace() {
                        self.read_char();
                    } else {
                        break ;
                    }
                },
                None => {
                    break ;
                },
            }
        }
    }

    /// Whether a function name may start with `c`.
    fn is_function_name_start(&self, c: char) -> (b: bool)
        ensures
            b == is_function_name_start(c),
    {
        char_is_ascii_alphabetic(c)
    }

    /// Whether a function name may go on with `c`.
    fn is_function_name_part(&self, c: char) -> (b: bool)
        ensures
            b == is_function_name_part(c),
    {
        char_is_ascii_alphabetic(c) || char_is_ascii_digit(c) || c == '_'
    }

    /// Whether an identifier may start with `c`.
    fn is_identifier_start(&self, c: char) -> (b: bool)
        ensures
            b == is_identifier_start(c),
    {
        c.is_alphabetic() || c == '_' || Self::is_unicode_identifier_part(c)
    }

    /// Whether an identifier may go on with `c`.
    pub fn is_identifier_part(&self, c: char) -> (b: bool)
        ensures
            b == is_identifier_part(c),
    {
        c.is_alphanumeric() || c == '_' || Self::is_unicode_identifier_part(c)
    }

    /// Whether `c` lies in one of the non-ASCII blocks that identifiers admit.
    pub fn is_unicode_identifier_part(c: char) -> (b: bool)
        ensures
            b == is_unicode_identifier_part(c),
    {
        (c >= '\u{4E00}' && c <= '\u{9FFF}') || (c >= '\u{3040}' && c <= '\u{309F}') || (c
            >= '\u{30A0}' && c <= '\u{30FF}') || (c >= '\u{AC00}' && c <= '\u{D7AF}') || (c
            >= '\u{1F600}' && c <= '\u{1F64F}') || (c >= '\u{1F300}' && c <= '\u{1F5FF}') || (c
            >= '\u{1F680}' && c <= '\u{1F6FF}') || (c >= '\u{2600}' && c <= '\u{26FF}')
    }

    /// Reads the next token. Whitespace in front of it is passed over; at the
    /// end of the input the end-of-input token is returned, again and again.
    pub fn next_token(&mut self) -> (r: Result<Token, LexerError>)
        requires
            old(self).wf(),
        ensures
            final(self).wf(),
            final(self).chars() == old(self).chars(),
            token_result_view(r) == scan_token(old(self).chars(), old(self).cursor()).result,
            final(self).cursor() == scan_token(old(self).chars(), old(self).cursor()).next,
    {
        self.skip_whitespace();
        let c = match self.current_char {
            Some(c) => c,
            None => {
                return Ok(Token::EOF);
            },
        };
        if c == '>' {
            self.read_char();
            Ok(Token::Pipeline)
        } else if c == ',' {
            self.read_char();
            Ok(Token::Comma)
        } else if c == ':' {
            self.read_char();
            Ok(Token::Colon)
        } else if c == '|' {
            self.read_char();
            Ok(Token::Union)
        } else if c == '^' {
            self.read_char();
            Ok(Token::Difference)
        } else if c == '&' {
            self.read_char();
            Ok(Token::Intersection)
        } else if c == '@' {
            self.read_function()
        } else if c == '"' {
            self.read_quoted_string()
        } else if c == '~' {
            self.read_char();
            Ok(Token::Regex)
        } else if c == '(' {
            self.read_char();
            Ok(Token::LeftParen)
        } else if c == ')' {
            self.read_char();
            Ok(Token::RightParen)
        } else if c == '[' {
            self.read_char();
            Ok(Token::LeftBracket)
        } else if c == ']' {
            self.read_char();
            Ok(Token::RightBracket)
        } else if c == '#' {
            self.read_char();
            Ok(Token::Pound)
        } else if c == '-' {
            self.read_char();
            Ok(Token::Minus)
        } else if char_is_ascii_digit(c) {
            self.read_number()
        } else {
            self.read_argument()
        }
    }

    /// Reads a run of digits as a number.
    #[verifier::rlimit(50)]
    fn read_number(&mut self) -> (r: Result<Token, LexerError>)
        requires
            old(self).wf(),
        ensures
            final(self).wf(),
            final(self).chars() == old(self).chars(),
            token_result_view(r) == scan_number(old(self).chars(), old(self).cursor()).result,
            final(self).cursor() == scan_number(old(self).chars(), old(self).cursor()).next,
    {
        let ghost chars = self.chars@;
        let ghost start = self.cursor();
        let start_position = self.position;
        loop
            invariant_except_break
                self.wf(),
                self.chars@ == chars,
                start_position <= self.position,
                forall|j: int| start_position <= j < self.position ==> is_ascii_digit(chars[j]),
                skip_while(chars, self.cursor(), digit_pred()) == skip_while(
                    chars,
                    start,
                    digit_pred(),
                ),
            ensures
                self.wf(),
                self.chars@ == chars,
                start_position <= self.position,
                forall|j: int| start_position <= j < self.position ==> is_ascii_digit(chars[j]),
                self.cursor() == skip_while(chars, start, digit_pred()),
            decreases self.chars.len() - self.position,
        {
            match self.current_char {
                Some(c) => {
                    if char_is_ascii_digit(c) {
                        self.read_char();
                    } else {
                        break ;
                    }
                },
                None => {
                    break ;
                },
            }
        }
        let end_position = self.position;
        let mut value: usize = 0;
        let mut fits = true;
        let mut i: usize = start_position;
        while i < end_position
            invariant
                start_position <= i <= end_position <= self.chars.len(),
                self.chars@ == chars,
                forall|j: int| start_position <= j < end_position ==> is_ascii_digit(chars[j]),
                fits ==> value == digits_value(chars.subrange(start_position as int, i as int)),
                !fits ==> digits_value(chars.subrange(start_position as int, i as int))
                    > usize::MAX,
            decreases end_position - i,
        {
            let c = self.chars[i];
            let digit: usize = (c as u32 - '0' as u32) as usize;
            proof {
                let upto = chars.subrange(start_position as int, i as int);
                let more = chars.subrange(start_position as int, i + 1);
                assert(more.drop_last() == upto);
                assert(more.last() == c);
            }
            if fits {
                match value.checked_mul(10) {
                    Some(tens) => {
                        match tens.checked_add(digit) {
                            Some(sum) => {
                                value = sum;
                            },
                            None => {
                                fits = false;
                            },
                        }
                    },
                    None => {
                        fits = false;
                    },
                }
            }
            i += 1;
        }
        if fits {
            Ok(Token::Number(value))
        } else {
            let digits = string_of_range(&self.chars, start_position, end_position);
            Err(
                error_about(
                    "Unable to resolve the number: ",
                    digits.as_str(),
                    self.line,
                    self.column,
                ),
            )
        }
    }

    /// Reads the name of a function, with the lexer on the `@`.
    fn read_function(&mut self) -> (r: Result<Token, LexerError>)
        requires
            old(self).wf(),
            old(self).position < old(self).chars.len(),
        ensures
            final(self).wf(),
            final(self).chars() == old(self).chars(),
            token_result_view(r) == scan_function(old(self).chars(), old(self).cursor()).result,
            final(self).cursor() == scan_function(old(self).chars(), old(self).cursor()).next,
    {
        self.read_char();
        let ghost chars = self.chars@;
        let ghost first = self.cursor();
        let start_position = self.position;
        match self.current_char {
            Some(c) => {
                if !self.is_function_name_start(c) {
                    return Err(
                        error_with(
                            "Function names must start with a letter.",
                            self.line,
                            self.column,
                        ),
                    );
                }
            },
            None => {
                return Err(error_with("Function name cannot be empty.", self.line, self.column));
            },
        }
        loop
            invariant_except_break
                self.wf(),
                self.chars@ == chars,
                start_position <= self.position,
                skip_while(chars, self.cursor(), function_name_pred()) == skip_while(
                    chars,
                    first,
                    function_name_pred(),
                ),
            ensures
                self.wf(),
                self.chars@ == chars,
                start_position <= self.position,
                self.cursor() == skip_while(chars, first, function_name_pred()),
            decreases self.chars.len() - self.position,
        {
            match self.current_char {
                Some(c) => {
                    if self.is_function_name_part(c) {
                        self.read_char();
                    } else {
                        break ;
                    }
                },
                None => {
                    break ;
                },
            }
        }
        let name = string_of_range(&self.chars, start_position, self.position);
        Ok(Token::Function(name))
    }

    /// Reads the four digits of a `\u` escape, with the lexer on the `u`.
    fn read_unicode_escape(&mut self) -> (r: Result<char, LexerError>)
        requires
            old(self).wf(),
            old(self).position < old(self).chars.len(),
        ensures
            final(self).wf(),
            final(self).chars() == old(self).chars(),
            final(self).cursor() == scan_escape(
                old(self).chars(),
                old(self).cursor(),
                Seq::empty(),
                4,
            ).next,
            match r {
                Ok(c) => scan_escape(old(self).chars(), old(self).cursor(), Seq::empty(), 4).result
                    == Ok::<char, SpecLexerError>(c),
                Err(e) => scan_escape(
                    old(self).chars(),
                    old(self).cursor(),
                    Seq::empty(),
                    4,
                ).result == Err::<char, SpecLexerError>(e@),
            },
    {
        let ghost chars = self.chars@;
        let ghost start = self.cursor();
        let mut digits: Vec<char> = Vec::new();
        let mut code: u32 = 0;
        let mut count: u32 = 0;
        while count < 4
            invariant
                self.wf(),
                self.chars@ == chars,
                chars == old(self).chars(),
                start == old(self).cursor(),
                self.position < self.chars.len(),
                count <= 4,
                digits@.len() == count,
                code == hex_value(digits@),
                code < 0x10000,
                count < 4 ==> code < 0x1000,
                count < 3 ==> code < 0x100,
                count < 2 ==> code < 0x10,
                count < 1 ==> code == 0,
                scan_escape(chars, self.cursor(), digits@, (4 - count) as nat) == scan_escape(
                    chars,
                    start,
                    Seq::empty(),
                    4,
                ),
            decreases 4 - count,
        {
            self.read_char();
            match self.current_char {
                Some(h) => {
                    if char_is_ascii_hexdigit(h) {
                        let ghost before = digits@;
                        let digit = char_hex_value(h);
                        digits.push(h);
                        code = code * 16 + digit;
                        proof {
                            assert(digits@.drop_last() == before);
                            assert(digits@.last() == h);
                        }
                    } else {
                        let seen = crate::strings::string_of(&digits);
                        return Err(
                            error_about(
                                "Invalid Unicode escape sequence: \\u",
                                seen.as_str(),
                                self.line,
                                self.column,
                            ),
                        );
                    }
                },
                None => {
                    return Err(
                        error_with("Unfinished Unicode escape sequence.", self.line, self.column),
                    );
                },
            }
            count += 1;
        }
        match char::from_u32(code) {
            Some(c) => Ok(c),
            None => {
                let seen = crate::strings::string_of(&digits);
                Err(
                    error_about(
                        "Invalid Unicode code point: U+",
                        seen.as_str(),
                        self.line,
                        self.column,
                    ),
                )
            },
        }
    }

    /// Reads a quoted string, with the lexer on the opening quote.
    #[verifier::rlimit(50)]
    fn read_quoted_string(&mut self) -> (r: Result<Token, LexerError>)
        requires
            old(self).wf(),
            old(self).position < old(self).chars.len(),
        ensures
            final(self).wf(),
            final(self).chars() == old(self).chars(),
            token_result_view(r) == scan_quoted(
                old(self).chars(),
                step(old(self).chars(), old(self).cursor()),
                Seq::empty(),
                false,
            ).result,
            final(self).cursor() == scan_quoted(
                old(self).chars(),
                step(old(self).chars(), old(self).cursor()),
                Seq::empty(),
                false,
            ).next,
    {
        self.read_char();
        let ghost chars = self.chars@;
        let ghost start = self.cursor();
        let mut value = String::new();
        let mut escaped = false;
        loop
            invariant
                self.wf(),
                self.chars@ == chars,
                chars == old(self).chars(),
                start == step(old(self).chars(), old(self).cursor()),
                scan_quoted(chars, self.cursor(), value@, escaped) == scan_quoted(
                    chars,
                    start,
                    Seq::empty(),
                    false,
                ),
            decreases self.chars.len() - self.position,
        {
            let c = match self.current_char {
                Some(c) => c,
                None => {
                    return Err(error_with("Unterminated string.", self.line, self.column));
                },
            };
            if escaped {
                if c == 'u' {
                    proof {
                        lemma_scan_escape_bounds(chars, self.cursor(), Seq::empty(), 4);
                    }
                    match self.read_unicode_escape() {
                        Ok(ch) => {
                            value.push(ch);
                        },
                        Err(e) => {
                            return Err(e);
                        },
                    }
                } else if c == 'n' {
                    value.push('\n');
                } else if c == 't' {
                    value.push('\t');
                } else if c == 'r' {
                    value.push('\r');
                } else {
                    value.push(c);
                }
                escaped = false;
                self.read_char();
            } else if c == '\\' {
                escaped = true;
                self.read_char();
            } else if c == '"' {
                self.read_char();
                return Ok(Token::QuotedArgument(value));
            } else {
                value.push(c);
                self.read_char();
            }
        }
    }

    /// Reads an unquoted word, with the lexer on its first character.
    fn read_argument(&mut self) -> (r: Result<Token, LexerError>)
        requires
            old(self).wf(),
        ensures
            final(self).wf(),
            final(self).chars() == old(self).chars(),
            token_result_view(r) == scan_argument(old(self).chars(), old(self).cursor()).result,
            final(self).cursor() == scan_argument(old(self).chars(), old(self).cursor()).next,
    {
        let ghost chars = self.chars@;
        let ghost start = self.cursor();
        let start_position = self.position;
        loop
            invariant_except_break
                self.wf(),
                self.chars@ == chars,
                start_position <= self.position,
                skip_while(chars, self.cursor(), argument_pred()) == skip_while(
                    chars,
                    start,
                    argument_pred(),
                ),
            ensures
                self.wf(),
                self.chars@ == chars,
                start_position <= self.position,
                self.cursor() == skip_while(chars, start, argument_pred()),
            decreases self.chars.len() - self.position,
        {
            match self.current_char {
                Some(c) => {
                    if c.is_whitespace() || c == '>' || c == ',' || c == '"' || c == '@' || c
                        == ':' {
                        break ;
                    }
                    self.read_char();
                },
                None => {
                    break ;
                },
            }
        }
        let argument = string_of_range(&self.chars, start_position, self.position);
        if str_eq(argument.as_str(), "class") {
            Ok(Token::Class)
        } else if str_eq(argument.as_str(), "id") {
            Ok(Token::Id)
        } else if str_eq(argument.as_str(), "tag") {
            Ok(Token::Tag)
        } else if str_eq(argument.as_str(), "attr") {
            Ok(Token::Attr)
        } else if str_eq(argument.as_str(), "text") {
            Ok(Token::Text)
        } else if str_eq(argument.as_str(), "src") {
            Ok(Token::Src)
        } else if str_eq(argument.as_str(), "href") {
            Ok(Token::Href)
        } else {
            Ok(Token::Argument(argument))
        }
    }

    /// Moves on to the next place at which reading can be taken up again.
    fn recover_from_error(&mut self)
        requires
            old(self).wf(),
        ensures
            final(self).wf(),
            final(self).chars() == old(self).chars(),
            final(self).cursor() == skip_while(
                old(self).chars(),
                old(self).cursor(),
                skipped_pred(),
            ),
    {
        let ghost chars = self.chars@;
        let ghost start = self.cursor();
        loop
            invariant_except_break
                self.wf(),
                self.chars@ == chars,
                skip_while(chars, self.cursor(), skipped_pred()) == skip_while(
                    chars,
                    start,
                    skipped_pred(),
                ),
            ensures
                self.wf(),
                self.chars@ == chars,
                self.cursor() == skip_while(chars, start, skipped_pred()),
            decreases self.chars.len() - self.position,
        {
            match self.current_char {
                Some(c) => {
                    if c.is_whitespace() || c == '>' || c == ',' || c == ':' || c == '(' || c
                        == ')' || c == '[' || c == ']' || c == '"' || c == '@'
                        || self.is_identifier_start(c) {
                        break ;
                    }
                    self.read_char();
                },
                None => {
                    break ;
                },
            }
        }
    }
}

/// The tokens of `input`, each with the line and column at which the lexer
/// stood before it read the token. The stream always ends with the
/// end-of-input token; what gave a lexical error is left out of it.
#[verifier::rlimit(50)]
pub fn tokenize(input: &str) -> (tokens: Vec<(Token, usize, usize)>)
    requires
        input@.len() + 2 <= usize::MAX,
    ensures
        tokens_view(tokens@) == spec_tokenize(input@, start_cursor(input@)),
        tokens@.len() > 0,
        tokens@.last().0@ == SpecToken::EOF,
{
    proof {
        lemma_stream_ends_with_eof(input@, start_cursor(input@));
    }
    let mut lexer = Lexer::new(input);
    let mut tokens: Vec<(Token, usize, usize)> = Vec::new();
    let ghost chars = input@;
    loop
        invariant
            lexer.wf(),
            lexer.chars@ == chars,
            chars == input@,
            tokens_view(tokens@) + spec_tokenize(chars, lexer.cursor()) == spec_tokenize(
                chars,
                start_cursor(chars),
            ),
        decreases lexer.chars.len() - lexer.position,
    {
        let line = lexer.line;
        let column = lexer.column;
        let ghost before = lexer.cursor();
        let ghost seen = tokens_view(tokens@);
        proof {
            lemma_scan_token_advances(chars, before);
        }
        match lexer.next_token() {
            Ok(token) => {
                if let Token::EOF = token {
                    tokens.push((Token::EOF, line, column));
                    proof {
                        assert(tokens_view(tokens@) == seen + seq![
                            (SpecToken::EOF, line as nat, column as nat),
                        ]);
                    }
                    return tokens;
                }
                let ghost shown = token@;
                tokens.push((token, line, column));
                proof {
                    assert(tokens_view(tokens@) == seen + seq![
                        (shown, line as nat, column as nat),
                    ]);
                    assert(spec_tokenize(chars, before) == seq![
                        (shown, line as nat, column as nat),
                    ] + spec_tokenize(chars, lexer.cursor()));
                }
            },
            Err(_) => {
                proof {
                    lemma_skip_while_bounds(chars, lexer.cursor(), skipped_pred());
                }
                lexer.recover_from_error();
            },
        }
    }
}

} // verus!
