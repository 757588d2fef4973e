//! The parser: a token stream to a syntax tree, by recursive descent.

pub mod ast;
pub mod error;
pub mod grammar;
pub mod literal;
pub mod element;
pub mod text;
pub mod index;
pub mod function;
pub mod pipeline;
pub mod set;
pub mod basic;
pub mod validate;
pub mod render;
pub mod roundtrip;
pub mod shape;
pub mod written;
pub mod samples;

use vstd::prelude::*;
use crate::lexer::{
    Token, SpecToken, tokens_view, token_text, tokenize, spec_tokenize, start_cursor,
};
use crate::parser::ast::{Node, SpecNode};
use crate::parser::set::parse_set;
use crate::parser::validate::{SyntaxValidator, spec_validate, fresh_state};
use crate::parser::error::{ParseError, SpecParseError};
use crate::parser::grammar::{
    ParseState, MAX_NESTING_LEVEL, current_token, advance, position_of, found_text, unexpected,
    enter, leave, spec_parse_set, spec_parse_expression, spec_recover,
};

verus! {

/// The view of a result whose two sides have views.
pub open spec fn result_view<T: View, E: View>(r: Result<T, E>) -> Result<T::V, E::V> {
    match r {
        Ok(t) => Ok(t@),
        Err(e) => Err(e@),
    }
}

/// The parser: the tokens, and the place reached in them.
pub struct Parser {
    tokens: Vec<(Token, usize, usize)>,
    position: usize,
    current_token: Option<(Token, usize, usize)>,
    current_depth: usize,
    max_nesting_level: usize,
}

impl Parser {
    /// The tokens that the parser reads.
    pub closed spec fn tokens(&self) -> Seq<(SpecToken, nat, nat)> {
        tokens_view(self.tokens@)
    }

    /// Where the parser stands.
    pub closed spec fn state(&self) -> ParseState {
        ParseState {
            pos: if self.current_token is Some {
                (self.position - 1) as nat
            } else {
                self.tokens@.len()
            },
            depth: self.current_depth as nat,
        }
    }

    /// The parser holds the token it stands on, and is no deeper than it may go.
    pub closed spec fn wf(&self) -> bool {
        &&& self.position <= self.tokens@.len()
        &&& self.max_nesting_level == MAX_NESTING_LEVEL
        &&& self.current_depth <= MAX_NESTING_LEVEL
        &&& match self.current_token {
            Some(t) => self.position >= 1 && t == self.tokens@[self.position - 1],
            None => self.position == self.tokens@.len(),
        }
    }

    /// A parser stands within its tokens or right behind them, and within the depth allowed.
    pub proof fn lemma_state_in_bounds(&self)
        requires
            self.wf(),
        ensures
            self.state().pos <= self.tokens().len(),
            self.state().depth <= MAX_NESTING_LEVEL,
    {
    }

    /// A parser on the first of `tokens`.
    pub fn new(tokens: Vec<(Token, usize, usize)>) -> (parser: Parser)
        ensures
            parser.wf(),
            parser.tokens() == tokens_view(tokens@),
            parser.state() == (ParseState { pos: 0, depth: 0 }),
    {
        let mut parser = Parser {
            tokens,
            position: 0,
            current_token: None,
            max_nesting_level: MAX_NESTING_LEVEL,
            current_depth: 0,
        };
        if parser.tokens.len() > 0 {
            let first = &parser.tokens[0];
            parser.current_token = Some((first.0.clone(), first.1, first.2));
            parser.position = 1;
        }
        parser
    }

    /// Takes the current token and moves on to the next.
    pub fn read_token(&mut self)
        requires
            old(self).wf(),
        ensures
            final(self).wf(),
            final(self).tokens() == old(self).tokens(),
            final(self).state() == advance(old(self).tokens(), old(self).state()),
    {
        if self.position < self.tokens.len() {
            let next = &self.tokens[self.position];
            self.current_token = Some((next.0.clone(), next.1, next.2));
            self.position += 1;
        } else {
            self.current_token = None;
        }
    }

    /// The current token, if there is one.
    pub fn peek(&self) -> (t: Option<&Token>)
        requires
            self.wf(),
        ensures
            match t {
                Some(t) => current_token(self.tokens(), self.state()) == Some(t@),
                None => current_token(self.tokens(), self.state()) is None,
            },
    {
        match &self.current_token {
            Some(t) => Some(&t.0),
            None => None,
        }
    }

    /// Whether the current token is `expected`.
    pub fn check_token(&self, expected: &Token) -> (b: bool)
        requires
            self.wf(),
        ensures
            b == (current_token(self.tokens(), self.state()) == Some(expected@)),
    {
        match &self.current_token {
            Some(t) => same_token(&t.0, expected),
            None => false,
        }
    }

    /// Takes the current token if it is `expected`; fails otherwise.
    pub fn consume_token(&mut self, expected: &Token) -> (r: Result<(), ParseError>)
        requires
            old(self).wf(),
        ensures
            final(self).wf(),
            final(self).tokens() == old(self).tokens(),
            match r {
                Ok(_) => current_token(old(self).tokens(), old(self).state()) == Some(expected@)
                    && final(self).state() == advance(old(self).tokens(), old(self).state()),
                Err(e) => current_token(old(self).tokens(), old(self).state()) != Some(expected@)
                    && final(self).state() == old(self).state() && e@ == unexpected(
                    old(self).tokens(),
                    old(self).state(),
                    token_text(expected@),
                ),
            },
    {
        if self.check_token(expected) {
            self.read_token();
            Ok(())
        } else {
            let (line, column) = self.get_current_position();
            let current = self.get_current_token_str();
            let wanted = expected.to_text();
            Err(ParseError::unexpected_token(wanted.as_str(), current.as_str(), line, column))
        }
    }

    /// The text of the current token; `EOF` past the last one.
    pub fn get_current_token_str(&self) -> (s: String)
        requires
            self.wf(),
        ensures
            s@ == found_text(self.tokens(), self.state()),
    {
        match &self.current_token {
            Some(t) => t.0.to_text(),
            None => String::from_str("EOF"),
        }
    }

    /// Line and column of the current token; past the last token, those of
    /// the last token; line 1, column 0 where there is no token at all.
    pub fn get_current_position(&self) -> (p: (usize, usize))
        requires
            self.wf(),
        ensures
            (p.0 as nat, p.1 as nat) == position_of(self.tokens(), self.state()),
    {
        match &self.current_token {
            Some(t) => (t.1, t.2),
            None => {
                if self.tokens.len() > 0 {
                    let last = &self.tokens[self.tokens.len() - 1];
                    (last.1, last.2)
                } else {
                    (1, 0)
                }
            },
        }
    }

    /// Goes one level deeper, which fails at the limit.
    pub fn check_depth(&mut self) -> (r: Result<(), ParseError>)
        requires
            old(self).wf(),
        ensures
            final(self).wf(),
            final(self).tokens() == old(self).tokens(),
            result_view(r) == enter(old(self).tokens(), old(self).state()).result,
            final(self).state() == enter(old(self).tokens(), old(self).state()).state,
    {
        if self.current_depth >= self.max_nesting_level {
            let (line, column) = self.get_current_position();
            return Err(ParseError::nesting_too_deep(self.max_nesting_level, line, column));
        }
        self.current_depth += 1;
        Ok(())
    }

    /// Parses a whole expression: a set expression after which only the
    /// end-of-input token may stand.
    pub fn parse(&mut self) -> (r: Result<Node, ParseError>)
        requires
            old(self).wf(),
        ensures
            final(self).wf(),
            final(self).tokens() == old(self).tokens(),
            result_view(r) == spec_parse_expression(old(self).tokens(), old(self).state()).result,
            final(self).state() == spec_parse_expression(
                old(self).tokens(),
                old(self).state(),
            ).state,
    {
        let node = match parse_set(self) {
            Ok(node) => node,
            Err(e) => {
                return Err(e);
            },
        };
        let found = match self.peek() {
            None => {
                return Ok(node);
            },
            Some(Token::EOF) => None,
            Some(token) => Some(token.to_text()),
        };
        match found {
            None => {
                self.read_token();
                Ok(node)
            },
            Some(text) => {
                let (line, column) = self.get_current_position();
                Err(ParseError::unexpected_token("EOF", text.as_str(), line, column))
            },
        }
    }

    /// Moves on to where parsing can be taken up again after an error:
    /// behind the next closing parenthesis that closes nothing opened on
    /// the way, or onto the next `>`, `|`, `&` or `^` outside parentheses,
    /// or onto the end of the input.
    pub fn try_recover(&mut self) -> (r: Result<(), ParseError>)
        requires
            old(self).wf(),
        ensures
            r is Ok,
            final(self).wf(),
            final(self).tokens() == old(self).tokens(),
            final(self).state() == spec_recover(old(self).tokens(), old(self).state(), 0),
    {
        let mut depth: usize = 0;
        let ghost tokens = self.tokens();
        let ghost start = self.state();
        loop
            invariant
                self.wf(),
                self.tokens() == tokens,
                tokens == old(self).tokens(),
                start == old(self).state(),
                depth <= self.state().pos <= tokens.len(),
                spec_recover(tokens, self.state(), depth as nat) == spec_recover(tokens, start, 0),
            decreases tokens.len() - self.state().pos,
        {
            let token = match self.peek() {
                Some(t) => t,
                None => {
                    return Ok(());
                },
            };
            match token {
                Token::LeftParen => {
                    depth += 1;
                },
                Token::RightParen => {
                    if depth > 0 {
                        depth -= 1;
                    } else {
                        self.read_token();
                        return Ok(());
                    }
                },
                Token::Pipeline | Token::Union | Token::Intersection | Token::Difference => {
                    if depth == 0 {
                        return Ok(());
                    }
                },
                Token::EOF => {
                    return Ok(());
                },
                _ => {},
            }
            self.read_token();
        }
    }

    /// Comes back up one level.
    pub fn decrease_depth(&mut self)
        requires
            old(self).wf(),
        ensures
            final(self).wf(),
            final(self).tokens() == old(self).tokens(),
            final(self).state() == leave(old(self).state()),
    {
        if self.current_depth > 0 {
            self.current_depth -= 1;
        }
    }
}

/// The tree that a token stream stands for. A stream that does not parse is
/// given one more chance from the place where parsing can be taken up again:
/// what stands from there on must be a whole expression, up to the end of the
/// input, or the first error stands. The tree must then pass the validator.
pub open spec fn spec_parse_tokens(tokens: Seq<(SpecToken, nat, nat)>) -> Result<
    SpecNode,
    SpecParseError,
> {
    let first = spec_parse_expression(tokens, ParseState { pos: 0, depth: 0 });
    let tree = match first.result {
        Ok(node) => Ok(node),
        Err(e) => {
            let second = spec_parse_expression(tokens, spec_recover(tokens, first.state, 0));
            match second.result {
                Ok(node) => Ok(node),
                Err(_) => Err(e),
            }
        },
    };
    match tree {
        Err(e) => Err(e),
        Ok(node) => match spec_validate(node, fresh_state()).result {
            Ok(_) => Ok(node),
            Err(e) => Err(e),
        },
    }
}

/// The tree that a selector text stands for.
pub open spec fn spec_parse(input: Seq<char>) -> Result<SpecNode, SpecParseError> {
    spec_parse_tokens(spec_tokenize(input, start_cursor(input)))
}

/// Parses the tokens of a selector and validates the tree.
pub fn parse_tokens(tokens: Vec<(Token, usize, usize)>) -> (r: Result<Node, ParseError>)
    ensures
        result_view(r) == spec_parse_tokens(tokens_view(tokens@)),
{
    let mut parser = Parser::new(tokens);
    let node = match parser.parse() {
        Ok(node) => node,
        Err(parse_error) => {
            match parser.try_recover() {
                Err(_) => {
                    return Err(parse_error);
                },
                Ok(_) => {},
            }
            match parser.parse() {
                Ok(recovered_node) => recovered_node,
                Err(_) => {
                    return Err(parse_error);
                },
            }
        },
    };
    let mut validator = SyntaxValidator::new();
    match validator.validate(&node) {
        Err(e) => Err(e),
        Ok(_) => Ok(node),
    }
}

/// Parses a selector: its text to tokens, the tokens to a tree, and the tree
/// past the validator.
pub fn parse(input: &str) -> (r: Result<Node, ParseError>)
    requires
        input@.len() + 2 <= usize::MAX,
    ensures
        result_view(r) == spec_parse(input@),
{
    let tokens = tokenize(input);
    parse_tokens(tokens)
}

/// Whether two tokens have the same value.
fn same_token(token: &Token, expected: &Token) -> (b: bool)
    ensures
        b == (token@ == expected@),
{
    match (token, expected) {
        (Token::Pipeline, Token::Pipeline) => true,
        (Token::Class, Token::Class) => true,
        (Token::Id, Token::Id) => true,
        (Token::Tag, Token::Tag) => true,
        (Token::Attr, Token::Attr) => true,
        (Token::Text, Token::Text) => true,
        (Token::Src, Token::Src) => true,
        (Token::Href, Token::Href) => true,
        (Token::Pound, Token::Pound) => true,
        (Token::Function(a), Token::Function(b)) => *a == *b,
        (Token::Comma, Token::Comma) => true,
        (Token::Colon, Token::Colon) => true,
        (Token::Number(a), Token::Number(b)) => *a == *b,
        (Token::Float(a), Token::Float(b)) => *a == *b,
        (Token::Bool(a), Token::Bool(b)) => *a == *b,
        (Token::Minus, Token::Minus) => true,
        (Token::Argument(a), Token::Argument(b)) => *a == *b,
        (Token::QuotedArgument(a), Token::QuotedArgument(b)) => *a == *b,
        (Token::Regex, Token::Regex) => true,
        (Token::LeftParen, Token::LeftParen) => true,
        (Token::RightParen, Token::RightParen) => true,
        (Token::LeftBracket, Token::LeftBracket) => true,
        (Token::RightBracket, Token::RightBracket) => true,
        (Token::Union, Token::Union) => true,
        (Token::Intersection, Token::Intersection) => true,
        (Token::Difference, Token::Difference) => true,
        (Token::EOF, Token::EOF) => true,
        _ => false,
    }
}

} // verus!
