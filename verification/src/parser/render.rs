//! From a syntax tree back to tokens and to selector text.
//!
//! The tokens of a tree are those that parse to the tree again: operands are
//! put in parentheses where the tree's shape asks for it, and a string is
//! given without quotes where the lexer reads it as the same argument, and
//! as a quoted argument otherwise.

use vstd::prelude::*;
use crate::lexer::{SpecToken, Token, token_text, is_function_name, ends_argument, word_token};
use crate::parser::ast::{
    SpecLiteral, SpecElement, SpecText, SpecSelector, SpecIndex, SpecFunction, SpecNode,
    SetOperator, Literal, ElementNode, TextNode, SelectorNode, IndexNode, FunctionNode,
    SetOperationNode, Node, literals_view, optional_literal_view,
};
use crate::strings::{chars_of, is_ascii_digit, char_is_ascii_digit, str_eq};

verus! {

/// The size of an integer without its sign, as a number token holds it: no
/// more than the greatest number that a token can hold.
pub open spec fn magnitude(n: i64) -> usize {
    let size = if n >= 0 {
        n as int
    } else {
        -n
    };
    if size <= usize::MAX {
        size as usize
    } else {
        usize::MAX
    }
}

/// Whether a string written without quotes may start with `c`: `c` neither
/// ends an argument nor starts another token.
pub open spec fn starts_bare_word(c: char) -> bool {
    !ends_argument(c) && c != '|' && c != '^' && c != '&' && c != '~' && c != '(' && c != ')' && c
        != '[' && c != ']' && c != '#' && c != '-' && !is_ascii_digit(c)
}

/// Whether the lexer reads `word`, written without quotes, as an argument
/// with this text: it is not empty, starts as such a word may, holds no
/// character that ends an argument, and is no keyword.
pub open spec fn is_bare_word(word: Seq<char>) -> bool {
    &&& word.len() > 0
    &&& starts_bare_word(word[0])
    &&& forall|j: int| 0 <= j < word.len() ==> !ends_argument(#[trigger] word[j])
    &&& word_token(word) == SpecToken::Argument(word)
}

/// The token of a string: an argument without quotes where the lexer reads
/// it as this string, and a quoted argument otherwise.
pub open spec fn value_token(text: Seq<char>) -> SpecToken {
    if is_bare_word(text) {
        SpecToken::Argument(text)
    } else {
        SpecToken::QuotedArgument(text)
    }
}

/// The tokens of a literal. A negative integer is a minus sign and a number.
/// The empty literal has no tokens.
pub open spec fn literal_tokens(literal: SpecLiteral) -> Seq<SpecToken>
    decreases literal, 0nat,
{
    match literal {
        SpecLiteral::Int(n) => if n >= 0 {
            seq![SpecToken::Number(magnitude(n))]
        } else {
            seq![SpecToken::Minus, SpecToken::Number(magnitude(n))]
        },
        SpecLiteral::Str(v) => seq![value_token(v)],
        SpecLiteral::Float(s) => seq![SpecToken::Float(s)],
        SpecLiteral::Bool(b) => seq![SpecToken::Bool(b)],
        SpecLiteral::List(items) => if items.len() == 0 {
            seq![SpecToken::LeftBracket, SpecToken::RightBracket]
        } else {
            seq![SpecToken::LeftBracket] + literal_tokens(items[0]) + more_literal_tokens(items, 1)
                + seq![SpecToken::RightBracket]
        },
        SpecLiteral::Nil => Seq::empty(),
    }
}

/// The tokens of the literals `items[from..]`, each with a comma in front of it.
pub open spec fn more_literal_tokens(items: Seq<SpecLiteral>, from: int) -> Seq<SpecToken>
    decreases items, items.len() - from,
{
    if 0 <= from < items.len() {
        seq![SpecToken::Comma] + literal_tokens(items[from]) + more_literal_tokens(items, from + 1)
    } else {
        Seq::empty()
    }
}

/// The regex marker, where a pattern is a regular expression.
pub open spec fn marker_tokens(is_regex: bool) -> Seq<SpecToken> {
    if is_regex {
        seq![SpecToken::Regex]
    } else {
        Seq::empty()
    }
}

/// The tokens of an element selector. The regex marker of an `attr`
/// selector stands in front of the name.
pub open spec fn element_tokens(element: SpecElement) -> Seq<SpecToken> {
    match element {
        SpecElement::Class(v, r) => seq![SpecToken::Class] + marker_tokens(r) + seq![value_token(v)],
        SpecElement::Id(v, r) => seq![SpecToken::Id] + marker_tokens(r) + seq![value_token(v)],
        SpecElement::Tag(v, r) => seq![SpecToken::Tag] + marker_tokens(r) + seq![value_token(v)],
        SpecElement::Attr(name, value, r) => match value {
            Some(v) => seq![SpecToken::Attr] + marker_tokens(r) + seq![value_token(name)] + seq![
                value_token(v),
            ],
            None => seq![SpecToken::Attr] + marker_tokens(r) + seq![value_token(name)],
        },
    }
}

/// The tokens of a text selector.
pub open spec fn text_tokens(text: SpecText) -> Seq<SpecToken> {
    match text {
        SpecText::Text => seq![SpecToken::Text],
        SpecText::Href => seq![SpecToken::Href],
        SpecText::Src => seq![SpecToken::Src],
        SpecText::AttrValue(name, r) => seq![SpecToken::Pound] + marker_tokens(r) + seq![
            value_token(name),
        ],
    }
}

/// The tokens of a selector.
pub open spec fn selector_tokens(selector: SpecSelector) -> Seq<SpecToken> {
    match selector {
        SpecSelector::Element(e) => element_tokens(e),
        SpecSelector::Text(t) => text_tokens(t),
    }
}

/// The tokens of a part of a range that may be left out.
pub open spec fn optional_literal_tokens(part: Option<SpecLiteral>) -> Seq<SpecToken> {
    match part {
        Some(l) => literal_tokens(l),
        None => Seq::empty(),
    }
}

/// The tokens of a range behind the colon that follows its start: the end,
/// or a colon in its place; then the step, behind a colon where an end is given.
pub open spec fn range_tail_tokens(end: Option<SpecLiteral>, step: Option<SpecLiteral>) -> Seq<
    SpecToken,
> {
    match (end, step) {
        (Some(e), Some(s)) => literal_tokens(e) + seq![SpecToken::Colon] + literal_tokens(s),
        (Some(e), None) => literal_tokens(e),
        (None, Some(s)) => seq![SpecToken::Colon] + literal_tokens(s),
        (None, None) => seq![SpecToken::Colon],
    }
}

/// The tokens of an index, with the colon that introduces it.
pub open spec fn index_tokens(index: SpecIndex) -> Seq<SpecToken> {
    match index {
        SpecIndex::Single(l) => seq![SpecToken::Colon] + literal_tokens(l),
        SpecIndex::Multiple(items) => if items.len() == 0 {
            seq![SpecToken::Colon]
        } else {
            seq![SpecToken::Colon] + literal_tokens(items[0]) + more_literal_tokens(items, 1)
        },
        SpecIndex::Range(start, end, step) => seq![SpecToken::Colon] + optional_literal_tokens(
            start,
        ) + seq![SpecToken::Colon] + range_tail_tokens(end, step),
    }
}

/// The tokens of a call of a function: its name, then each argument behind a comma.
pub open spec fn function_tokens(function: SpecFunction) -> Seq<SpecToken> {
    seq![SpecToken::Function(function.name)] + more_literal_tokens(function.arguments, 0)
}

/// The token of an operator.
pub open spec fn operator_token(operator: SetOperator) -> SpecToken {
    match operator {
        SetOperator::Union => SpecToken::Union,
        SetOperator::Intersection => SpecToken::Intersection,
        SetOperator::Difference => SpecToken::Difference,
    }
}

/// The tokens of a tree that stands as an operand of a pipeline's right
/// side: a pipeline or a set operation goes into parentheses.
pub open spec fn basic_tokens(node: SpecNode) -> Seq<SpecToken>
    decreases node, 0nat,
{
    match node {
        SpecNode::Selector(s) => selector_tokens(s),
        SpecNode::IndexSelection(inner, index) => basic_tokens(*inner) + index_tokens(index),
        SpecNode::FunctionCall(inner, function) => basic_tokens(*inner) + function_tokens(function),
        SpecNode::Pipeline(left, right) => seq![SpecToken::LeftParen] + pipeline_tokens(*left)
            + seq![SpecToken::Pipeline] + basic_tokens(*right) + seq![SpecToken::RightParen],
        SpecNode::SetOperation(operator, left, right) => seq![SpecToken::LeftParen] + set_tokens(
            *left,
        ) + seq![operator_token(operator)] + pipeline_tokens(*right) + seq![SpecToken::RightParen],
    }
}

/// The tokens of a tree that stands as an operand of a set operation's right
/// side, or of a pipeline's left side: a set operation goes into parentheses.
pub open spec fn pipeline_tokens(node: SpecNode) -> Seq<SpecToken>
    decreases node, 1nat,
{
    match node {
        SpecNode::Pipeline(left, right) => pipeline_tokens(*left) + seq![SpecToken::Pipeline]
            + basic_tokens(*right),
        _ => basic_tokens(node),
    }
}

/// The tokens of a tree that stands by itself.
pub open spec fn set_tokens(node: SpecNode) -> Seq<SpecToken>
    decreases node, 2nat,
{
    match node {
        SpecNode::SetOperation(operator, left, right) => set_tokens(*left) + seq![
            operator_token(operator),
        ] + pipeline_tokens(*right),
        _ => pipeline_tokens(node),
    }
}

/// The tokens of a tree.
pub open spec fn node_tokens(node: SpecNode) -> Seq<SpecToken> {
    set_tokens(node)
}

/// Whether the tokens of a literal parse to the literal again: its numbers
/// must fit a number token, its lists must hold something, and the empty
/// literal, which has no tokens, may not occur.
pub open spec fn literal_can_be_read(literal: SpecLiteral) -> bool
    decreases literal, 0nat,
{
    match literal {
        SpecLiteral::Int(n) => -(usize::MAX as int) <= n <= usize::MAX,
        SpecLiteral::Str(_) => true,
        SpecLiteral::Float(_) => true,
        SpecLiteral::Bool(_) => true,
        SpecLiteral::List(items) => items.len() > 0 && literals_can_be_read(items, 0),
        SpecLiteral::Nil => false,
    }
}

/// Whether the tokens of each of `items[from..]` parse to it again.
pub open spec fn literals_can_be_read(items: Seq<SpecLiteral>, from: int) -> bool
    decreases items, items.len() - from,
{
    if 0 <= from < items.len() {
        literal_can_be_read(items[from]) && literals_can_be_read(items, from + 1)
    } else {
        true
    }
}

/// How deep the lists of a literal nest.
pub open spec fn literal_depth(literal: SpecLiteral) -> nat
    decreases literal, 0nat,
{
    match literal {
        SpecLiteral::List(items) => 1 + literals_depth(items, 0),
        _ => 0,
    }
}

/// The greatest depth among `items[from..]`.
pub open spec fn literals_depth(items: Seq<SpecLiteral>, from: int) -> nat
    decreases items, items.len() - from,
{
    if 0 <= from < items.len() {
        let first = literal_depth(items[from]);
        let rest = literals_depth(items, from + 1);
        if first >= rest {
            first
        } else {
            rest
        }
    } else {
        0
    }
}

/// The greater of two numbers.
pub open spec fn larger(a: nat, b: nat) -> nat {
    if a >= b {
        a
    } else {
        b
    }
}

/// The depth of a part of a range that may be left out.
pub open spec fn optional_literal_depth(part: Option<SpecLiteral>) -> nat {
    match part {
        Some(l) => literal_depth(l),
        None => 0,
    }
}

/// Whether a part of a range that may be left out can be read again.
pub open spec fn optional_literal_can_be_read(part: Option<SpecLiteral>) -> bool {
    match part {
        Some(l) => literal_can_be_read(l),
        None => true,
    }
}

/// Whether the tokens of an element selector parse to it again: a pattern
/// and the name of an attribute may not be empty.
pub open spec fn element_can_be_read(element: SpecElement) -> bool {
    match element {
        SpecElement::Class(v, _) => v.len() > 0,
        SpecElement::Id(v, _) => v.len() > 0,
        SpecElement::Tag(v, _) => v.len() > 0,
        SpecElement::Attr(name, value, r) => name.len() > 0,
    }
}

/// Whether the tokens of an index parse to it again: several positions are
/// at least two.
pub open spec fn index_can_be_read(index: SpecIndex) -> bool {
    match index {
        SpecIndex::Single(l) => literal_can_be_read(l),
        SpecIndex::Multiple(items) => items.len() >= 2 && literals_can_be_read(items, 0),
        SpecIndex::Range(start, end, step) => optional_literal_can_be_read(start)
            && optional_literal_can_be_read(end) && optional_literal_can_be_read(step),
    }
}

/// How deep an index nests: one level for the index itself, and the lists in it.
pub open spec fn index_depth(index: SpecIndex) -> nat {
    1 + match index {
        SpecIndex::Single(l) => literal_depth(l),
        SpecIndex::Multiple(items) => literals_depth(items, 0),
        SpecIndex::Range(start, end, step) => larger(
            optional_literal_depth(start),
            larger(optional_literal_depth(end), optional_literal_depth(step)),
        ),
    }
}

/// Whether the tokens of a call parse to it again.
pub open spec fn function_can_be_read(function: SpecFunction) -> bool {
    function.name.len() > 0 && literals_can_be_read(function.arguments, 0)
}

/// How deep a call nests: one level for the call itself, and the lists among its arguments.
pub open spec fn function_depth(function: SpecFunction) -> nat {
    1 + literals_depth(function.arguments, 0)
}

/// Whether a tree is a text selector with, at most, an index and calls of functions on it.
pub open spec fn is_text_chain(node: SpecNode) -> bool
    decreases node,
{
    match node {
        SpecNode::Selector(SpecSelector::Text(_)) => true,
        SpecNode::IndexSelection(inner, _) => *inner matches SpecNode::Selector(
            SpecSelector::Text(_),
        ),
        SpecNode::FunctionCall(inner, _) => is_text_chain(*inner),
        _ => false,
    }
}

/// Whether the tokens of a tree parse to the tree again: an index stands on
/// a selector, a call of a function on a text selector with its index and
/// earlier calls, and every part can be read again.
pub open spec fn can_be_read(node: SpecNode) -> bool
    decreases node,
{
    match node {
        SpecNode::Selector(SpecSelector::Element(e)) => element_can_be_read(e),
        SpecNode::Selector(SpecSelector::Text(_)) => true,
        SpecNode::IndexSelection(inner, index) => *inner is Selector && can_be_read(*inner)
            && index_can_be_read(index),
        SpecNode::FunctionCall(inner, function) => is_text_chain(*inner) && can_be_read(*inner)
            && function_can_be_read(function),
        SpecNode::Pipeline(left, right) => can_be_read(*left) && can_be_read(*right),
        SpecNode::SetOperation(_, left, right) => can_be_read(*left) && can_be_read(*right),
    }
}

/// Whether a literal holds only what the lexer makes tokens for: integers
/// and strings, and lists of them.
pub open spec fn literal_is_plain(literal: SpecLiteral) -> bool
    decreases literal, 0nat,
{
    match literal {
        SpecLiteral::Int(_) => true,
        SpecLiteral::Str(_) => true,
        SpecLiteral::List(items) => literals_are_plain(items, 0),
        _ => false,
    }
}

/// Whether each of `items[from..]` holds only what the lexer makes tokens for.
pub open spec fn literals_are_plain(items: Seq<SpecLiteral>, from: int) -> bool
    decreases items, items.len() - from,
{
    if 0 <= from < items.len() {
        literal_is_plain(items[from]) && literals_are_plain(items, from + 1)
    } else {
        true
    }
}

/// Whether a part of a range that may be left out holds only what the lexer
/// makes tokens for.
pub open spec fn optional_literal_is_plain(part: Option<SpecLiteral>) -> bool {
    match part {
        Some(l) => literal_is_plain(l),
        None => true,
    }
}

/// Whether an index holds only what the lexer makes tokens for.
pub open spec fn index_is_plain(index: SpecIndex) -> bool {
    match index {
        SpecIndex::Single(l) => literal_is_plain(l),
        SpecIndex::Multiple(items) => literals_are_plain(items, 0),
        SpecIndex::Range(start, end, step) => optional_literal_is_plain(start)
            && optional_literal_is_plain(end) && optional_literal_is_plain(step),
    }
}

/// Whether a call holds only what the lexer makes tokens for: a name that
/// the lexer takes for the name of a function, and plain arguments.
pub open spec fn function_is_plain(function: SpecFunction) -> bool {
    is_function_name(function.name) && literals_are_plain(function.arguments, 0)
}

/// Whether a tree holds only what the lexer makes tokens for.
pub open spec fn is_plain(node: SpecNode) -> bool
    decreases node,
{
    match node {
        SpecNode::Selector(_) => true,
        SpecNode::IndexSelection(inner, index) => is_plain(*inner) && index_is_plain(index),
        SpecNode::FunctionCall(inner, function) => is_plain(*inner) && function_is_plain(function),
        SpecNode::Pipeline(left, right) => is_plain(*left) && is_plain(*right),
        SpecNode::SetOperation(_, left, right) => is_plain(*left) && is_plain(*right),
    }
}

/// How deep the parser goes to read a tree as an operand of a pipeline's right side.
pub open spec fn basic_depth(node: SpecNode) -> nat
    decreases node, 0nat,
{
    match node {
        SpecNode::Selector(_) => 0,
        SpecNode::IndexSelection(inner, index) => larger(basic_depth(*inner), index_depth(index)),
        SpecNode::FunctionCall(inner, function) => larger(
            basic_depth(*inner),
            function_depth(function),
        ),
        SpecNode::Pipeline(left, right) => 1 + larger(
            pipeline_depth(*left),
            1 + basic_depth(*right),
        ),
        SpecNode::SetOperation(_, left, right) => 1 + larger(
            set_depth(*left),
            1 + pipeline_depth(*right),
        ),
    }
}

/// How deep the parser goes to read a tree as a pipeline.
pub open spec fn pipeline_depth(node: SpecNode) -> nat
    decreases node, 1nat,
{
    match node {
        SpecNode::Pipeline(left, right) => larger(pipeline_depth(*left), 1 + basic_depth(*right)),
        _ => basic_depth(node),
    }
}

/// How deep the parser goes to read a tree by itself.
pub open spec fn set_depth(node: SpecNode) -> nat
    decreases node, 2nat,
{
    match node {
        SpecNode::SetOperation(_, left, right) => larger(
            set_depth(*left),
            1 + pipeline_depth(*right),
        ),
        _ => pipeline_depth(node),
    }
}

/// The values of a list of tokens.
pub open spec fn kinds(tokens: Seq<Token>) -> Seq<SpecToken> {
    Seq::new(tokens.len(), |i: int| tokens[i]@)
}

/// Pushing a token onto a list pushes its value onto the list's values.
pub proof fn lemma_kinds_push(tokens: Seq<Token>, token: Token)
    ensures
        kinds(tokens.push(token)) == kinds(tokens).push(token@),
{
    assert(kinds(tokens.push(token)) =~= kinds(tokens).push(token@));
}

/// Adds `token` to `out`.
fn put(out: &mut Vec<Token>, token: Token)
    ensures
        kinds(final(out)@) == kinds(old(out)@) + seq![token@],
{
    proof {
        lemma_kinds_push(out@, token);
        assert(kinds(out@).push(token@) =~= kinds(out@) + seq![token@]);
    }
    out.push(token);
}

/// The size of an integer without its sign, as a number token holds it.
pub fn magnitude_of(n: i64) -> (m: usize)
    ensures
        m == magnitude(n),
{
    let wide: u64 = if n >= 0 {
        n as u64
    } else if n == i64::MIN {
        0x8000_0000_0000_0000
    } else {
        (-n) as u64
    };
    if wide > usize::MAX as u64 {
        usize::MAX
    } else {
        wide as usize
    }
}

/// Adds the tokens of `literal` to `out`.
#[verifier::loop_isolation(false)]
#[verifier::rlimit(50)]
pub fn push_literal_tokens(literal: &Literal, out: &mut Vec<Token>)
    ensures
        kinds(final(out)@) == kinds(old(out)@) + literal_tokens(literal@),
    decreases literal,
{
    let ghost before = kinds(out@);
    match literal {
        Literal::Int(n) => {
            if *n >= 0 {
                put(out, Token::Number(magnitude_of(*n)));
            } else {
                put(out, Token::Minus);
                put(out, Token::Number(magnitude_of(*n)));
                proof {
                    assert((before + seq![SpecToken::Minus]) + seq![
                        SpecToken::Number(magnitude(*n)),
                    ] =~= before + literal_tokens(literal@));
                }
            }
        },
        Literal::Str(v) => {
            put(out, value_token_of(v));
        },
        Literal::Float(s) => {
            put(out, Token::Float(s.clone()));
        },
        Literal::Bool(b) => {
            put(out, Token::Bool(*b));
        },
        Literal::List(items) => {
            put(out, Token::LeftBracket);
            let ghost all = literals_view(items@);
            let mut i: usize = 0;
            while i < items.len()
                invariant
                    i <= items.len(),
                    all == literals_view(items@),
                    i == 0 ==> kinds(out@) == before + seq![SpecToken::LeftBracket],
                    i > 0 ==> kinds(out@) + more_literal_tokens(all, i as int) == ((before
                        + seq![SpecToken::LeftBracket]) + literal_tokens(all[0]))
                        + more_literal_tokens(all, 1),
                decreases items.len() - i,
            {
                let ghost so_far = kinds(out@);
                if i > 0 {
                    put(out, Token::Comma);
                }
                proof {
                    vstd::std_specs::vec::axiom_vec_index_decreases(*items, i as int);
                }
                push_literal_tokens(&items[i], out);
                proof {
                    let item = literal_tokens(all[i as int]);
                    assert(all[i as int] == items@[i as int]@);
                    if i > 0 {
                        assert(((so_far + seq![SpecToken::Comma]) + item) + more_literal_tokens(
                            all,
                            i + 1,
                        ) =~= so_far + ((seq![SpecToken::Comma] + item) + more_literal_tokens(
                            all,
                            i + 1,
                        )));
                    } else {
                        assert(kinds(out@) + more_literal_tokens(all, 1) == ((before + seq![
                            SpecToken::LeftBracket,
                        ]) + literal_tokens(all[0])) + more_literal_tokens(all, 1));
                    }
                }
                i += 1;
            }
            let ghost inner = kinds(out@);
            put(out, Token::RightBracket);
            proof {
                if items.len() == 0 {
                    assert((before + seq![SpecToken::LeftBracket]) + seq![SpecToken::RightBracket]
                        =~= before + literal_tokens(literal@));
                } else {
                    assert(more_literal_tokens(all, items.len() as int) =~= Seq::<
                        SpecToken,
                    >::empty());
                    assert(inner + Seq::<SpecToken>::empty() =~= inner);
                    assert((((before + seq![SpecToken::LeftBracket]) + literal_tokens(all[0]))
                        + more_literal_tokens(all, 1)) + seq![SpecToken::RightBracket] =~= before
                        + literal_tokens(literal@));
                }
            }
        },
        Literal::Nil => {
            proof {
                assert(before + literal_tokens(literal@) =~= before);
            }
        },
    }
}

/// Adds the tokens of the literals `items[from..]` to `out`, each with a
/// comma in front of it.
pub fn push_more_literal_tokens(items: &Vec<Literal>, from: usize, out: &mut Vec<Token>)
    ensures
        kinds(final(out)@) == kinds(old(out)@) + more_literal_tokens(
            literals_view(items@),
            from as int,
        ),
{
    let ghost before = kinds(out@);
    let ghost all = literals_view(items@);
    let mut i: usize = from;
    if from >= items.len() {
        proof {
            assert(before + more_literal_tokens(all, from as int) =~= before);
        }
        return ;
    }
    while i < items.len()
        invariant
            from <= i <= items.len(),
            all == literals_view(items@),
            before == kinds(old(out)@),
            kinds(out@) + more_literal_tokens(all, i as int) == before + more_literal_tokens(
                all,
                from as int,
            ),
        decreases items.len() - i,
    {
        let ghost so_far = kinds(out@);
        put(out, Token::Comma);
        push_literal_tokens(&items[i], out);
        proof {
            let item = literal_tokens(all[i as int]);
            assert(all[i as int] == items@[i as int]@);
            assert(((so_far + seq![SpecToken::Comma]) + item) + more_literal_tokens(all, i + 1)
                =~= so_far + ((seq![SpecToken::Comma] + item) + more_literal_tokens(all, i + 1)));
        }
        i += 1;
    }
    proof {
        assert(more_literal_tokens(all, items.len() as int) =~= Seq::<SpecToken>::empty());
        assert(kinds(out@) + Seq::<SpecToken>::empty() =~= kinds(out@));
    }
}

/// Adds the regex marker to `out`, where a pattern is a regular expression.
fn push_marker(is_regex: bool, out: &mut Vec<Token>)
    ensures
        kinds(final(out)@) == kinds(old(out)@) + marker_tokens(is_regex),
{
    if is_regex {
        put(out, Token::Regex);
    } else {
        proof {
            assert(kinds(out@) + marker_tokens(false) =~= kinds(out@));
        }
    }
}

/// Whether the lexer reads `word`, written without quotes, as an argument
/// with this text.
pub fn word_is_bare(word: &str) -> (b: bool)
    ensures
        b == is_bare_word(word@),
{
    let chars = chars_of(word);
    if chars.len() == 0 {
        return false;
    }
    let first = chars[0];
    if first == '|' || first == '^' || first == '&' || first == '~' || first == '(' || first == ')'
        || first == '[' || first == ']' || first == '#' || first == '-' || char_is_ascii_digit(
        first,
    ) {
        return false;
    }
    let mut i: usize = 0;
    while i < chars.len()
        invariant
            i <= chars.len(),
            chars@ == word@,
            forall|j: int| 0 <= j < i ==> !ends_argument(#[trigger] chars@[j]),
        decreases chars.len() - i,
    {
        let c = chars[i];
        if c.is_whitespace() || c == '>' || c == ',' || c == '"' || c == '@' || c == ':' {
            return false;
        }
        i += 1;
    }
    !(str_eq(word, "class") || str_eq(word, "id") || str_eq(word, "tag") || str_eq(word, "attr")
        || str_eq(word, "text") || str_eq(word, "src") || str_eq(word, "href"))
}

/// The token of a string.
pub fn value_token_of(text: &String) -> (token: Token)
    ensures
        token@ == value_token(text@),
{
    if word_is_bare(text.as_str()) {
        Token::Argument(text.clone())
    } else {
        Token::QuotedArgument(text.clone())
    }
}

/// Adds a keyword, a marker and a pattern to `out`.
fn push_pattern(keyword: Token, is_regex: bool, pattern: &String, out: &mut Vec<Token>)
    ensures
        kinds(final(out)@) == kinds(old(out)@) + (seq![keyword@] + marker_tokens(is_regex) + seq![
            value_token(pattern@),
        ]),
{
    let ghost before = kinds(out@);
    let ghost shown = keyword@;
    put(out, keyword);
    push_marker(is_regex, out);
    put(out, value_token_of(pattern));
    proof {
        assert(((before + seq![shown]) + marker_tokens(is_regex)) + seq![value_token(pattern@)]
            =~= before + (seq![shown] + marker_tokens(is_regex) + seq![value_token(pattern@)]));
    }
}

/// Adds the tokens of an element selector to `out`.
pub fn push_element_tokens(element: &ElementNode, out: &mut Vec<Token>)
    ensures
        kinds(final(out)@) == kinds(old(out)@) + element_tokens(element@),
{
    let ghost before = kinds(out@);
    match element {
        ElementNode::Class(v, r) => push_pattern(Token::Class, *r, v, out),
        ElementNode::Id(v, r) => push_pattern(Token::Id, *r, v, out),
        ElementNode::Tag(v, r) => push_pattern(Token::Tag, *r, v, out),
        ElementNode::Attr(name, value, r) => {
            push_pattern(Token::Attr, *r, name, out);
            match value {
                Some(v) => {
                    put(out, value_token_of(v));
                    proof {
                        assert((before + (seq![SpecToken::Attr] + marker_tokens(*r) + seq![
                            value_token(name@),
                        ])) + seq![value_token(v@)] =~= before + element_tokens(element@));
                    }
                },
                None => {},
            }
        },
    }
}

/// Adds the tokens of a text selector to `out`.
pub fn push_text_tokens(text: &TextNode, out: &mut Vec<Token>)
    ensures
        kinds(final(out)@) == kinds(old(out)@) + text_tokens(text@),
{
    match text {
        TextNode::Text => put(out, Token::Text),
        TextNode::Href => put(out, Token::Href),
        TextNode::Src => put(out, Token::Src),
        TextNode::AttrValue(name, r) => push_pattern(Token::Pound, *r, name, out),
    }
}

/// Adds the tokens of a selector to `out`.
pub fn push_selector_tokens(selector: &SelectorNode, out: &mut Vec<Token>)
    ensures
        kinds(final(out)@) == kinds(old(out)@) + selector_tokens(selector@),
{
    match selector {
        SelectorNode::ElementSelector(e) => push_element_tokens(e, out),
        SelectorNode::TextSelector(t) => push_text_tokens(t, out),
    }
}

/// Adds the tokens of a part of a range to `out`, where the part is given.
fn push_optional_literal(part: &Option<Literal>, out: &mut Vec<Token>)
    ensures
        kinds(final(out)@) == kinds(old(out)@) + optional_literal_tokens(
            optional_literal_view(*part),
        ),
{
    match part {
        Some(l) => push_literal_tokens(l, out),
        None => {
            proof {
                assert(kinds(out@) + Seq::<SpecToken>::empty() =~= kinds(out@));
            }
        },
    }
}

/// Adds the tokens of an index to `out`, with the colon that introduces it.
#[verifier::rlimit(50)]
pub fn push_index_tokens(index: &IndexNode, out: &mut Vec<Token>)
    ensures
        kinds(final(out)@) == kinds(old(out)@) + index_tokens(index@),
{
    let ghost before = kinds(out@);
    let ghost colon = seq![SpecToken::Colon];
    put(out, Token::Colon);
    match index {
        IndexNode::Single(l) => {
            push_literal_tokens(l, out);
            proof {
                assert((before + colon) + literal_tokens(l@) =~= before + index_tokens(index@));
            }
        },
        IndexNode::Multiple(items) => {
            if items.len() > 0 {
                let ghost all = literals_view(items@);
                push_literal_tokens(&items[0], out);
                push_more_literal_tokens(items, 1, out);
                proof {
                    assert(all[0] == items@[0]@);
                    assert(((before + colon) + literal_tokens(all[0])) + more_literal_tokens(
                        all,
                        1,
                    ) =~= before + index_tokens(index@));
                }
            }
        },
        IndexNode::Range(start, end, step) => {
            push_optional_literal(start, out);
            put(out, Token::Colon);
            let ghost head = kinds(out@);
            let ghost s = optional_literal_view(*start);
            let ghost e = optional_literal_view(*end);
            let ghost t = optional_literal_view(*step);
            match (end, step) {
                (Some(end), Some(step)) => {
                    push_literal_tokens(end, out);
                    put(out, Token::Colon);
                    push_literal_tokens(step, out);
                    proof {
                        assert(((head + literal_tokens(end@)) + colon) + literal_tokens(step@)
                            =~= head + range_tail_tokens(e, t));
                    }
                },
                (Some(end), None) => {
                    push_literal_tokens(end, out);
                },
                (None, Some(step)) => {
                    put(out, Token::Colon);
                    push_literal_tokens(step, out);
                    proof {
                        assert((head + colon) + literal_tokens(step@) =~= head
                            + range_tail_tokens(e, t));
                    }
                },
                (None, None) => {
                    put(out, Token::Colon);
                },
            }
            proof {
                assert((((before + colon) + optional_literal_tokens(s)) + colon)
                    + range_tail_tokens(e, t) =~= before + index_tokens(index@));
            }
        },
    }
}

/// Adds the tokens of a call of a function to `out`.
pub fn push_function_tokens(function: &FunctionNode, out: &mut Vec<Token>)
    ensures
        kinds(final(out)@) == kinds(old(out)@) + function_tokens(function@),
{
    let ghost before = kinds(out@);
    put(out, Token::Function(function.name.clone()));
    push_more_literal_tokens(&function.arguments, 0, out);
    proof {
        assert((before + seq![SpecToken::Function(function.name@)]) + more_literal_tokens(
            function@.arguments,
            0,
        ) =~= before + function_tokens(function@));
    }
}

/// The token of an operator.
fn token_of(operator: SetOperator) -> (token: Token)
    ensures
        token@ == operator_token(operator),
{
    match operator {
        SetOperator::Union => Token::Union,
        SetOperator::Intersection => Token::Intersection,
        SetOperator::Difference => Token::Difference,
    }
}

/// The operator and the two sides of a set operation.
fn sides(operation: &SetOperationNode) -> (r: (SetOperator, &Node, &Node))
    ensures
        operation@ == SpecNode::SetOperation(r.0, Box::new(r.1@), Box::new(r.2@)),
        decreases_to!(operation => r.1),
        decreases_to!(operation => r.2),
{
    match operation {
        SetOperationNode::Union(l, r) => (SetOperator::Union, l, r),
        SetOperationNode::Intersection(l, r) => (SetOperator::Intersection, l, r),
        SetOperationNode::Difference(l, r) => (SetOperator::Difference, l, r),
    }
}

/// Adds to `out` the tokens of a tree that stands as an operand of a
/// pipeline's right side.
#[verifier::rlimit(50)]
pub fn push_basic_tokens(node: &Node, out: &mut Vec<Token>)
    ensures
        kinds(final(out)@) == kinds(old(out)@) + basic_tokens(node@),
    decreases node, 0nat,
{
    let ghost before = kinds(out@);
    match node {
        Node::Selector(selector) => {
            push_selector_tokens(selector, out);
        },
        Node::IndexSelection(inner, index) => {
            push_basic_tokens(inner, out);
            push_index_tokens(index, out);
            proof {
                assert((before + basic_tokens(inner@)) + index_tokens(index@) =~= before
                    + basic_tokens(node@));
            }
        },
        Node::FunctionCall(inner, function) => {
            push_basic_tokens(inner, out);
            push_function_tokens(function, out);
            proof {
                assert((before + basic_tokens(inner@)) + function_tokens(function@) =~= before
                    + basic_tokens(node@));
            }
        },
        Node::Pipeline(left, right) => {
            put(out, Token::LeftParen);
            push_pipeline_tokens(left, out);
            put(out, Token::Pipeline);
            push_basic_tokens(right, out);
            put(out, Token::RightParen);
            proof {
                assert(((((before + seq![SpecToken::LeftParen]) + pipeline_tokens(left@)) + seq![
                    SpecToken::Pipeline,
                ]) + basic_tokens(right@)) + seq![SpecToken::RightParen] =~= before
                    + basic_tokens(node@));
            }
        },
        Node::SetOperation(operation) => {
            let (operator, left, right) = sides(operation);
            put(out, Token::LeftParen);
            push_set_tokens(left, out);
            put(out, token_of(operator));
            push_pipeline_tokens(right, out);
            put(out, Token::RightParen);
            proof {
                assert(node@ == operation@);
                assert(((((before + seq![SpecToken::LeftParen]) + set_tokens(left@)) + seq![
                    operator_token(operator),
                ]) + pipeline_tokens(right@)) + seq![SpecToken::RightParen] =~= before
                    + basic_tokens(node@));
            }
        },
    }
}

/// Adds to `out` the tokens of a tree that stands as a pipeline.
pub fn push_pipeline_tokens(node: &Node, out: &mut Vec<Token>)
    ensures
        kinds(final(out)@) == kinds(old(out)@) + pipeline_tokens(node@),
    decreases node, 1nat,
{
    let ghost before = kinds(out@);
    match node {
        Node::Pipeline(left, right) => {
            push_pipeline_tokens(left, out);
            put(out, Token::Pipeline);
            push_basic_tokens(right, out);
            proof {
                assert(((before + pipeline_tokens(left@)) + seq![SpecToken::Pipeline])
                    + basic_tokens(right@) =~= before + pipeline_tokens(node@));
            }
        },
        Node::SetOperation(operation) => {
            proof {
                assert(node@ == operation@);
                assert(node@ is SetOperation);
            }
            push_basic_tokens(node, out);
        },
        _ => {
            push_basic_tokens(node, out);
        },
    }
}

/// Adds to `out` the tokens of a tree that stands by itself.
pub fn push_set_tokens(node: &Node, out: &mut Vec<Token>)
    ensures
        kinds(final(out)@) == kinds(old(out)@) + set_tokens(node@),
    decreases node, 2nat,
{
    let ghost before = kinds(out@);
    match node {
        Node::SetOperation(operation) => {
            let (operator, left, right) = sides(operation);
            push_set_tokens(left, out);
            put(out, token_of(operator));
            push_pipeline_tokens(right, out);
            proof {
                assert(node@ == operation@);
                assert(((before + set_tokens(left@)) + seq![operator_token(operator)])
                    + pipeline_tokens(right@) =~= before + set_tokens(node@));
            }
        },
        _ => {
            push_pipeline_tokens(node, out);
        },
    }
}

impl Node {
    /// The tokens of the tree: those that parse to the tree again.
    pub fn to_tokens(&self) -> (tokens: Vec<Token>)
        ensures
            kinds(tokens@) == node_tokens(self@),
    {
        let mut tokens: Vec<Token> = Vec::new();
        proof {
            assert(kinds(tokens@) =~= Seq::<SpecToken>::empty());
            assert(Seq::<SpecToken>::empty() + node_tokens(self@) =~= node_tokens(self@));
        }
        push_set_tokens(self, &mut tokens);
        tokens
    }
}

/// A text with a backslash in front of every quote and every backslash in it.
pub open spec fn escaped_text(text: Seq<char>) -> Seq<char>
    decreases text.len(),
{
    if text.len() == 0 {
        text
    } else if text.last() == '"' || text.last() == '\\' {
        escaped_text(text.drop_last()).push('\\').push(text.last())
    } else {
        escaped_text(text.drop_last()).push(text.last())
    }
}

/// A token as it is written in a selector: a quoted argument in quotes and
/// with its escapes, the end of the input as nothing, any other token as its text.
pub open spec fn token_source(token: SpecToken) -> Seq<char> {
    match token {
        SpecToken::QuotedArgument(text) => seq!['"'] + escaped_text(text) + seq!['"'],
        SpecToken::EOF => Seq::empty(),
        _ => token_text(token),
    }
}

/// Whether what follows this token is written right behind it: a regex
/// marker, a pound sign, a minus sign, a colon or a comma.
pub open spec fn is_close_in_front(token: SpecToken) -> bool {
    token == SpecToken::Regex || token == SpecToken::Pound || token == SpecToken::Minus || token
        == SpecToken::Colon || token == SpecToken::Comma
}

/// Whether this token is written right behind what stands in front of it:
/// a colon or a comma.
pub open spec fn is_close_behind(token: SpecToken) -> bool {
    token == SpecToken::Colon || token == SpecToken::Comma
}

/// What is written between two tokens: nothing where one of them stands
/// close to the other, and one space otherwise.
pub open spec fn gap(front: SpecToken, behind: SpecToken) -> Seq<char> {
    if is_close_in_front(front) || is_close_behind(behind) {
        Seq::empty()
    } else {
        seq![' ']
    }
}

/// Tokens as they are written in a selector: one after the other, with a
/// space between two of them but around colons and commas and behind a
/// regex marker, a pound sign and a minus sign.
pub open spec fn tokens_source(tokens: Seq<SpecToken>) -> Seq<char>
    decreases tokens.len(),
{
    if tokens.len() == 0 {
        Seq::empty()
    } else if tokens.len() == 1 {
        token_source(tokens[0])
    } else {
        tokens_source(tokens.drop_last()) + gap(tokens[tokens.len() - 2], tokens.last())
            + token_source(tokens.last())
    }
}

/// A text in quotes, with a backslash in front of every quote and every backslash in it.
pub fn quote(text: &str) -> (s: String)
    ensures
        s@ == seq!['"'] + escaped_text(text@) + seq!['"'],
{
    let chars = chars_of(text);
    let mut s = String::new();
    s.push('"');
    let mut i: usize = 0;
    while i < chars.len()
        invariant
            i <= chars.len(),
            chars@ == text@,
            s@ == seq!['"'] + escaped_text(text@.take(i as int)),
        decreases chars.len() - i,
    {
        proof {
            let next = text@.take(i + 1);
            assert(next.drop_last() =~= text@.take(i as int));
            assert(next.last() == chars@[i as int]);
        }
        let c = chars[i];
        let ghost before = s@;
        if c == '"' || c == '\\' {
            s.push('\\');
        }
        s.push(c);
        proof {
            let done = escaped_text(text@.take(i as int));
            if c == '"' || c == '\\' {
                assert((seq!['"'] + done).push('\\').push(c) =~= seq!['"'] + done.push(
                    '\\',
                ).push(c));
            } else {
                assert((seq!['"'] + done).push(c) =~= seq!['"'] + done.push(c));
            }
        }
        i += 1;
    }
    proof {
        assert(text@.take(chars.len() as int) =~= text@);
    }
    let ghost inner = s@;
    s.push('"');
    proof {
        assert(inner.push('"') =~= inner + seq!['"']);
    }
    s
}

impl Token {
    /// The token as it is written in a selector.
    pub fn to_source(&self) -> (s: String)
        ensures
            s@ == token_source(self@),
    {
        match self {
            Token::QuotedArgument(text) => quote(text.as_str()),
            Token::EOF => String::new(),
            _ => self.to_text(),
        }
    }
}

/// Whether what follows `token` is written right behind it.
fn close_in_front(token: &Token) -> (b: bool)
    ensures
        b == is_close_in_front(token@),
{
    match token {
        Token::Regex | Token::Pound | Token::Minus | Token::Colon | Token::Comma => true,
        _ => false,
    }
}

/// Whether `token` is written right behind what stands in front of it.
fn close_behind(token: &Token) -> (b: bool)
    ensures
        b == is_close_behind(token@),
{
    match token {
        Token::Colon | Token::Comma => true,
        _ => false,
    }
}

/// The tokens as they are written in a selector.
pub fn source_of(tokens: &Vec<Token>) -> (s: String)
    ensures
        s@ == tokens_source(kinds(tokens@)),
{
    let mut s = String::new();
    let mut i: usize = 0;
    proof {
        assert(kinds(tokens@).take(0) =~= Seq::<SpecToken>::empty());
    }
    while i < tokens.len()
        invariant
            i <= tokens.len(),
            s@ == tokens_source(kinds(tokens@).take(i as int)),
        decreases tokens.len() - i,
    {
        proof {
            let next = kinds(tokens@).take(i + 1);
            assert(next.drop_last() =~= kinds(tokens@).take(i as int));
            assert(next.last() == tokens@[i as int]@);
            if i == 0 {
                assert(next[0] == tokens@[0]@);
            } else {
                assert(next[next.len() - 2] == tokens@[i - 1]@);
            }
            reveal_strlit(" ");
            assert(" "@ =~= seq![' ']);
        }
        let ghost before = s@;
        if i > 0 && !close_in_front(&tokens[i - 1]) && !close_behind(&tokens[i]) {
            s.append(" ");
        }
        let text = tokens[i].to_source();
        s.append(text.as_str());
        proof {
            assert(before + Seq::<char>::empty() =~= before);
            if i == 0 {
                assert(Seq::<char>::empty() + text@ =~= text@);
            }
        }
        i += 1;
    }
    proof {
        assert(kinds(tokens@).take(tokens.len() as int) =~= kinds(tokens@));
    }
    s
}

impl Literal {
    /// The literal as it is written in a selector.
    pub fn to_text(&self) -> (s: String)
        ensures
            s@ == tokens_source(literal_tokens(self@)),
    {
        let mut tokens: Vec<Token> = Vec::new();
        proof {
            assert(kinds(tokens@) =~= Seq::<SpecToken>::empty());
            assert(Seq::<SpecToken>::empty() + literal_tokens(self@) =~= literal_tokens(self@));
        }
        push_literal_tokens(self, &mut tokens);
        source_of(&tokens)
    }
}

impl ElementNode {
    /// The selector as it is written.
    pub fn to_text(&self) -> (s: String)
        ensures
            s@ == tokens_source(element_tokens(self@)),
    {
        let mut tokens: Vec<Token> = Vec::new();
        proof {
            assert(kinds(tokens@) =~= Seq::<SpecToken>::empty());
            assert(Seq::<SpecToken>::empty() + element_tokens(self@) =~= element_tokens(self@));
        }
        push_element_tokens(self, &mut tokens);
        source_of(&tokens)
    }
}

impl TextNode {
    /// The selector as it is written.
    pub fn to_text(&self) -> (s: String)
        ensures
            s@ == tokens_source(text_tokens(self@)),
    {
        let mut tokens: Vec<Token> = Vec::new();
        proof {
            assert(kinds(tokens@) =~= Seq::<SpecToken>::empty());
            assert(Seq::<SpecToken>::empty() + text_tokens(self@) =~= text_tokens(self@));
        }
        push_text_tokens(self, &mut tokens);
        source_of(&tokens)
    }
}

impl SelectorNode {
    /// The selector as it is written.
    pub fn to_text(&self) -> (s: String)
        ensures
            s@ == tokens_source(selector_tokens(self@)),
    {
        match self {
            SelectorNode::ElementSelector(e) => e.to_text(),
            SelectorNode::TextSelector(t) => t.to_text(),
        }
    }
}

impl IndexNode {
    /// The index as it is written, with the colon that introduces it.
    pub fn to_text(&self) -> (s: String)
        ensures
            s@ == tokens_source(index_tokens(self@)),
    {
        let mut tokens: Vec<Token> = Vec::new();
        proof {
            assert(kinds(tokens@) =~= Seq::<SpecToken>::empty());
            assert(Seq::<SpecToken>::empty() + index_tokens(self@) =~= index_tokens(self@));
        }
        push_index_tokens(self, &mut tokens);
        source_of(&tokens)
    }
}

impl FunctionNode {
    /// The call as it is written.
    pub fn to_text(&self) -> (s: String)
        ensures
            s@ == tokens_source(function_tokens(self@)),
    {
        let mut tokens: Vec<Token> = Vec::new();
        proof {
            assert(kinds(tokens@) =~= Seq::<SpecToken>::empty());
            assert(Seq::<SpecToken>::empty() + function_tokens(self@) =~= function_tokens(self@));
        }
        push_function_tokens(self, &mut tokens);
        source_of(&tokens)
    }
}

impl SetOperationNode {
    /// The set operation as it is written.
    pub fn to_text(&self) -> (s: String)
        ensures
            s@ == tokens_source(set_tokens(self@)),
    {
        let (operator, left, right) = sides(self);
        let mut tokens: Vec<Token> = Vec::new();
        proof {
            assert(kinds(tokens@) =~= Seq::<SpecToken>::empty());
        }
        push_set_tokens(left, &mut tokens);
        put(&mut tokens, token_of(operator));
        push_pipeline_tokens(right, &mut tokens);
        proof {
            assert(((Seq::<SpecToken>::empty() + set_tokens(left@)) + seq![
                operator_token(operator),
            ]) + pipeline_tokens(right@) =~= set_tokens(self@));
        }
        source_of(&tokens)
    }
}

impl Node {
    /// The tree as it is written: a selector text that parses to the tree again.
    pub fn to_text(&self) -> (s: String)
        ensures
            s@ == tokens_source(node_tokens(self@)),
    {
        let tokens = self.to_tokens();
        source_of(&tokens)
    }
}

} // verus!
