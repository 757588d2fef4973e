use html_select::lexer::{tokenize, Token};
use html_select::parser::ast::{
    ElementNode, FunctionNode, IndexNode, Literal, Node, SelectorNode, SetOperationNode, TextNode,
};
use html_select::parser::error::{ParseError, ParseErrorKind};
use html_select::parser::literal::{negate, negate_float_text, parse_literal, wrap_number};
use html_select::parser::validate::SyntaxValidator;
use html_select::parser::{parse, parse_tokens, Parser};

fn tag(name: &str) -> Node {
    Node::Selector(Box::new(SelectorNode::ElementSelector(ElementNode::Tag(
        name.to_string(),
        false,
    ))))
}

fn class(name: &str) -> Node {
    Node::Selector(Box::new(SelectorNode::ElementSelector(ElementNode::Class(
        name.to_string(),
        false,
    ))))
}

fn text() -> Node {
    Node::Selector(Box::new(SelectorNode::TextSelector(TextNode::Text)))
}

fn pipe(left: Node, right: Node) -> Node {
    Node::Pipeline(Box::new(left), Box::new(right))
}

fn union(left: Node, right: Node) -> Node {
    Node::SetOperation(Box::new(SetOperationNode::Union(Box::new(left), Box::new(right))))
}

fn index(node: Node, index: IndexNode) -> Node {
    Node::IndexSelection(Box::new(node), Box::new(index))
}

fn call(node: Node, name: &str, arguments: Vec<Literal>) -> Node {
    Node::FunctionCall(Box::new(node), FunctionNode { name: name.to_string(), arguments })
}

fn s(text: &str) -> Literal {
    Literal::Str(text.to_string())
}

fn kind_of(input: &str) -> ParseErrorKind {
    parse(input).unwrap_err().kind
}

#[test]
fn element_selectors() {
    assert_eq!(parse("tag p").unwrap(), tag("p"));
    assert_eq!(parse("class \"a b\"").unwrap(), class("a b"));
    assert_eq!(
        parse("id ~\"^x\"").unwrap(),
        Node::Selector(Box::new(SelectorNode::ElementSelector(ElementNode::Id(
            "^x".to_string(),
            true
        ))))
    );
    assert_eq!(
        parse("attr \"href\"").unwrap(),
        Node::Selector(Box::new(SelectorNode::ElementSelector(ElementNode::Attr(
            "href".to_string(),
            None,
            false
        ))))
    );
    assert_eq!(
        parse("attr \"href\" ~\"^http\"").unwrap(),
        Node::Selector(Box::new(SelectorNode::ElementSelector(ElementNode::Attr(
            "href".to_string(),
            Some("^http".to_string()),
            true
        ))))
    );
    assert_eq!(
        parse("attr ~data x").unwrap(),
        Node::Selector(Box::new(SelectorNode::ElementSelector(ElementNode::Attr(
            "data".to_string(),
            Some("x".to_string()),
            true
        ))))
    );
    assert_eq!(
        parse("attr ~data").unwrap(),
        Node::Selector(Box::new(SelectorNode::ElementSelector(ElementNode::Attr(
            "data".to_string(),
            None,
            true
        ))))
    );
    assert_eq!(
        parse("attr data").unwrap(),
        Node::Selector(Box::new(SelectorNode::ElementSelector(ElementNode::Attr(
            "data".to_string(),
            None,
            false
        ))))
    );
}

#[test]
fn text_selectors() {
    assert_eq!(parse("text").unwrap(), text());
    assert_eq!(
        parse("href").unwrap(),
        Node::Selector(Box::new(SelectorNode::TextSelector(TextNode::Href)))
    );
    assert_eq!(
        parse("src").unwrap(),
        Node::Selector(Box::new(SelectorNode::TextSelector(TextNode::Src)))
    );
    assert_eq!(
        parse("# title").unwrap(),
        Node::Selector(Box::new(SelectorNode::TextSelector(TextNode::AttrValue(
            "title".to_string(),
            false
        ))))
    );
    assert_eq!(
        parse("# ~\"^data\"").unwrap(),
        Node::Selector(Box::new(SelectorNode::TextSelector(TextNode::AttrValue(
            "^data".to_string(),
            true
        ))))
    );
}

#[test]
fn pipelines_group_from_the_left() {
    assert_eq!(
        parse("tag a > tag b > tag c").unwrap(),
        pipe(pipe(tag("a"), tag("b")), tag("c"))
    );
}

#[test]
fn set_operations_group_from_the_left_and_bind_looser_than_pipelines() {
    assert_eq!(
        parse("tag a | tag b > tag c").unwrap(),
        union(tag("a"), pipe(tag("b"), tag("c")))
    );
    assert_eq!(
        parse("tag a | tag b & tag c ^ tag d").unwrap(),
        Node::SetOperation(Box::new(SetOperationNode::Difference(
            Box::new(Node::SetOperation(Box::new(SetOperationNode::Intersection(
                Box::new(union(tag("a"), tag("b"))),
                Box::new(tag("c"))
            )))),
            Box::new(tag("d"))
        )))
    );
}

#[test]
fn parentheses_group() {
    assert_eq!(
        parse("(tag a | tag b ) > tag c").unwrap(),
        pipe(union(tag("a"), tag("b")), tag("c"))
    );
    assert_eq!(
        parse("tag a > (tag b > tag c )").unwrap(),
        pipe(tag("a"), pipe(tag("b"), tag("c")))
    );
    assert_eq!(parse("((tag a ))").unwrap(), tag("a"));
}

#[test]
fn single_indices() {
    assert_eq!(parse("tag p:0").unwrap(), index(tag("p"), IndexNode::Single(Literal::Int(0))));
    assert_eq!(parse("tag p:-1").unwrap(), index(tag("p"), IndexNode::Single(Literal::Int(-1))));
    assert_eq!(parse("tag p:\"x\"").unwrap(), index(tag("p"), IndexNode::Single(s("x"))));
}

#[test]
fn several_indices() {
    assert_eq!(
        parse("tag p:0,2,-1").unwrap(),
        index(
            tag("p"),
            IndexNode::Multiple(vec![Literal::Int(0), Literal::Int(2), Literal::Int(-1)])
        )
    );
}

#[test]
fn ranges() {
    assert_eq!(
        parse("tag p:1:3").unwrap(),
        index(tag("p"), IndexNode::Range(Some(Literal::Int(1)), Some(Literal::Int(3)), None))
    );
    assert_eq!(
        parse("tag p:1:3:2").unwrap(),
        index(
            tag("p"),
            IndexNode::Range(Some(Literal::Int(1)), Some(Literal::Int(3)), Some(Literal::Int(2)))
        )
    );
    assert_eq!(
        parse("tag p::2").unwrap(),
        index(tag("p"), IndexNode::Range(None, Some(Literal::Int(2)), None))
    );
    assert_eq!(
        parse("tag p:1::").unwrap(),
        index(tag("p"), IndexNode::Range(Some(Literal::Int(1)), None, None))
    );
    assert_eq!(
        parse("tag p:1::-1").unwrap(),
        index(tag("p"), IndexNode::Range(Some(Literal::Int(1)), None, Some(Literal::Int(-1))))
    );
    assert_eq!(
        parse("tag p:::").unwrap(),
        index(tag("p"), IndexNode::Range(None, None, None))
    );
    assert_eq!(
        parse("tag p:::2").unwrap(),
        index(tag("p"), IndexNode::Range(None, None, Some(Literal::Int(2))))
    );
    assert_eq!(kind_of("tag p:1:"), ParseErrorKind::UnexpectedToken);
}

#[test]
fn function_calls_chain_on_text_selectors() {
    assert_eq!(
        parse("text @trim @replace,\"a\",\"b\"").unwrap(),
        call(call(text(), "trim", vec![]), "replace", vec![s("a"), s("b")])
    );
    assert_eq!(
        parse("tag p > text:0 @in,[\"a\",\"b\"]").unwrap(),
        pipe(
            tag("p"),
            call(
                index(text(), IndexNode::Single(Literal::Int(0))),
                "in",
                vec![Literal::List(vec![s("a"), s("b")])]
            )
        )
    );
    assert_eq!(
        parse("text @slice,1,4").unwrap(),
        call(text(), "slice", vec![Literal::Int(1), Literal::Int(4)])
    );
    assert_eq!(parse("text @join,x").unwrap(), call(text(), "join", vec![s("x")]));
}

#[test]
fn functions_do_not_follow_element_selectors() {
    assert_eq!(kind_of("tag p @trim"), ParseErrorKind::UnexpectedToken);
}

#[test]
fn unexpected_tokens() {
    let e = parse("tag").unwrap_err();
    assert_eq!(e.kind, ParseErrorKind::UnexpectedToken);
    assert_eq!(e.message, "Expected selector argument but found EOF");
    assert_eq!(e.line, 1);
    assert_eq!(e.column, 4);
    assert_eq!(
        e.recovery_hint,
        Some("Please check if selector argument is missing here".to_string())
    );
    let e = parse("").unwrap_err();
    assert_eq!(e.message, "Expected selector but found EOF");
    let e = parse("tag p tag q").unwrap_err();
    assert_eq!(e.message, "Expected EOF but found tag");
    assert_eq!((e.line, e.column), (1, 6));
    let e = parse("(tag p").unwrap_err();
    assert_eq!(e.message, "Expected right parenthesis ')' but found EOF");
    let e = parse("tag p:-x").unwrap_err();
    assert_eq!(e.message, "Expected int or float but found x");
    let e = parse("text @in,[\"a\"").unwrap_err();
    assert_eq!(e.message, "Expected ] but found EOF");
    let e = parse("tag p:>").unwrap_err();
    assert_eq!(e.message, "Expected str, int, float, and bool but found >");
    let e = parse("# >").unwrap_err();
    assert_eq!(e.message, "Expected attribute name but found >");
}

#[test]
fn empty_values_are_invalid() {
    let e = parse("tag \"\"").unwrap_err();
    assert_eq!(e.kind, ParseErrorKind::InvalidSelectorValue);
    assert_eq!(e.message, "Invalid selector value: empty value");
    let e = parse("attr \"\"").unwrap_err();
    assert_eq!(e.kind, ParseErrorKind::InvalidSelectorValue);
    assert_eq!(e.message, "Invalid selector value: empty attribute name");
}

#[test]
fn nesting_is_limited() {
    let mut deep = String::new();
    for _ in 0..101 {
        deep.push('(');
    }
    deep.push_str("tag p");
    for _ in 0..101 {
        deep.push(')');
    }
    let e = parse(&deep).unwrap_err();
    assert_eq!(e.kind, ParseErrorKind::NestingTooDeep);
    assert_eq!(e.message, "Expression nesting exceeds maximum depth (100)");
    let mut fine = String::new();
    for _ in 0..100 {
        fine.push('(');
    }
    fine.push_str("tag p");
    for _ in 0..100 {
        fine.push_str(" )");
    }
    assert_eq!(parse(&fine).unwrap(), tag("p"));
}

#[test]
fn a_closing_parenthesis_needs_a_space_in_front() {
    let e = parse("(tag p)").unwrap_err();
    assert_eq!(e.message, "Expected right parenthesis ')' but found EOF");
    assert_eq!(parse("(tag \"p\")").unwrap(), tag("p"));
    let e = parse("attr href").unwrap_err();
    assert_eq!(e.message, "Expected selector argument but found href");
}

#[test]
fn the_first_error_is_the_one_reported() {
    let e = parse("tag > class a").unwrap_err();
    assert_eq!(e.message, "Expected selector argument but found >");
}

#[test]
fn recovery_takes_up_behind_a_stray_parenthesis() {
    assert_eq!(parse(") tag p").unwrap(), tag("p"));
}

#[test]
fn recovery_must_reach_the_end_of_the_input() {
    let first = parse(")").unwrap_err();
    let e = parse(") tag p )").unwrap_err();
    assert_eq!(e.kind, ParseErrorKind::UnexpectedToken);
    assert_eq!(e.message, first.message);
    assert_eq!((e.line, e.column), (first.line, first.column));
    assert_eq!(kind_of(") tag p tag q"), ParseErrorKind::UnexpectedToken);
}

#[test]
fn validation_errors() {
    assert_eq!(kind_of("text > tag p"), ParseErrorKind::ElementAfterTextSelector);
    assert_eq!(kind_of("tag p > text > href"), ParseErrorKind::MultipleTextSelectors);
    assert_eq!(kind_of("tag p > text > tag p"), ParseErrorKind::ElementAfterTextSelector);
    assert_eq!(kind_of("tag p > text | text > href"), ParseErrorKind::MultipleTextSelectors);
    assert!(parse("tag p > text | tag q > href").is_ok());
    assert!(parse("(tag p > text | tag q > href ) > tag a > text").is_ok());
    let e = parse("text > text").unwrap_err();
    assert_eq!(e.message, "Query operation can only contain one text query directive");
    assert_eq!((e.line, e.column), (0, 0));
}

#[test]
fn validator_by_hand() {
    let tree = pipe(text(), tag("p"));
    let mut validator = SyntaxValidator::new();
    validator.set_position(3, 7);
    let e = validator.validate(&tree).unwrap_err();
    assert_eq!(e.kind, ParseErrorKind::ElementAfterTextSelector);
    assert_eq!((e.line, e.column), (3, 7));
    assert_eq!(
        e.message,
        "Element query directives cannot appear after text query directives"
    );
    let mut validator = SyntaxValidator::new();
    assert!(validator.validate(&pipe(tag("p"), text())).is_ok());
    assert!(validator.validate(&text()).is_err());
}

#[test]
fn literals_from_tokens() {
    let mut parser = Parser::new(vec![
        (Token::Minus, 1, 1),
        (Token::Float("1.5".to_string()), 1, 2),
        (Token::EOF, 1, 5),
    ]);
    assert_eq!(parse_literal(&mut parser).unwrap(), Literal::Float("-1.5".to_string()));
    let mut parser = Parser::new(vec![(Token::Bool(true), 1, 1)]);
    assert_eq!(parse_literal(&mut parser).unwrap(), Literal::Bool(true));
    let mut parser = Parser::new(vec![(Token::Float("2.0".to_string()), 1, 1)]);
    assert_eq!(parse_literal(&mut parser).unwrap(), Literal::Float("2.0".to_string()));
    let mut parser = Parser::new(vec![(Token::Number(usize::MAX), 1, 1)]);
    assert_eq!(parse_literal(&mut parser).unwrap(), Literal::Int(wrap_number(usize::MAX)));
    let mut parser = Parser::new(vec![]);
    let e = parse_literal(&mut parser).unwrap_err();
    assert_eq!((e.line, e.column), (1, 0));
}

#[test]
fn numbers_wrap_to_64_bits() {
    assert_eq!(wrap_number(0), 0);
    assert_eq!(wrap_number(41), 41);
    assert_eq!(wrap_number(i64::MAX as usize), i64::MAX);
    assert_eq!(negate(5), -5);
    assert_eq!(negate(-5), 5);
    assert_eq!(negate(i64::MIN), i64::MIN);
    assert_eq!(negate_float_text("1.5"), "-1.5");
    assert_eq!(negate_float_text("-1.5"), "1.5");
    assert_eq!(negate_float_text(""), "-");
}

#[test]
fn parser_methods() {
    let mut parser = Parser::new(tokenize("tag p"));
    assert!(parser.check_token(&Token::Tag));
    assert!(!parser.check_token(&Token::Class));
    assert_eq!(parser.get_current_token_str(), "tag");
    assert_eq!(parser.get_current_position(), (1, 1));
    assert!(parser.consume_token(&Token::Tag).is_ok());
    let e = parser.consume_token(&Token::Colon).unwrap_err();
    assert_eq!(e.message, "Expected : but found p");
    assert!(parser.check_token(&Token::Argument("p".to_string())));
    parser.read_token();
    parser.read_token();
    parser.read_token();
    assert_eq!(parser.get_current_token_str(), "EOF");
    assert_eq!(parser.get_current_position(), (1, 6));
    assert!(parser.check_depth().is_ok());
    parser.decrease_depth();
    parser.decrease_depth();
    assert!(parser.try_recover().is_ok());
}

#[test]
fn parse_tokens_needs_no_end_token() {
    let tokens = vec![(Token::Tag, 1, 1), (Token::Argument("p".to_string()), 1, 5)];
    assert_eq!(parse_tokens(tokens).unwrap(), tag("p"));
}

#[test]
fn error_constructors_and_text() {
    let e = ParseError::new(ParseErrorKind::SyntaxError, "m".to_string(), 2, 3, None);
    assert_eq!(e.to_text(), "Parse error (line 2, column 3): Syntax error - m");
    let e = ParseError::unexpected_token("a", "b", 1, 2);
    assert_eq!(
        e.to_text(),
        "Parse error (line 1, column 2): Unexpected token - Expected a but found b\nHint: Please check if a is missing here"
    );
    let e = ParseError::syntax_error("bad", 4, 5);
    assert_eq!(e.kind, ParseErrorKind::SyntaxError);
    assert_eq!(e.recovery_hint, None);
    let e = ParseError::invalid_selector_value("v", 1, 1);
    assert_eq!(e.message, "Invalid selector value: v");
    let e = ParseError::nesting_too_deep(100, 1, 1);
    assert_eq!(e.message, "Expression nesting exceeds maximum depth (100)");
    let e = ParseError::multiple_text_selectors(1, 1);
    assert_eq!(e.kind.to_text(), "Multiple text query directives");
    let e = ParseError::element_after_text_selector(1, 1);
    assert_eq!(e.kind.to_text(), "Element query after text query");
    assert_eq!(ParseErrorKind::UnexpectedToken.to_text(), "Unexpected token");
    assert_eq!(ParseErrorKind::InvalidSelectorValue.to_text(), "Invalid selector value");
    assert_eq!(ParseErrorKind::NestingTooDeep.to_text(), "Nesting level too deep");
}
