use html_select::lexer::Token;
use html_select::parser::ast::{
    ElementNode, FunctionNode, IndexNode, Literal, Node, SelectorNode, TextNode,
};
use html_select::parser::render::{value_token_of, word_is_bare};
use html_select::parser::written::{
    name_is_function_name, token_can_be_written, tokens_can_be_written,
};
use html_select::parser::{parse, parse_tokens};

fn round_trip(input: &str) {
    let tree = parse(input).unwrap();
    let written = tree.to_text();
    assert_eq!(tree.to_selector(), Some(written.clone()));
    let again = parse(&written).unwrap();
    assert_eq!(again, tree);
    let mut tokens: Vec<(Token, usize, usize)> =
        tree.to_tokens().into_iter().map(|t| (t, 0, 0)).collect();
    tokens.push((Token::EOF, 0, 0));
    assert_eq!(parse_tokens(tokens).unwrap(), tree);
}

#[test]
fn selectors_come_back() {
    round_trip("tag p");
    round_trip("class a");
    round_trip("id \"main\"");
    round_trip("attr \"href\"");
    round_trip("attr \"href\" \"x y\"");
    round_trip("attr \"href\" ~\"^http\"");
    round_trip("tag ~\"^h[1-6]$\"");
    round_trip("tag p > text");
    round_trip("tag p > href");
    round_trip("tag img > src");
    round_trip("tag a > # title");
    round_trip("tag a > # ~\"^data\"");
}

#[test]
fn indices_come_back() {
    round_trip("tag p:0");
    round_trip("tag p:-1");
    round_trip("tag p:0,1,-2");
    round_trip("tag p:1:3");
    round_trip("tag p:1:3:2");
    round_trip("tag p::2");
    round_trip("tag p:1::");
    round_trip("tag p:1::-1");
    round_trip("tag p:::");
    round_trip("tag p:::-1");
    round_trip("tag p > text:0");
    round_trip("tag p:9223372036854775807");
    round_trip("tag p:-9223372036854775808");
}

#[test]
fn functions_come_back() {
    round_trip("tag p > text @trim");
    round_trip("tag p > text @replace,\"a\",\"b\" @uppercase");
    round_trip("tag p > text @in,[\"a\",\"b\",[\"c\"]]");
    round_trip("tag p > text:1:2 @slice,1,4 @join,\", \"");
    round_trip("tag p > text @contains,\"quote \\\" and backslash \\\\ and\nnewline\"");
    round_trip("tag p > text @format,word");
}

#[test]
fn shapes_come_back() {
    round_trip("tag a | tag b");
    round_trip("tag a | tag b & tag c ^ tag d");
    round_trip("tag a > tag b > tag c");
    round_trip("tag a > (tag b > tag c )");
    round_trip("(tag a | tag b ) > tag c");
    round_trip("tag a | (tag b | tag c )");
    round_trip("tag a | tag b > tag c");
    round_trip("((tag a ))");
    round_trip("(tag a > text | tag b > href ) > tag c:0 > text @trim");
    round_trip("tag a > ((tag b | tag c:1 ) > (tag d ^ tag e ) )");
}

#[test]
fn written_text() {
    assert_eq!(parse("tag p > text @contains,\"2\"").unwrap().to_text(), "tag p > text @contains,\"2\"");
    assert_eq!(parse("class a | class b").unwrap().to_text(), "class a | class b");
    assert_eq!(parse("tag p:-1").unwrap().to_text(), "tag p:-1");
    assert_eq!(parse("(tag a | tag b ) > tag c").unwrap().to_text(), "( tag a | tag b ) > tag c");
    assert_eq!(parse("tag p:1::").unwrap().to_text(), "tag p:1::");
    assert_eq!(parse("tag p:0,2").unwrap().to_text(), "tag p:0,2");
    assert_eq!(parse("tag p:1:3").unwrap().to_text(), "tag p:1:3");
    assert_eq!(parse("class ~\"^a\"").unwrap().to_text(), "class ~\"^a\"");
    assert_eq!(parse("class ~a.*").unwrap().to_text(), "class ~a.*");
    assert_eq!(parse("tag a > #title").unwrap().to_text(), "tag a > #title");
    assert_eq!(parse("tag a > #~data").unwrap().to_text(), "tag a > #~data");
    assert_eq!(parse("attr ~data").unwrap().to_text(), "attr ~data");
    assert_eq!(parse("attr ~data x").unwrap().to_text(), "attr ~data x");
    assert_eq!(parse("attr data ~x").unwrap().to_text(), "attr ~data x");
    assert_eq!(
        parse("tag p > text @replace,a,b @trim").unwrap().to_text(),
        "tag p > text @replace,a,b @trim"
    );
    assert_eq!(parse("tag \"class\"").unwrap().to_text(), "tag \"class\"");
    assert_eq!(parse("tag \"a b\"").unwrap().to_text(), "tag \"a b\"");
    assert_eq!(parse("tag \"7\"").unwrap().to_text(), "tag \"7\"");
    assert_eq!(parse("tag \"-x\"").unwrap().to_text(), "tag \"-x\"");
    assert_eq!(parse("tag \"x)\"").unwrap().to_text(), "tag x)");
}

#[test]
fn parts_are_written() {
    assert_eq!(ElementNode::Class("a".to_string(), true).to_text(), "class ~a");
    assert_eq!(
        ElementNode::Attr("href".to_string(), Some("x".to_string()), false).to_text(),
        "attr \"href\" x"
    );
    assert_eq!(TextNode::AttrValue("t".to_string(), false).to_text(), "#t");
    assert_eq!(TextNode::Text.to_text(), "text");
    assert_eq!(
        SelectorNode::TextSelector(TextNode::Href).to_text(),
        "href"
    );
    assert_eq!(
        IndexNode::Multiple(vec![Literal::Int(1), Literal::Int(-2)]).to_text(),
        ":1,-2"
    );
    assert_eq!(
        IndexNode::Range(None, Some(Literal::Int(2)), Some(Literal::Int(1))).to_text(),
        "::2:1"
    );
    assert_eq!(
        FunctionNode { name: "join".to_string(), arguments: vec![Literal::Str(",".to_string())] }
            .to_text(),
        "@join,\",\""
    );
    assert_eq!(
        Literal::List(vec![Literal::Bool(true), Literal::Float("1.5".to_string()), Literal::Nil])
            .to_text(),
        "[ true,1.5,]"
    );
    let tree = Node::Selector(Box::new(SelectorNode::TextSelector(TextNode::Src)));
    assert_eq!(tree.to_text(), "src");
    assert_eq!(tree.to_tokens(), vec![Token::Src]);
}

#[test]
fn what_the_lexer_reads_again() {
    assert!(name_is_function_name("trim"));
    assert!(name_is_function_name("a_1"));
    assert!(!name_is_function_name(""));
    assert!(!name_is_function_name("1a"));
    assert!(!name_is_function_name("_a"));
    assert!(!name_is_function_name("a-b"));
    assert!(!name_is_function_name("\u{e9}"));
    assert!(token_can_be_written(&Token::Tag));
    assert!(token_can_be_written(&Token::Minus));
    assert!(token_can_be_written(&Token::Number(7)));
    assert!(token_can_be_written(&Token::QuotedArgument("a \" b".to_string())));
    assert!(token_can_be_written(&Token::Function("trim".to_string())));
    assert!(!token_can_be_written(&Token::Function("1".to_string())));
    assert!(!token_can_be_written(&Token::Float("1.5".to_string())));
    assert!(!token_can_be_written(&Token::Bool(true)));
    assert!(token_can_be_written(&Token::Argument("p".to_string())));
    assert!(!token_can_be_written(&Token::Argument("class".to_string())));
    assert!(!token_can_be_written(&Token::Argument("a b".to_string())));
    assert!(!token_can_be_written(&Token::Argument("1a".to_string())));
    assert!(!token_can_be_written(&Token::Argument("".to_string())));
    assert!(!token_can_be_written(&Token::EOF));
    assert!(tokens_can_be_written(&vec![Token::Tag, Token::QuotedArgument("p".to_string())]));
    assert!(tokens_can_be_written(&vec![Token::Tag, Token::Argument("p".to_string())]));
    assert!(!tokens_can_be_written(&vec![Token::Tag, Token::Argument("p:q".to_string())]));
    assert!(tokens_can_be_written(&vec![]));
}

#[test]
fn trees_that_cannot_be_written() {
    let text = Node::Selector(Box::new(SelectorNode::TextSelector(TextNode::Text)));
    let with_float = Node::FunctionCall(
        Box::new(text),
        FunctionNode { name: "f".to_string(), arguments: vec![Literal::Float("1.5".to_string())] },
    );
    assert_eq!(with_float.to_selector(), None);
    assert_eq!(with_float.to_text(), "text @f,1.5");
    let text = Node::Selector(Box::new(SelectorNode::TextSelector(TextNode::Text)));
    let bad_name = Node::FunctionCall(
        Box::new(text),
        FunctionNode { name: "a b".to_string(), arguments: vec![] },
    );
    assert_eq!(bad_name.to_selector(), None);
    let element = Node::Selector(Box::new(SelectorNode::ElementSelector(ElementNode::Tag(
        "a b > c".to_string(),
        false,
    ))));
    let written = element.to_selector().unwrap();
    assert_eq!(written, "tag \"a b > c\"");
    assert_eq!(parse(&written).unwrap(), element);
    let index = Node::IndexSelection(
        Box::new(Node::Selector(Box::new(SelectorNode::TextSelector(TextNode::Href)))),
        Box::new(IndexNode::Single(Literal::Int(i64::MIN))),
    );
    let written = index.to_selector().unwrap();
    assert_eq!(written, "href:-9223372036854775808");
    assert_eq!(parse(&written).unwrap(), index);
}

#[test]
fn words_that_stand_without_quotes() {
    for word in ["p", "a1", "x)", "main-content", "a.b", "caf\u{e9}", "true", "_x", "a|b"] {
        assert!(word_is_bare(word), "{}", word);
        assert_eq!(value_token_of(&word.to_string()), Token::Argument(word.to_string()));
        let tree = Node::Selector(Box::new(SelectorNode::ElementSelector(ElementNode::Tag(
            word.to_string(),
            false,
        ))));
        assert_eq!(tree.to_text(), format!("tag {}", word));
        assert_eq!(parse(&tree.to_text()).unwrap(), tree);
    }
    for word in [
        "", "class", "id", "tag", "attr", "text", "src", "href", "a b", "a:b", "a,b", "a>b",
        "a@b", "a\"b", "1a", "-x", "~x", "#x", "(x", ")x", "[x", "]x", "|x", "&x", "^x",
        "a\u{a0}b", "a\nb", "\tx", "a\u{3000}",
    ] {
        assert!(!word_is_bare(word), "{}", word);
        assert_eq!(
            value_token_of(&word.to_string()),
            Token::QuotedArgument(word.to_string())
        );
    }
    for word in ["class", "a b", "a:b", "1a", "-x", "a\u{a0}b", "a\"b\\c"] {
        let tree = Node::Selector(Box::new(SelectorNode::ElementSelector(ElementNode::Tag(
            word.to_string(),
            false,
        ))));
        assert_eq!(parse(&tree.to_selector().unwrap()).unwrap(), tree);
    }
}
