use html_select::interpreter::error::InterpreterError;
use html_select::interpreter::html::parse_html;
use html_select::interpreter::result::{NodeKind, SelectionResult};
use html_select::interpreter::Interpreter;

const PAGE: &str =
    "<div class=\"a\"><p>text 1</p><p>text 2</p></div><div class=\"b\"><p>text 3</p></div>";

fn texts_of(result: &SelectionResult) -> Vec<String> {
    match result {
        SelectionResult::Texts(texts) => texts.clone(),
        SelectionResult::Nodes(_) => panic!("expected texts"),
    }
}

#[test]
fn main_test() {
    let html = r#"
        <div class="a">
            <p>text 1</p>
            <p>text 2</p>
            <p>text 3</p>
        </div>
        <div class="b">
            <p>text 4</p>
            <p>text 5</p>
            <p>text 6</p>
        </div>
        "#;
    let mut it = Interpreter::new(html).unwrap();
    let result = it.select(r#"tag p > text @contains,"1""#).unwrap();
    assert_eq!(texts_of(&result), vec!["text 1".to_string()]);
}

#[test]
fn contains_keeps_the_matching_text() {
    let mut it = Interpreter::new(PAGE).unwrap();
    let result = it.select("tag p > text @contains,\"2\"").unwrap();
    assert_eq!(texts_of(&result), vec!["text 2".to_string()]);
}

#[test]
fn union_of_classes_gives_both_divs_in_document_order() {
    let mut it = Interpreter::new(PAGE).unwrap();
    let result = it.select("class a | class b").unwrap();
    let nodes = result.nodes().unwrap().clone();
    assert_eq!(nodes.len(), 2);
    assert!(nodes[0].id() < nodes[1].id());
    for node in &nodes {
        assert_eq!(node.kind, NodeKind::Element);
        assert_eq!(it.dom.node(node.id()).name, "div");
    }
    let again = it.select("class a | class a").unwrap();
    assert_eq!(again.count(), 1);
}

#[test]
fn first_and_last_index() {
    let mut it = Interpreter::new(PAGE).unwrap();
    let first = it.select("tag p:0 > text").unwrap();
    assert_eq!(texts_of(&first), vec!["text 1".to_string()]);
    let last = it.select("tag p:-1 > text").unwrap();
    assert_eq!(texts_of(&last), vec!["text 3".to_string()]);
    let first_node = it.select("tag p:0").unwrap();
    assert_eq!(first_node.count(), 1);
}

#[test]
fn element_after_text_is_rejected() {
    let mut it = Interpreter::new(PAGE).unwrap();
    let result = it.select("tag p > text > tag p");
    assert!(matches!(result, Err(InterpreterError::ParserError(_))));
}

#[test]
fn second_text_selector_is_rejected() {
    let mut it = Interpreter::new(PAGE).unwrap();
    let result = it.select("tag p > text > href");
    match result {
        Err(InterpreterError::ParserError(message)) => {
            assert!(message.contains("Multiple text query directives"));
        }
        _ => panic!("expected a parser error"),
    }
}

#[test]
fn parsed_document_is_in_source_order() {
    let doc = parse_html(PAGE).unwrap();
    assert_eq!(doc.node(0).kind, NodeKind::Document);
    assert!(doc.len() > 5);
}

#[test]
fn a_node_of_both_classes_is_selected_once() {
    let mut it =
        Interpreter::new("<div class=\"a b\"><p>x</p></div><div class=\"b\"></div>").unwrap();
    let both = it.select("class a | class b").unwrap();
    let nodes = both.nodes().unwrap().clone();
    assert_eq!(nodes.len(), 2);
    assert!(nodes[0].id() < nodes[1].id());
    let shared = it.select("class a & class b").unwrap();
    assert_eq!(shared.count(), 1);
    assert_eq!(shared.first_node().unwrap().id(), nodes[0].id());
    let only_b = it.select("class b ^ class a").unwrap();
    assert_eq!(only_b.count(), 1);
    assert_eq!(only_b.first_node().unwrap().id(), nodes[1].id());
    let none = it.select("class a ^ class a").unwrap();
    assert!(none.is_empty());
}
