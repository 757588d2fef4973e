use html_select::interpreter::element::{apply_element_selector, select_elements};
use html_select::interpreter::error::InterpreterError;
use html_select::interpreter::function::{
    apply_function, call_function, contains, ends_with, evaluate_function, float_format, in_,
    join, lowercase, replace, slice, starts_with, trim, uppercase,
};
use html_select::interpreter::html::{
    extract_text, find_by_attr, find_by_class, find_by_id, find_by_tag, find_by_value,
    get_all_attributes, get_attribute, get_children, get_href, get_src, leaf, parse_html,
    Document,
};
use html_select::interpreter::index::{apply_index_selection, evaluate_index, resolve_index};
use html_select::interpreter::pipeline::apply_pipeline;
use html_select::interpreter::result::{NodeHandle, NodeKind, SelectionResult};
use html_select::interpreter::set::{
    apply_set_operation, combine, difference_nodes, difference_texts, intersection_nodes,
    intersection_texts, union_nodes, union_texts,
};
use html_select::interpreter::text::apply_text_selector;
use html_select::interpreter::{evaluate, Interpreter};
use html_select::parser::ast::{
    ElementNode, FunctionNode, IndexNode, Literal, Node, SelectorNode, SetOperationNode,
    SetOperator, TextNode,
};

fn attrs(pairs: &[(&str, &str)]) -> Vec<(String, String)> {
    pairs.iter().map(|(n, v)| (n.to_string(), v.to_string())).collect()
}

fn element(name: &str, pairs: &[(&str, &str)]) -> html_select::interpreter::html::DomNode {
    leaf(NodeKind::Element, name, attrs(pairs), "")
}

fn text_node(text: &str) -> html_select::interpreter::html::DomNode {
    leaf(NodeKind::Text, "", Vec::new(), text)
}

fn sample() -> Document {
    let mut doc = Document::new();
    doc.add_child(0, element("html", &[])).unwrap();
    doc.add_child(1, element("div", &[("class", "a main"), ("id", "first")])).unwrap();
    doc.add_child(2, element("p", &[("title", "one")])).unwrap();
    doc.add_child(3, text_node("text 1")).unwrap();
    doc.add_child(2, element("p", &[("class", "x")])).unwrap();
    doc.add_child(5, text_node(" Text 2 ")).unwrap();
    doc.add_child(2, element("a", &[("href", "http://e.com/1"), ("title", "link")])).unwrap();
    doc.add_child(7, text_node("go")).unwrap();
    doc.add_child(1, element("div", &[("class", "b"), ("id", "second")])).unwrap();
    doc.add_child(9, element("p", &[])).unwrap();
    doc.add_child(10, text_node("text 3")).unwrap();
    doc.add_child(9, element("img", &[("src", "/i.png")])).unwrap();
    doc.add_child(9, leaf(NodeKind::Comment, "", Vec::new(), "c")).unwrap();
    doc
}

fn session() -> Interpreter {
    Interpreter::from_document(sample())
}

fn ids(result: &SelectionResult) -> Vec<usize> {
    match result {
        SelectionResult::Nodes(nodes) => nodes.iter().map(|n| n.id()).collect(),
        SelectionResult::Texts(_) => panic!("expected nodes"),
    }
}

fn texts(result: &SelectionResult) -> Vec<String> {
    match result {
        SelectionResult::Texts(texts) => texts.clone(),
        SelectionResult::Nodes(_) => panic!("expected texts"),
    }
}

fn strings(items: &[&str]) -> Vec<String> {
    items.iter().map(|s| s.to_string()).collect()
}

fn select_ids(selector: &str) -> Vec<usize> {
    ids(&session().select(selector).unwrap())
}

fn select_texts(selector: &str) -> Vec<String> {
    texts(&session().select(selector).unwrap())
}

fn select_error(selector: &str) -> InterpreterError {
    session().select(selector).unwrap_err()
}

fn handle(index: usize, kind: NodeKind) -> NodeHandle {
    NodeHandle { index, kind }
}

#[test]
fn document_by_hand() {
    let doc = sample();
    assert_eq!(doc.len(), 14);
    assert_eq!(doc.root(), handle(0, NodeKind::Document));
    assert_eq!(doc.handle_of(3), Some(handle(3, NodeKind::Element)));
    assert_eq!(doc.handle_of(14), None);
    assert_eq!(doc.node(2).children, vec![3, 5, 7]);
    assert_eq!(doc.node(2).name, "div");
    let mut doc = Document::new();
    assert_eq!(doc.add_child(5, element("p", &[])), None);
    let mut parent = element("p", &[]);
    parent.children.push(0);
    assert_eq!(doc.add_child(0, parent), None);
    assert_eq!(doc.len(), 1);
    assert_eq!(doc.add_child(0, element("p", &[])), Some(handle(1, NodeKind::Element)));
}

#[test]
fn handles() {
    let h = handle(3, NodeKind::Element);
    assert_eq!(h.id(), 3);
    assert!(h.is_element());
    assert!(!h.is_text());
    assert_eq!(h.node_type(), "Element");
    assert_eq!(handle(0, NodeKind::Document).node_type(), "Document");
    assert_eq!(handle(0, NodeKind::Text).node_type(), "Text");
    assert!(handle(0, NodeKind::Text).is_text());
    assert_eq!(handle(0, NodeKind::Comment).node_type(), "Comment");
    assert_eq!(handle(0, NodeKind::Doctype).node_type(), "Doctype");
    assert_eq!(
        handle(0, NodeKind::ProcessingInstruction).node_type(),
        "ProcessingInstruction"
    );
}

#[test]
fn searches_in_the_document() {
    let doc = sample();
    let root = doc.root();
    let found = find_by_tag(&doc, &root, "p", false).unwrap();
    assert_eq!(found, vec![
        handle(3, NodeKind::Element),
        handle(5, NodeKind::Element),
        handle(10, NodeKind::Element)
    ]);
    let in_b = find_by_tag(&doc, &handle(9, NodeKind::Element), "p", false).unwrap();
    assert_eq!(in_b, vec![handle(10, NodeKind::Element)]);
    assert_eq!(find_by_tag(&doc, &root, "^(p|a)$", true).unwrap().len(), 4);
    assert_eq!(find_by_class(&doc, &root, "main", false).unwrap(), vec![handle(2, NodeKind::Element)]);
    assert_eq!(find_by_class(&doc, &root, "a main", false).unwrap(), vec![]);
    assert_eq!(find_by_class(&doc, &root, "^ma", true).unwrap(), vec![handle(2, NodeKind::Element)]);
    assert_eq!(find_by_id(&doc, &root, "second", false).unwrap(), vec![handle(9, NodeKind::Element)]);
    assert_eq!(find_by_id(&doc, &root, "s", true).unwrap().len(), 2);
    assert_eq!(find_by_attr(&doc, &root, "title", None, false).unwrap().len(), 2);
    assert_eq!(
        find_by_attr(&doc, &root, "title", Some("link"), false).unwrap(),
        vec![handle(7, NodeKind::Element)]
    );
    assert_eq!(
        find_by_attr(&doc, &root, "^t", Some("^l"), true).unwrap(),
        vec![handle(7, NodeKind::Element)]
    );
    assert_eq!(
        find_by_value(&doc, 0, "link", false).unwrap(),
        vec![handle(7, NodeKind::Element)]
    );
    assert_eq!(find_by_value(&doc, 0, "^(a|b)", true).unwrap().len(), 2);
    assert_eq!(find_by_value(&doc, 0, "(", true).unwrap(), vec![]);
}

#[test]
fn a_handle_of_no_node_is_an_error() {
    let doc = sample();
    let stray = handle(99, NodeKind::Element);
    for result in [
        find_by_tag(&doc, &stray, "p", false).map(|_| ()),
        get_children(&doc, &stray).map(|_| ()),
        extract_text(&doc, &stray).map(|_| ()),
        get_attribute(&doc, &stray, "x", false).map(|_| ()),
        get_all_attributes(&doc, &stray).map(|_| ()),
    ] {
        match result {
            Err(InterpreterError::ExecutionError(m)) => {
                assert_eq!(m, "Node does not have a valid HTML reference")
            }
            _ => panic!("expected an execution error"),
        }
    }
    let context = SelectionResult::with_nodes(vec![stray]);
    let mut it = session();
    match it.select_from(&context, "text") {
        Err(InterpreterError::TextExtractionError(m)) => assert_eq!(
            m,
            "Unable to extract text content: Execution error: Node does not have a valid HTML reference"
        ),
        _ => panic!("expected a text extraction error"),
    }
    match it.select_from(&context, "href") {
        Err(InterpreterError::AttributeExtractionError(m)) => assert_eq!(
            m,
            "Unable to extract href attribute: Execution error: Node does not have a valid HTML reference"
        ),
        _ => panic!("expected an attribute extraction error"),
    }
}

#[test]
fn children_text_and_attributes() {
    let doc = sample();
    let div = handle(2, NodeKind::Element);
    assert_eq!(get_children(&doc, &div).unwrap(), vec![
        handle(3, NodeKind::Element),
        handle(5, NodeKind::Element),
        handle(7, NodeKind::Element)
    ]);
    assert_eq!(extract_text(&doc, &div).unwrap(), "text 1 Text 2 go");
    assert_eq!(extract_text(&doc, &handle(4, NodeKind::Text)).unwrap(), "text 1");
    assert_eq!(extract_text(&doc, &doc.root()).unwrap(), "");
    assert_eq!(extract_text(&doc, &handle(13, NodeKind::Comment)).unwrap(), "");
    assert_eq!(extract_text(&doc, &handle(9, NodeKind::Element)).unwrap(), "text 3");
    let a = handle(7, NodeKind::Element);
    assert_eq!(get_href(&doc, &a).unwrap(), Some("http://e.com/1".to_string()));
    assert_eq!(get_src(&doc, &a).unwrap(), None);
    assert_eq!(get_src(&doc, &handle(12, NodeKind::Element)).unwrap(), Some("/i.png".to_string()));
    assert_eq!(get_attribute(&doc, &a, "^t", true).unwrap(), Some("link".to_string()));
    assert_eq!(get_attribute(&doc, &a, "^t", false).unwrap(), None);
    assert_eq!(get_attribute(&doc, &handle(8, NodeKind::Text), "x", false).unwrap(), None);
    assert_eq!(
        get_all_attributes(&doc, &a).unwrap(),
        attrs(&[("href", "http://e.com/1"), ("title", "link")])
    );
    assert_eq!(get_all_attributes(&doc, &handle(8, NodeKind::Text)).unwrap(), vec![]);
}

#[test]
fn element_selectors_select() {
    assert_eq!(select_ids("tag p"), vec![3, 5, 10]);
    assert_eq!(select_ids("class a"), vec![2]);
    assert_eq!(select_ids("class x"), vec![5]);
    assert_eq!(select_ids("class ~\"^(a|b)$\""), vec![2, 9]);
    assert_eq!(select_ids("id first"), vec![2]);
    assert_eq!(select_ids("attr \"title\""), vec![3, 7]);
    assert_eq!(select_ids("attr \"title\" link"), vec![7]);
    assert_eq!(select_ids("attr \"^t\" ~\"^l\""), vec![7]);
    assert_eq!(select_ids("tag span"), Vec::<usize>::new());
    assert_eq!(select_ids("tag div > tag p"), vec![3, 5, 10]);
    assert_eq!(select_ids("class b > tag p"), vec![10]);
    assert_eq!(select_ids("tag div > tag div"), vec![2, 9]);
}

#[test]
fn a_value_under_any_name() {
    let doc = sample();
    let by_value = ElementNode::Attr(String::new(), Some("link".to_string()), false);
    let found = select_elements(&doc, &vec![doc.root()], &by_value).unwrap();
    assert_eq!(found, vec![handle(7, NodeKind::Element)]);
    let by_pattern = ElementNode::Attr(String::new(), Some("^/".to_string()), true);
    let found = select_elements(&doc, &vec![doc.root()], &by_pattern).unwrap();
    assert_eq!(found, vec![handle(12, NodeKind::Element)]);
    let no_name = ElementNode::Attr(String::new(), None, false);
    assert_eq!(select_elements(&doc, &vec![doc.root()], &no_name).unwrap(), vec![]);
}

#[test]
fn a_bad_regular_expression_is_an_error() {
    match select_error("tag ~\"(\"") {
        InterpreterError::ExecutionError(m) => assert!(m.starts_with("Invalid regex pattern: ")),
        _ => panic!("expected an execution error"),
    }
    match select_error("class ~\"(\"") {
        InterpreterError::ExecutionError(m) => assert!(m.starts_with("Invalid regex pattern: ")),
        _ => panic!("expected an execution error"),
    }
    match select_error("tag a > # ~\"(\"") {
        InterpreterError::AttributeExtractionError(m) => {
            assert!(m.starts_with("Unable to extract ( attribute: Execution error: Invalid regex pattern: "))
        }
        _ => panic!("expected an attribute extraction error"),
    }
    let mut empty = Interpreter::from_document(Document::new());
    assert_eq!(ids(&empty.select("tag ~\"(\"").unwrap()), Vec::<usize>::new());
}

#[test]
fn text_selectors_select() {
    assert_eq!(select_texts("tag p > text"), strings(&["text 1", " Text 2 ", "text 3"]));
    assert_eq!(select_texts("tag div > text"), strings(&["text 1 Text 2 go", "text 3"]));
    assert_eq!(select_texts("tag a > href"), strings(&["http://e.com/1"]));
    assert_eq!(select_texts("tag p > href"), Vec::<String>::new());
    assert_eq!(select_texts("tag img > src"), strings(&["/i.png"]));
    assert_eq!(select_texts("tag div > tag p > # title"), strings(&["one"]));
    assert_eq!(select_texts("attr \"title\" > # ~\"^ti\""), strings(&["one", "link"]));
    assert_eq!(select_texts("text"), strings(&[""]));
}

#[test]
fn indices_select() {
    assert_eq!(select_ids("tag p:0"), vec![3]);
    assert_eq!(select_ids("tag p:-1"), vec![10]);
    assert_eq!(select_ids("tag p:2"), vec![10]);
    assert_eq!(select_ids("tag p:-3"), vec![3]);
    assert_eq!(select_ids("tag p:0,2,-2,0"), vec![3, 10, 5, 3]);
    assert_eq!(select_texts("tag p > text:1"), strings(&[" Text 2 "]));
    assert_eq!(select_texts("tag p > text:-1,0"), strings(&["text 3", "text 1"]));
}

#[test]
fn indices_out_of_bounds() {
    assert!(matches!(select_error("tag p:3"), InterpreterError::IndexOutOfBounds(3, 3)));
    match select_error("tag p:-4") {
        InterpreterError::IndexOutOfBounds(i, 3) => assert_eq!(i, -4),
        _ => panic!("expected an index out of bounds"),
    }
    assert!(matches!(select_error("tag span:0"), InterpreterError::IndexOutOfBounds(0, 0)));
    assert!(matches!(select_error("tag p:0,5"), InterpreterError::IndexOutOfBounds(5, 3)));
    match select_error("tag p:\"x\"") {
        InterpreterError::InvalidArgument(m) => {
            assert_eq!(m, "index selection expects a value of type int.")
        }
        _ => panic!("expected an invalid argument"),
    }
}

#[test]
fn ranges_select() {
    assert_eq!(select_ids("tag p:0:2"), vec![3, 5]);
    assert_eq!(select_ids("tag p:1::"), vec![5, 10]);
    assert_eq!(select_ids("tag p::2"), vec![3, 5]);
    assert_eq!(select_ids("tag p:::"), vec![3, 5, 10]);
    assert_eq!(select_ids("tag p:::2"), vec![3, 10]);
    assert_eq!(select_ids("tag p:::-1"), vec![10, 5, 3]);
    assert_eq!(select_ids("tag p:::-2"), vec![10, 3]);
    assert_eq!(select_ids("tag p:2:0:-1"), vec![10, 5, 3]);
    assert_eq!(select_ids("tag p:-1:1:-1"), vec![10, 5]);
    assert_eq!(select_ids("tag p:1:1"), Vec::<usize>::new());
    assert_eq!(select_ids("tag p:1:1:-1"), vec![5]);
    assert_eq!(select_ids("tag p:0:2:9223372036854775807"), vec![3]);
    assert_eq!(select_ids("tag p:0:2:\"x\""), vec![3, 5]);
}

#[test]
fn ranges_against_their_step_are_errors() {
    match select_error("tag p:2:1") {
        InterpreterError::ExecutionError(m) => assert_eq!(
            m,
            "When the step size is positive, the starting index must be equal or less than the ending index."
        ),
        _ => panic!("expected an execution error"),
    }
    match select_error("tag p:0:2:-1") {
        InterpreterError::ExecutionError(m) => assert_eq!(
            m,
            "When the step size is negative, the starting index must be equal or greater than the ending index."
        ),
        _ => panic!("expected an execution error"),
    }
    assert!(matches!(select_error("tag p:::0"), InterpreterError::InvalidStep(0)));
    assert!(matches!(select_error("tag p:0:3"), InterpreterError::IndexOutOfBounds(3, 3)));
    assert!(matches!(select_error("tag p:5::"), InterpreterError::IndexOutOfBounds(5, 3)));
    assert!(matches!(
        select_error("tag span:::-1"),
        InterpreterError::ExecutionError(_)
    ));
    assert_eq!(select_ids("tag span:::"), Vec::<usize>::new());
}

#[test]
fn positions_of_an_index() {
    assert_eq!(resolve_index(&IndexNode::Single(Literal::Int(-1)), 4).unwrap(), vec![3]);
    assert_eq!(resolve_index(&IndexNode::Single(Literal::Int(3)), 4).unwrap(), vec![3]);
    assert!(resolve_index(&IndexNode::Single(Literal::Int(4)), 4).is_err());
    assert!(resolve_index(&IndexNode::Single(Literal::Int(-5)), 4).is_err());
    assert!(resolve_index(&IndexNode::Single(Literal::Int(i64::MIN)), 4).is_err());
    assert_eq!(
        resolve_index(&IndexNode::Range(None, None, Some(Literal::Int(3))), 10).unwrap(),
        vec![0, 3, 6, 9]
    );
    assert_eq!(
        resolve_index(&IndexNode::Range(None, None, Some(Literal::Int(-3))), 10).unwrap(),
        vec![9, 6, 3, 0]
    );
    assert_eq!(
        resolve_index(&IndexNode::Range(None, None, Some(Literal::Int(i64::MIN))), 10).unwrap(),
        vec![9]
    );
    let picked = evaluate_index(
        &SelectionResult::with_texts(strings(&["a", "b", "c"])),
        &IndexNode::Multiple(vec![Literal::Int(2), Literal::Int(0)]),
    )
    .unwrap();
    assert_eq!(texts(&picked), strings(&["c", "a"]));
}

#[test]
fn set_operations_select() {
    assert_eq!(select_ids("tag p | class x"), vec![3, 5, 10]);
    assert_eq!(select_ids("class x | tag p"), vec![5, 3, 10]);
    assert_eq!(select_ids("tag p & class x"), vec![5]);
    assert_eq!(select_ids("class ~\".\" & tag p"), vec![5]);
    assert_eq!(select_ids("tag p:2,0 & tag p"), vec![3, 10]);
    assert_eq!(select_ids("tag p & tag p:2,0"), vec![10, 3]);
    assert_eq!(select_ids("tag p ^ class x"), vec![3, 10]);
    assert_eq!(select_ids("tag p ^ tag p"), Vec::<usize>::new());
    assert_eq!(select_ids("tag p | tag p"), vec![3, 5, 10]);
    assert_eq!(select_ids("tag p:0,0,1 | tag p:1"), vec![3, 5]);
    assert_eq!(
        select_texts("tag p > text | tag a > text | tag p > text"),
        strings(&["text 1", " Text 2 ", "text 3", "go"])
    );
    assert_eq!(
        select_texts("tag p > text & tag div > tag p:0 > text"),
        strings(&["text 1"])
    );
    assert_eq!(
        select_texts("tag p > text ^ tag div > tag p:0 > text"),
        strings(&[" Text 2 ", "text 3"])
    );
}

#[test]
fn both_sides_start_from_the_same_selection() {
    assert_eq!(select_ids("class a > (tag p | tag a )"), vec![3, 5, 7]);
    assert_eq!(select_ids("class b > (tag p | tag a )"), vec![10]);
}

#[test]
fn sides_that_differ_in_kind_are_an_error() {
    match select_error("tag p | tag p > text") {
        InterpreterError::ExecutionError(m) => assert_eq!(
            m,
            "union operation has inconsistent result types: left side is nodes, right side is texts"
        ),
        _ => panic!("expected an execution error"),
    }
    match select_error("tag p > text & tag p") {
        InterpreterError::ExecutionError(m) => assert_eq!(
            m,
            "intersection operation has inconsistent result types: left side is texts, right side is nodes"
        ),
        _ => panic!("expected an execution error"),
    }
    match select_error("tag p > text ^ tag p") {
        InterpreterError::ExecutionError(m) => assert_eq!(
            m,
            "difference operation has inconsistent result types: left side is texts, right side is nodes"
        ),
        _ => panic!("expected an execution error"),
    }
}

#[test]
fn set_operations_on_lists() {
    let a = vec![handle(1, NodeKind::Element), handle(2, NodeKind::Text), handle(1, NodeKind::Comment)];
    let b = vec![handle(2, NodeKind::Element), handle(3, NodeKind::Element), handle(2, NodeKind::Element)];
    assert_eq!(union_nodes(&a, &b), vec![
        handle(1, NodeKind::Element),
        handle(2, NodeKind::Text),
        handle(3, NodeKind::Element)
    ]);
    assert_eq!(union_nodes(&a, &a), vec![handle(1, NodeKind::Element), handle(2, NodeKind::Text)]);
    assert_eq!(intersection_nodes(&a, &b), vec![
        handle(2, NodeKind::Element),
        handle(2, NodeKind::Element)
    ]);
    assert_eq!(difference_nodes(&a, &b), vec![
        handle(1, NodeKind::Element),
        handle(1, NodeKind::Comment)
    ]);
    assert_eq!(difference_nodes(&a, &a), vec![]);
    let x = strings(&["a", "b", "a"]);
    let y = strings(&["b", "c", "b"]);
    assert_eq!(union_texts(&x, &y), strings(&["a", "b", "c"]));
    assert_eq!(union_texts(&x, &x), strings(&["a", "b"]));
    assert_eq!(intersection_texts(&x, &y), strings(&["b", "b"]));
    assert_eq!(intersection_texts(&y, &x), strings(&["b"]));
    assert_eq!(difference_texts(&x, &y), strings(&["a", "a"]));
    assert_eq!(difference_texts(&x, &x), Vec::<String>::new());
    let both = combine(
        SetOperator::Union,
        &SelectionResult::with_texts(x.clone()),
        &SelectionResult::with_texts(y.clone()),
    )
    .unwrap();
    assert_eq!(texts(&both), strings(&["a", "b", "c"]));
}

#[test]
fn pipelines_select() {
    assert_eq!(select_ids("tag span > tag p"), Vec::<usize>::new());
    assert_eq!(select_ids("tag div > tag p > tag span"), Vec::<usize>::new());
    assert_eq!(select_texts("tag div:1 > tag p > text"), strings(&["text 3"]));
}

#[test]
fn an_empty_left_side_ends_a_pipeline() {
    let mut it = session();
    match it.select("tag span > text") {
        Ok(SelectionResult::Nodes(nodes)) => assert!(nodes.is_empty()),
        _ => panic!("expected no nodes"),
    }
}

#[test]
fn texts_cannot_be_piped() {
    let doc = sample();
    let tree = Node::Pipeline(
        Box::new(Node::Pipeline(
            Box::new(Node::Selector(Box::new(SelectorNode::ElementSelector(ElementNode::Tag(
                "p".to_string(),
                false,
            ))))),
            Box::new(Node::Selector(Box::new(SelectorNode::TextSelector(TextNode::Text)))),
        )),
        Box::new(Node::Selector(Box::new(SelectorNode::ElementSelector(ElementNode::Tag(
            "p".to_string(),
            false,
        ))))),
    );
    let start = SelectionResult::with_nodes(vec![doc.root()]);
    match evaluate(&doc, &start, &tree) {
        Err(InterpreterError::ExecutionError(m)) => assert_eq!(
            m,
            "The text results on the left side of the pipeline cannot be used as input for the operations on the right side."
        ),
        _ => panic!("expected an execution error"),
    }
    let empty = Document::new();
    let start = SelectionResult::with_nodes(vec![empty.root()]);
    assert_eq!(ids(&evaluate(&empty, &start, &tree).unwrap()), Vec::<usize>::new());
}

#[test]
fn selectors_need_nodes_and_functions_need_texts() {
    let doc = sample();
    let some_texts = SelectionResult::with_texts(strings(&["a"]));
    let tag = Node::Selector(Box::new(SelectorNode::ElementSelector(ElementNode::Tag(
        "p".to_string(),
        false,
    ))));
    match evaluate(&doc, &some_texts, &tag) {
        Err(InterpreterError::ExecutionError(m)) => assert_eq!(m, "Result type is not nodes"),
        _ => panic!("expected an execution error"),
    }
    let text = Node::Selector(Box::new(SelectorNode::TextSelector(TextNode::Text)));
    match evaluate(&doc, &some_texts, &text) {
        Err(InterpreterError::ExecutionError(m)) => assert_eq!(m, "Result type is not nodes"),
        _ => panic!("expected an execution error"),
    }
    let call = FunctionNode { name: "trim".to_string(), arguments: vec![] };
    let nodes = SelectionResult::with_nodes(vec![doc.root()]);
    match evaluate_function(&nodes, &call) {
        Err(InterpreterError::ExecutionError(m)) => assert_eq!(m, "Result type is not texts"),
        _ => panic!("expected an execution error"),
    }
}

fn run(name: &str, arguments: Vec<Literal>, given: &[&str]) -> Result<Vec<String>, InterpreterError> {
    let call = FunctionNode { name: name.to_string(), arguments };
    evaluate_function(&SelectionResult::with_texts(strings(given)), &call).map(|r| texts(&r))
}

fn s(text: &str) -> Literal {
    Literal::Str(text.to_string())
}

#[test]
fn functions_transform() {
    let given = ["text 1", " Text 2 ", "\ttext 3\n"];
    assert_eq!(run("trim", vec![], &given).unwrap(), strings(&["text 1", "Text 2", "text 3"]));
    assert_eq!(run("uppercase", vec![], &given).unwrap(), strings(&["TEXT 1", " TEXT 2 ", "\tTEXT 3\n"]));
    assert_eq!(run("lowercase", vec![], &given).unwrap(), strings(&["text 1", " text 2 ", "\ttext 3\n"]));
    assert_eq!(
        run("replace", vec![s("t"), s("TT")], &given).unwrap(),
        strings(&["TTexTT 1", " TexTT 2 ", "\tTTexTT 3\n"])
    );
    assert_eq!(run("replace", vec![s("aa"), s("b")], &["aaa", "aaaa"]).unwrap(), strings(&["ba", "bb"]));
    assert_eq!(run("replace", vec![s(""), s("-")], &["ab", ""]).unwrap(), strings(&["-a-b-", "-"]));
    assert_eq!(run("join", vec![s(", ")], &["a", "b", "c"]).unwrap(), strings(&["a, b, c"]));
    assert_eq!(run("join", vec![], &["a", "b", "c"]).unwrap(), strings(&["abc"]));
    assert_eq!(run("join", vec![s("-")], &[]).unwrap(), strings(&[""]));
    assert_eq!(run("join", vec![s("-")], &["a"]).unwrap(), strings(&["a"]));
}

#[test]
fn trimming_twice_is_trimming_once() {
    let once = run("trim", vec![], &["  a b  ", "\u{3000}c\u{a0}", "", "   "]).unwrap();
    assert_eq!(once, strings(&["a b", "c", "", ""]));
    let refs: Vec<&str> = once.iter().map(|s| s.as_str()).collect();
    assert_eq!(run("trim", vec![], &refs).unwrap(), once);
}

#[test]
fn case_of_ascii_texts() {
    let lower_then_upper = run("uppercase", vec![], &["abc def"]).unwrap();
    assert_eq!(lower_then_upper, strings(&["ABC DEF"]));
    let refs: Vec<&str> = lower_then_upper.iter().map(|s| s.as_str()).collect();
    assert_eq!(run("lowercase", vec![], &refs).unwrap(), strings(&["abc def"]));
    assert_eq!(run("uppercase", vec![], &["Stra\u{df}e"]).unwrap(), strings(&["STRASSE"]));
}

#[test]
fn functions_filter() {
    let given = ["text 1", " Text 2 ", "text 3"];
    assert_eq!(run("contains", vec![s("2")], &given).unwrap(), strings(&[" Text 2 "]));
    assert_eq!(run("contains", vec![s("")], &given).unwrap(), strings(&given));
    assert_eq!(run("contains", vec![s("text 12")], &given).unwrap(), Vec::<String>::new());
    assert_eq!(run("starts_with", vec![s("text")], &given).unwrap(), strings(&["text 1", "text 3"]));
    assert_eq!(run("ends_with", vec![s(" 3")], &given).unwrap(), strings(&["text 3"]));
    assert_eq!(
        run("in", vec![Literal::List(vec![s("text 3"), s("zzz"), s("text 1")])], &given).unwrap(),
        strings(&["text 1", "text 3"])
    );
    assert_eq!(run("in", vec![Literal::List(vec![])], &given).unwrap(), Vec::<String>::new());
}

#[test]
fn format_patterns() {
    assert_eq!(run("format", vec![s("<{}>")], &["a", "b"]).unwrap(), strings(&["<a>", "<b>"]));
    assert_eq!(run("format", vec![s("{}{}")], &["a"]).unwrap(), strings(&["a{}"]));
    assert_eq!(run("format", vec![s("%{}")], &["a"]).unwrap(), strings(&["%a"]));
    assert_eq!(run("format", vec![s("%s")], &[" a "]).unwrap(), strings(&[" a "]));
    assert_eq!(
        run("format", vec![s("%d")], &[" 12 ", "+7", "-0", "x", "1.5", ""]).unwrap(),
        strings(&["12", "7", "0", "x", "1.5", ""])
    );
    assert_eq!(run("format", vec![s("%i")], &["007"]).unwrap(), strings(&["7"]));
    assert_eq!(
        run("format", vec![s("%x")], &["255", "-1", "zz"]).unwrap(),
        strings(&["ff", "ffffffffffffffff", "zz"])
    );
    assert_eq!(run("format", vec![s("%X")], &["255", " 4096 "]).unwrap(), strings(&["FF", "1000"]));
    assert_eq!(run("format", vec![s("%q")], &["a"]).unwrap(), strings(&["%qa"]));
    assert_eq!(run("format", vec![s("%")], &["a"]).unwrap(), strings(&["%a"]));
    assert_eq!(run("format", vec![s("pre-")], &["a"]).unwrap(), strings(&["pre-a"]));
    assert_eq!(run("format", vec![s("")], &["a"]).unwrap(), strings(&["a"]));
    assert_eq!(
        run("format", vec![s("%d")], &["9223372036854775807", "9223372036854775808"]).unwrap(),
        strings(&["9223372036854775807", "9223372036854775808"])
    );
}

#[test]
fn slices() {
    let given = ["text 1", " Text 2 ", "ab"];
    assert_eq!(
        run("slice", vec![Literal::Int(0), Literal::Int(4)], &given).unwrap(),
        strings(&["text", " Tex", "ab"])
    );
    assert_eq!(
        run("slice", vec![Literal::Int(5), Literal::Int(100)], &given).unwrap(),
        strings(&["1", " 2 ", ""])
    );
    assert_eq!(
        run("slice", vec![Literal::Int(4), Literal::Int(2)], &given).unwrap(),
        strings(&["xt", "ex", ""])
    );
    assert_eq!(
        run("slice", vec![Literal::Int(100), Literal::Int(1)], &given).unwrap(),
        strings(&["ext 1", "Text 2 ", "b"])
    );
    assert_eq!(
        run("slice", vec![Literal::Nil, Literal::Int(2)], &given).unwrap(),
        strings(&["te", " T", "ab"])
    );
    assert_eq!(
        run("slice", vec![Literal::Int(2), Literal::Nil], &given).unwrap(),
        strings(&["xt 1", "ext 2 ", ""])
    );
    assert_eq!(run("slice", vec![Literal::Nil, Literal::Nil], &given).unwrap(), strings(&given));
    assert_eq!(
        run("slice", vec![Literal::Int(0), Literal::Int(1)], &["\u{e9}a", "a\u{e9}"]).unwrap(),
        strings(&["\u{e9}a", "a"])
    );
    assert_eq!(
        run("slice", vec![Literal::Int(0), Literal::Int(2)], &["\u{e9}a"]).unwrap(),
        strings(&["\u{e9}"])
    );
}

#[test]
fn function_errors() {
    assert!(matches!(run("nope", vec![], &["a"]), Err(InterpreterError::UnknownFunction(n)) if n == "nope"));
    assert!(matches!(run("Trim", vec![], &["a"]), Err(InterpreterError::UnknownFunction(_))));
    let missing = [
        ("trim", vec![s("x")], "trim must include 0 argument."),
        ("lowercase", vec![s("x")], "lowercase must include 0 argument."),
        ("uppercase", vec![s("x")], "uppercase must include 0 argument."),
        ("replace", vec![s("x")], "replace must include 2 argument."),
        ("join", vec![s("x"), s("y")], "join must include 0 or 1 argument."),
        ("format", vec![], "format must include 1 argument."),
        ("contains", vec![], "contains must include 1 argument."),
        ("starts_with", vec![s("a"), s("b")], "starts_with must include 1 argument."),
        ("ends_with", vec![], "ends_with must include 1 argument."),
        ("in", vec![], "in must include 1 argument."),
        ("slice", vec![Literal::Int(1)], "slice must include 2 argument."),
    ];
    for (name, arguments, message) in missing {
        match run(name, arguments, &["a"]) {
            Err(InterpreterError::MissingArgument(m)) => assert_eq!(m, message),
            _ => panic!("expected a missing argument"),
        }
    }
    let invalid = [
        ("replace", vec![Literal::Int(1), s("b")], "The first parameter of replace expects a value of type str."),
        ("replace", vec![s("a"), Literal::Int(1)], "The 2th parameter of replace expects a value of type str."),
        ("join", vec![Literal::Int(1)], "join expects a value of type str"),
        ("format", vec![Literal::Bool(true)], "format expect a value of type str"),
        ("contains", vec![Literal::Nil], "contains expect a value of type str"),
        ("starts_with", vec![Literal::Int(1)], "starts_with expect a value of type str"),
        ("ends_with", vec![Literal::Int(1)], "ends_with expect a value of type str"),
        ("in", vec![s("a")], "in expect a value of type list<str>"),
        ("in", vec![Literal::List(vec![s("a"), Literal::Int(1)])], "in expect a value of type list<str>"),
        ("slice", vec![Literal::Int(-1), Literal::Int(1)], "slice's parameter must be greater than or equal to 0."),
        ("slice", vec![Literal::Int(1), Literal::Int(-1)], "slice's parameter must be greater than or equal to 0."),
        ("slice", vec![s("a"), Literal::Int(1)], "slice expect a value of type int"),
        ("slice", vec![Literal::Int(1), Literal::Float("1.0".to_string())], "slice expect a value of type int"),
    ];
    for (name, arguments, message) in invalid {
        match run(name, arguments, &["a"]) {
            Err(InterpreterError::InvalidArgument(m)) => assert_eq!(m, message),
            _ => panic!("expected an invalid argument"),
        }
    }
}

#[test]
fn functions_in_place() {
    let mut list = strings(&[" a ", "B"]);
    trim(&mut list);
    assert_eq!(list, strings(&["a", "B"]));
    uppercase(&mut list);
    assert_eq!(list, strings(&["A", "B"]));
    lowercase(&mut list);
    assert_eq!(list, strings(&["a", "b"]));
    replace(&mut list, "a", "xy");
    assert_eq!(list, strings(&["xy", "b"]));
    html_select::interpreter::function::format(&mut list, "[{}]");
    assert_eq!(list, strings(&["[xy]", "[b]"]));
    slice(&mut list, Some(1), Some(3));
    assert_eq!(list, strings(&["xy", "b]"]));
    starts_with(&mut list, "x");
    assert_eq!(list, strings(&["xy"]));
    list.push("zy".to_string());
    ends_with(&mut list, "y");
    assert_eq!(list, strings(&["xy", "zy"]));
    contains(&mut list, "z");
    assert_eq!(list, strings(&["zy"]));
    list.push("q".to_string());
    in_(&mut list, strings(&["q"]));
    assert_eq!(list, strings(&["q"]));
    list.push("r".to_string());
    join(&mut list, "+");
    assert_eq!(list, strings(&["q+r"]));
    let call = FunctionNode { name: "uppercase".to_string(), arguments: vec![] };
    call_function(&mut list, &call).unwrap();
    assert_eq!(list, strings(&["Q+R"]));
    let bad = FunctionNode { name: "nope".to_string(), arguments: vec![] };
    assert!(call_function(&mut list, &bad).is_err());
    assert_eq!(list, strings(&["Q+R"]));
}

#[test]
fn functions_through_selectors() {
    assert_eq!(select_texts("tag p > text @trim @lowercase"), strings(&["text 1", "text 2", "text 3"]));
    assert_eq!(select_texts("tag p > text @contains,\"2\""), strings(&[" Text 2 "]));
    assert_eq!(select_texts("tag p > text:0 @replace,\"text\",x"), strings(&["x 1"]));
    assert_eq!(select_texts("tag p > text @trim @join,\"|\""), strings(&["text 1|Text 2|text 3"]));
    assert_eq!(select_texts("tag a > href @slice,0,4"), strings(&["http"]));
    assert_eq!(
        select_texts("tag p > text @trim @in,[\"text 1\",\"text 3\"]"),
        strings(&["text 1", "text 3"])
    );
}

#[test]
fn the_first_selector_runs_on_what_is_held_and_later_ones_on_the_root() {
    let mut it = session();
    assert!(it.is_first_interpret);
    it.result = SelectionResult::with_nodes(vec![handle(9, NodeKind::Element)]);
    assert_eq!(ids(&it.select("tag p").unwrap()), vec![10]);
    assert!(!it.is_first_interpret);
    assert_eq!(ids(&it.result), vec![10]);
    assert_eq!(ids(&it.select("tag p").unwrap()), vec![3, 5, 10]);
    assert!(it.select("tag p:7").is_err());
    assert_eq!(ids(&it.result), vec![0]);
}

#[test]
fn a_selector_that_does_not_parse_changes_nothing() {
    let mut it = session();
    match it.select("tag") {
        Err(InterpreterError::ParserError(m)) => assert_eq!(
            m,
            "Parse error (line 1, column 4): Unexpected token - Expected selector argument but found EOF\nHint: Please check if selector argument is missing here"
        ),
        _ => panic!("expected a parser error"),
    }
    assert!(it.is_first_interpret);
    assert_eq!(ids(&it.result), vec![0]);
}

#[test]
fn selecting_from_a_context_leaves_the_interpreter_alone() {
    let mut it = session();
    let divs = it.select("class a").unwrap();
    let inside = it.select_from(&divs, "tag p").unwrap();
    assert_eq!(ids(&inside), vec![3, 5]);
    assert_eq!(ids(&it.result), vec![2]);
    assert!(!it.is_first_interpret);
    assert!(it.select_from(&divs, "tag p:9").is_err());
    assert_eq!(ids(&it.result), vec![2]);
    let mut fresh = session();
    let _ = fresh.select_from(&divs, "tag p").unwrap();
    assert!(fresh.is_first_interpret);
    let some_texts = SelectionResult::with_texts(strings(&[" a "]));
    assert!(fresh.select_from(&some_texts, "tag p").is_err());
    assert!(matches!(
        fresh.select_from(&divs, "tag"),
        Err(InterpreterError::ParserError(_))
    ));
}

#[test]
fn steps_on_the_interpreter() {
    let mut it = session();
    apply_element_selector(&mut it, &ElementNode::Tag("p".to_string(), false)).unwrap();
    assert_eq!(ids(&it.result), vec![3, 5, 10]);
    apply_index_selection(&mut it, &IndexNode::Single(Literal::Int(1))).unwrap();
    assert_eq!(ids(&it.result), vec![5]);
    assert!(apply_index_selection(&mut it, &IndexNode::Single(Literal::Int(1))).is_err());
    assert_eq!(ids(&it.result), vec![5]);
    apply_text_selector(&mut it, &TextNode::Text).unwrap();
    assert_eq!(texts(&it.result), strings(&[" Text 2 "]));
    assert!(apply_text_selector(&mut it, &TextNode::Text).is_err());
    assert!(apply_element_selector(&mut it, &ElementNode::Tag("p".to_string(), false)).is_err());
    apply_function(&mut it, &FunctionNode { name: "trim".to_string(), arguments: vec![] }).unwrap();
    assert_eq!(texts(&it.result), strings(&["Text 2"]));
    assert!(apply_function(&mut it, &FunctionNode { name: "x".to_string(), arguments: vec![] }).is_err());
    assert_eq!(texts(&it.result), strings(&["Text 2"]));
    let mut it = session();
    let p = Node::Selector(Box::new(SelectorNode::ElementSelector(ElementNode::Tag(
        "p".to_string(),
        false,
    ))));
    let div = Node::Selector(Box::new(SelectorNode::ElementSelector(ElementNode::Class(
        "b".to_string(),
        false,
    ))));
    apply_pipeline(&mut it, &div, &p).unwrap();
    assert_eq!(ids(&it.result), vec![10]);
    let mut it = session();
    let both = SetOperationNode::Union(
        Box::new(Node::Selector(Box::new(SelectorNode::ElementSelector(ElementNode::Class(
            "b".to_string(),
            false,
        ))))),
        Box::new(Node::Selector(Box::new(SelectorNode::ElementSelector(ElementNode::Class(
            "a".to_string(),
            false,
        ))))),
    );
    apply_set_operation(&mut it, &both).unwrap();
    assert_eq!(ids(&it.result), vec![9, 2]);
    let mut it = session();
    it.visit_node(&p).unwrap();
    assert_eq!(ids(&it.result), vec![3, 5, 10]);
}

#[test]
fn results() {
    let empty = SelectionResult::new();
    assert!(empty.is_nodes());
    assert!(!empty.is_texts());
    assert!(empty.is_empty());
    assert_eq!(empty.count(), 0);
    assert_eq!(empty.to_string_result(), "Empty result");
    assert!(matches!(empty.first_node(), Err(InterpreterError::ExecutionError(m)) if m == "Node result is empty"));
    assert!(matches!(empty.first_text(), Err(InterpreterError::ExecutionError(m)) if m == "Result type is not texts"));
    let nodes = SelectionResult::with_nodes(vec![handle(4, NodeKind::Element), handle(9, NodeKind::Text)]);
    assert_eq!(nodes.count(), 2);
    assert_eq!(nodes.to_string_result(), "Nodes: [4, 9]");
    assert_eq!(*nodes.first_node().unwrap(), handle(4, NodeKind::Element));
    assert_eq!(*nodes.node_at(1).unwrap(), handle(9, NodeKind::Text));
    assert!(matches!(nodes.node_at(2), Err(InterpreterError::IndexOutOfBounds(2, 2))));
    assert!(matches!(nodes.text_at(0), Err(InterpreterError::ExecutionError(_))));
    assert!(nodes.texts().is_err());
    assert_eq!(nodes.nodes().unwrap().len(), 2);
    let some = SelectionResult::with_texts(strings(&["a", "b"]));
    assert!(some.is_texts());
    assert_eq!(some.to_string_result(), "a\nb");
    assert_eq!(some.first_text().unwrap(), "a");
    assert_eq!(some.text_at(1).unwrap(), "b");
    assert!(matches!(some.text_at(5), Err(InterpreterError::IndexOutOfBounds(5, 2))));
    assert!(matches!(some.node_at(0), Err(InterpreterError::ExecutionError(m)) if m == "Result type is not nodes"));
    assert!(matches!(SelectionResult::with_texts(vec![]).first_text(), Err(InterpreterError::ExecutionError(m)) if m == "Text result is empty"));
    let items = some.iter();
    assert_eq!(items.len(), 2);
    assert_eq!(texts(&items[1]), strings(&["b"]));
    let items = nodes.iter();
    assert_eq!(ids(&items[0]), vec![4]);
    let copy = some.clone();
    assert_eq!(texts(&copy), strings(&["a", "b"]));
    let mut changing = SelectionResult::with_texts(strings(&["a"]));
    changing.texts_mut().unwrap().push("z".to_string());
    assert_eq!(texts(&changing), strings(&["a", "z"]));
    assert!(changing.nodes_mut().is_err());
    let mut changing = SelectionResult::with_nodes(vec![]);
    changing.nodes_mut().unwrap().push(handle(1, NodeKind::Element));
    assert_eq!(ids(&changing), vec![1]);
    assert!(changing.texts_mut().is_err());
}

#[test]
fn errors_as_text() {
    assert_eq!(InterpreterError::html_parse_error("m").to_text(), "HTML parsing error: m");
    assert_eq!(InterpreterError::ParserError("m".to_string()).to_text(), "Syntax parsing error: m");
    assert_eq!(InterpreterError::node_selection_error("m").to_text(), "Node selection error: m");
    assert_eq!(InterpreterError::text_extraction_error("m").to_text(), "Text extraction error: m");
    assert_eq!(
        InterpreterError::attribute_extraction_error("m").to_text(),
        "Attribute extraction error: m"
    );
    assert_eq!(
        InterpreterError::IndexOutOfBounds(5, 3).to_text(),
        "Index out of bounds: index 5 is out of range 0-2"
    );
    assert_eq!(
        InterpreterError::IndexOutOfBounds(-4, 3).to_text(),
        "Index out of bounds: index -4 is out of range 0-2"
    );
    assert_eq!(
        InterpreterError::IndexOutOfBounds(0, 0).to_text(),
        "Index out of bounds: index 0 is out of range: the result is empty"
    );
    assert_eq!(InterpreterError::InvalidStep(0).to_text(), "Invalid step: step cannot be 0");
    assert_eq!(
        InterpreterError::InvalidRegex("m".to_string()).to_text(),
        "Invalid regular expression: m"
    );
    assert_eq!(InterpreterError::unknown_function("f").to_text(), "Unknown function: f");
    assert_eq!(InterpreterError::missing_argument("m").to_text(), "Missing argument: m");
    assert_eq!(InterpreterError::invalid_argument("m").to_text(), "Invalid argument: m");
    assert_eq!(InterpreterError::execution_error("m").to_text(), "Execution error: m");
    assert_eq!(
        InterpreterError::ResultLimitExceeded(9).to_text(),
        "Result limit exceeded: more than 9 results"
    );
    assert_eq!(InterpreterError::InvalidStep(-3).to_text(), "Invalid step: step cannot be -3");
}

#[test]
fn parsed_html() {
    let doc = parse_html("<p id=\"x\" class=\"a  b\tc\">one<b>two</b></p><!-- c --><img src=\"s\">").unwrap();
    let root = doc.root();
    assert_eq!(root.kind, NodeKind::Document);
    let p = find_by_tag(&doc, &root, "p", false).unwrap();
    assert_eq!(p.len(), 1);
    assert_eq!(extract_text(&doc, &p[0]).unwrap(), "onetwo");
    assert_eq!(
        get_all_attributes(&doc, &p[0]).unwrap(),
        attrs(&[("id", "x"), ("class", "a  b\tc")])
    );
    for class in ["a", "b", "c"] {
        assert_eq!(find_by_class(&doc, &root, class, false).unwrap(), p);
    }
    assert_eq!(find_by_class(&doc, &root, "a  b", false).unwrap(), vec![]);
    let html = find_by_tag(&doc, &root, "html", false).unwrap();
    assert_eq!(html.len(), 1);
    assert_eq!(html[0].id(), 1);
    assert_eq!(find_by_tag(&doc, &root, "body", false).unwrap().len(), 1);
    let kinds: Vec<NodeKind> = (0..doc.len()).map(|i| doc.node(i).kind).collect();
    assert!(kinds.contains(&NodeKind::Comment));
    assert!(kinds.contains(&NodeKind::Text));
    for i in 0..doc.len() {
        for child in &doc.node(i).children {
            assert!(*child > i);
        }
    }
}

#[test]
fn parsed_document_holds_each_node_before_what_is_below_it() {
    let doc = parse_html("<p id=\"x\">a<b>c</b></p>").unwrap();
    let expected: Vec<(NodeKind, &str, &str, Vec<usize>)> = vec![
        (NodeKind::Document, "", "", vec![1]),
        (NodeKind::Element, "html", "", vec![2, 3]),
        (NodeKind::Element, "head", "", vec![]),
        (NodeKind::Element, "body", "", vec![4]),
        (NodeKind::Element, "p", "", vec![5, 6]),
        (NodeKind::Text, "", "a", vec![]),
        (NodeKind::Element, "b", "", vec![7]),
        (NodeKind::Text, "", "c", vec![]),
    ];
    assert_eq!(doc.len(), expected.len());
    for (i, (kind, name, text, children)) in expected.iter().enumerate() {
        let node = doc.node(i);
        assert_eq!(node.kind, *kind);
        assert_eq!(node.name, *name);
        assert_eq!(node.text, *text);
        assert_eq!(node.children, *children);
    }
    assert_eq!(doc.node(4).attrs, attrs(&[("id", "x")]));
    assert!(doc.node(1).attrs.is_empty());
}

#[test]
fn empty_html_still_has_a_document() {
    let doc = parse_html("").unwrap();
    assert_eq!(doc.node(0).kind, NodeKind::Document);
    assert_eq!(doc.node(0).children, vec![1]);
    assert_eq!(doc.node(1).name, "html");
    assert_eq!(doc.len(), 4);
}

#[test]
fn a_call_of_format_for_floats_is_told() {
    let call = |name: &str, arguments: Vec<Literal>| FunctionNode {
        name: name.to_string(),
        arguments,
    };
    assert!(float_format(&call("format", vec![Literal::Str("%f".to_string())])));
    assert!(!float_format(&call("format", vec![Literal::Str("%d".to_string())])));
    assert!(!float_format(&call("format", vec![])));
    assert!(!float_format(&call(
        "format",
        vec![Literal::Str("%f".to_string()), Literal::Str("%f".to_string())]
    )));
    assert!(!float_format(&call("trim", vec![Literal::Str("%f".to_string())])));
    assert!(!float_format(&call("format", vec![Literal::Int(1)])));
}
