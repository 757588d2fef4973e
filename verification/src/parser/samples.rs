//! Two selectors followed from their text to what the parser makes of them.

use vstd::prelude::*;
use crate::lexer::SpecToken;
use crate::parser::ast::{SetOperator, SpecElement, SpecNode, SpecSelector, SpecText};
use crate::parser::error::{ParseErrorKind, SpecParseError};
use crate::parser::render::{
    basic_depth, basic_tokens, can_be_read, element_can_be_read, gap, is_bare_word, larger,
    marker_tokens, node_tokens, pipeline_depth, pipeline_tokens, set_depth, set_tokens,
    token_source, tokens_source, value_token,
};
use crate::parser::roundtrip::validated;
use crate::parser::spec_parse;
use crate::parser::validate::{
    fresh_state, leads_with_text, lemma_second_text_selector_rejected, marked, spec_validate,
};
use crate::parser::written::{all_can_be_written, lemma_written_tree_parses_back};

verus! {

/// The selector for the elements of one class.
pub open spec fn class_of(name: Seq<char>) -> SpecNode {
    SpecNode::Selector(SpecSelector::Element(SpecElement::Class(name, false)))
}

/// The union of the classes `a` and `b`.
pub open spec fn two_classes() -> SpecNode {
    SpecNode::SetOperation(
        SetOperator::Union,
        Box::new(class_of("a"@)),
        Box::new(class_of("b"@)),
    )
}

/// A word of one letter that is no digit and no sign stands without quotes.
proof fn lemma_letter_is_bare(word: Seq<char>)
    requires
        word.len() == 1,
        'a' <= word[0] <= 'z',
    ensures
        value_token(word) == SpecToken::Argument(word),
{
    reveal_strlit("class");
    reveal_strlit("id");
    reveal_strlit("tag");
    reveal_strlit("attr");
    reveal_strlit("text");
    reveal_strlit("src");
    reveal_strlit("href");
    assert(is_bare_word(word));
}

/// What is written for tokens and one more token.
proof fn lemma_source_push(tokens: Seq<SpecToken>, token: SpecToken)
    requires
        tokens.len() > 0,
    ensures
        tokens_source(tokens.push(token)) == tokens_source(tokens) + gap(tokens.last(), token)
            + token_source(token),
{
    let all = tokens.push(token);
    assert(all.drop_last() =~= tokens);
    assert(all[all.len() - 2] == tokens.last());
}

/// The tokens of the selector for a class whose name stands without quotes.
proof fn lemma_class_tokens(name: Seq<char>)
    requires
        value_token(name) == SpecToken::Argument(name),
    ensures
        set_tokens(class_of(name)) == seq![SpecToken::Class, SpecToken::Argument(name)],
        pipeline_tokens(class_of(name)) == seq![SpecToken::Class, SpecToken::Argument(name)],
{
    assert(marker_tokens(false) =~= Seq::<SpecToken>::empty());
    assert(basic_tokens(class_of(name)) =~= seq![SpecToken::Class, SpecToken::Argument(name)]);
    assert(pipeline_tokens(class_of(name)) == basic_tokens(class_of(name)));
    assert(set_tokens(class_of(name)) == pipeline_tokens(class_of(name)));
}

/// A selector by itself can be read again where its pattern is not empty,
/// and the parser goes no deeper for it.
proof fn lemma_selector_is_flat(selector: SpecSelector)
    requires
        selector matches SpecSelector::Element(e) ==> element_can_be_read(e),
    ensures
        can_be_read(SpecNode::Selector(selector)),
        basic_depth(SpecNode::Selector(selector)) == 0,
        pipeline_depth(SpecNode::Selector(selector)) == 0,
        set_depth(SpecNode::Selector(selector)) == 0,
{
    let node = SpecNode::Selector(selector);
    assert(basic_depth(node) == 0);
    assert(pipeline_depth(node) == basic_depth(node));
    assert(set_depth(node) == pipeline_depth(node));
}

/// The tokens of the union of the two classes.
pub open spec fn two_classes_tokens() -> Seq<SpecToken> {
    seq![
        SpecToken::Class,
        SpecToken::Argument("a"@),
        SpecToken::Union,
        SpecToken::Class,
        SpecToken::Argument("b"@),
    ]
}

/// The union of the two classes has these tokens.
proof fn lemma_two_classes_tokens()
    ensures
        node_tokens(two_classes()) == two_classes_tokens(),
{
    reveal_strlit("a");
    reveal_strlit("b");
    lemma_letter_is_bare("a"@);
    lemma_letter_is_bare("b"@);
    lemma_class_tokens("a"@);
    lemma_class_tokens("b"@);
    assert(set_tokens(two_classes()) == set_tokens(class_of("a"@)) + seq![SpecToken::Union]
        + pipeline_tokens(class_of("b"@)));
    assert(node_tokens(two_classes()) =~= two_classes_tokens());
}

/// These tokens are written as `class a | class b`.
proof fn lemma_two_classes_text()
    ensures
        tokens_source(two_classes_tokens()) == "class a | class b"@,
{
    reveal_strlit("a");
    reveal_strlit("b");
    reveal_strlit("class");
    reveal_strlit("|");
    reveal_strlit("class a | class b");
    let a = SpecToken::Argument("a"@);
    let b = SpecToken::Argument("b"@);
    let one = seq![SpecToken::Class];
    let two = one.push(a);
    let three = two.push(SpecToken::Union);
    let four = three.push(SpecToken::Class);
    let five = four.push(b);
    assert(tokens_source(one) == "class"@);
    lemma_source_push(one, a);
    lemma_source_push(two, SpecToken::Union);
    lemma_source_push(three, SpecToken::Class);
    lemma_source_push(four, b);
    assert(five =~= two_classes_tokens());
    assert(tokens_source(five) =~= "class a | class b"@);
}

/// The selector `class a | class b` parses to the union of the two classes,
/// and the union is written as `class a | class b`.
pub proof fn lemma_union_of_two_classes()
    ensures
        spec_parse("class a | class b"@) == Ok::<SpecNode, SpecParseError>(two_classes()),
        tokens_source(node_tokens(two_classes())) == "class a | class b"@,
{
    let tree = two_classes();
    lemma_two_classes_tokens();
    lemma_two_classes_text();
    assert(can_be_read(tree) && set_depth(tree) <= 100) by {
        reveal_strlit("a");
        reveal_strlit("b");
        lemma_selector_is_flat(SpecSelector::Element(SpecElement::Class("a"@, false)));
        lemma_selector_is_flat(SpecSelector::Element(SpecElement::Class("b"@, false)));
        assert(can_be_read(tree) == (can_be_read(class_of("a"@)) && can_be_read(class_of("b"@))));
        assert(set_depth(tree) == larger(
            set_depth(class_of("a"@)),
            1 + pipeline_depth(class_of("b"@)),
        ));
    }
    assert(validated(tree) == Ok::<SpecNode, SpecParseError>(tree)) by {
        let st = fresh_state();
        assert(spec_validate(class_of("a"@), st).result is Ok);
        assert(spec_validate(class_of("b"@), st).result is Ok);
        assert(spec_validate(tree, st).result is Ok);
    }
    assert(all_can_be_written(two_classes_tokens())) by {
        reveal_strlit("a");
        reveal_strlit("b");
        lemma_letter_is_bare("a"@);
        lemma_letter_is_bare("b"@);
    }
    lemma_written_tree_parses_back(tree);
}

/// The elements with the tag `p`, their text, and then `href`.
pub open spec fn text_then_href() -> SpecNode {
    SpecNode::Pipeline(Box::new(tag_p_text()), Box::new(href()))
}

/// The elements with the tag `p`, and their text.
pub open spec fn tag_p_text() -> SpecNode {
    SpecNode::Pipeline(
        Box::new(SpecNode::Selector(SpecSelector::Element(SpecElement::Tag("p"@, false)))),
        Box::new(SpecNode::Selector(SpecSelector::Text(SpecText::Text))),
    )
}

/// The selector `href`.
pub open spec fn href() -> SpecNode {
    SpecNode::Selector(SpecSelector::Text(SpecText::Href))
}

/// The tokens of `tag p > text > href`.
pub open spec fn text_then_href_tokens() -> Seq<SpecToken> {
    seq![
        SpecToken::Tag,
        SpecToken::Argument("p"@),
        SpecToken::Pipeline,
        SpecToken::Text,
        SpecToken::Pipeline,
        SpecToken::Href,
    ]
}

/// The tree has these tokens.
proof fn lemma_text_then_href_tokens()
    ensures
        node_tokens(text_then_href()) == text_then_href_tokens(),
{
    reveal_strlit("p");
    lemma_letter_is_bare("p"@);
    let tag = SpecNode::Selector(SpecSelector::Element(SpecElement::Tag("p"@, false)));
    let text = SpecNode::Selector(SpecSelector::Text(SpecText::Text));
    assert(marker_tokens(false) =~= Seq::<SpecToken>::empty());
    assert(basic_tokens(tag) =~= seq![SpecToken::Tag, SpecToken::Argument("p"@)]);
    assert(pipeline_tokens(tag) == basic_tokens(tag));
    assert(basic_tokens(text) =~= seq![SpecToken::Text]);
    assert(basic_tokens(href()) =~= seq![SpecToken::Href]);
    assert(pipeline_tokens(tag_p_text()) == pipeline_tokens(tag) + seq![SpecToken::Pipeline]
        + basic_tokens(text));
    assert(pipeline_tokens(text_then_href()) == pipeline_tokens(tag_p_text()) + seq![
        SpecToken::Pipeline,
    ] + basic_tokens(href()));
    assert(set_tokens(text_then_href()) == pipeline_tokens(text_then_href()));
    assert(node_tokens(text_then_href()) =~= text_then_href_tokens());
}

/// These tokens are written as `tag p > text > href`.
proof fn lemma_text_then_href_text()
    ensures
        tokens_source(text_then_href_tokens()) == "tag p > text > href"@,
{
    reveal_strlit("p");
    reveal_strlit("tag");
    reveal_strlit("text");
    reveal_strlit("href");
    reveal_strlit(">");
    reveal_strlit("tag p > text > href");
    let p = SpecToken::Argument("p"@);
    let one = seq![SpecToken::Tag];
    let two = one.push(p);
    let three = two.push(SpecToken::Pipeline);
    let four = three.push(SpecToken::Text);
    let five = four.push(SpecToken::Pipeline);
    let six = five.push(SpecToken::Href);
    assert(tokens_source(one) == "tag"@);
    lemma_source_push(one, p);
    lemma_source_push(two, SpecToken::Pipeline);
    lemma_source_push(three, SpecToken::Text);
    lemma_source_push(four, SpecToken::Pipeline);
    lemma_source_push(five, SpecToken::Href);
    assert(six =~= text_then_href_tokens());
    assert(tokens_source(six) =~= "tag p > text > href"@);
}

/// The selector `tag p > text > href` is refused for its second text selector.
pub proof fn lemma_text_then_href_is_refused()
    ensures
        spec_parse("tag p > text > href"@) matches Err(e) && e.kind
            == ParseErrorKind::MultipleTextSelectors,
{
    let tree = text_then_href();
    lemma_text_then_href_tokens();
    lemma_text_then_href_text();
    let tag = SpecNode::Selector(SpecSelector::Element(SpecElement::Tag("p"@, false)));
    let text = SpecNode::Selector(SpecSelector::Text(SpecText::Text));
    assert(can_be_read(tree) && set_depth(tree) <= 100) by {
        reveal_strlit("p");
        lemma_selector_is_flat(SpecSelector::Element(SpecElement::Tag("p"@, false)));
        lemma_selector_is_flat(SpecSelector::Text(SpecText::Text));
        lemma_selector_is_flat(SpecSelector::Text(SpecText::Href));
        assert(can_be_read(tag_p_text()) == (can_be_read(tag) && can_be_read(text)));
        assert(can_be_read(tree) == (can_be_read(tag_p_text()) && can_be_read(href())));
        assert(pipeline_depth(tag_p_text()) == larger(pipeline_depth(tag), 1 + basic_depth(text)));
        assert(pipeline_depth(tree) == larger(
            pipeline_depth(tag_p_text()),
            1 + basic_depth(href()),
        ));
        assert(set_depth(tree) == pipeline_depth(tree));
    }
    assert(spec_validate(tag_p_text(), fresh_state()).result is Ok && spec_validate(
        tag_p_text(),
        fresh_state(),
    ).state.has_text_selector) by {
        let st = fresh_state();
        assert(spec_validate(tag, st).result is Ok && spec_validate(tag, st).state == st);
        assert(spec_validate(text, st).result is Ok && spec_validate(text, st).state == marked(
            st,
        ));
        assert(spec_validate(tag_p_text(), st) == spec_validate(text, st));
    }
    assert(leads_with_text(href()));
    lemma_second_text_selector_rejected(tag_p_text(), href(), fresh_state());
    assert(all_can_be_written(text_then_href_tokens())) by {
        reveal_strlit("p");
        lemma_letter_is_bare("p"@);
    }
    lemma_written_tree_parses_back(tree);
}

} // verus!
