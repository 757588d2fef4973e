//! Set operations at work: union, intersection and difference of two results.
//!
//! Two nodes are the same where they have the same identity, two texts where
//! they are equal. A union keeps the first of each, left side first; an
//! intersection keeps the items of the right side that occur on the left; a
//! difference keeps the items of the left side that do not occur on the right.

use vstd::prelude::*;
use crate::interpreter::error::{InterpreterError, InterpreterResult, SpecInterpreterError};
use crate::interpreter::result::{
    NodeHandle, SelectionResult, SpecResult, texts_view, lemma_texts_view_push,
};
use crate::parser::result_view;
use crate::interpreter::{Interpreter, spec_eval, evaluate_set_operation};
use crate::parser::ast::{SetOperator, SetOperationNode};

verus! {

/// Whether `x` occurs in `s`, where `same` tells whether two items are the same.
pub open spec fn occurs<A>(s: Seq<A>, x: A, same: spec_fn(A, A) -> bool) -> bool {
    exists|i: int| 0 <= i < s.len() && #[trigger] same(s[i], x)
}

/// `s` with the first of each run of same items only, in the order of `s`.
pub open spec fn distinct<A>(s: Seq<A>, same: spec_fn(A, A) -> bool) -> Seq<A>
    decreases s.len(),
{
    if s.len() == 0 {
        s
    } else {
        let before = distinct(s.drop_last(), same);
        if occurs(before, s.last(), same) {
            before
        } else {
            before.push(s.last())
        }
    }
}

/// The items of `s` that occur in `other`, where `wanted`, or that do not,
/// where not `wanted`; in the order of `s`.
pub open spec fn kept<A>(s: Seq<A>, other: Seq<A>, wanted: bool, same: spec_fn(A, A) -> bool)
    -> Seq<A>
    decreases s.len(),
{
    if s.len() == 0 {
        s
    } else {
        let before = kept(s.drop_last(), other, wanted, same);
        if occurs(other, s.last(), same) == wanted {
            before.push(s.last())
        } else {
            before
        }
    }
}

/// The union of `left` and `right`: the first of each item, left side first.
pub open spec fn union_of<A>(left: Seq<A>, right: Seq<A>, same: spec_fn(A, A) -> bool) -> Seq<A> {
    distinct(left + right, same)
}

/// The intersection of `left` and `right`: the items of `right` that occur in
/// `left`, in the order of `right`.
pub open spec fn intersection_of<A>(left: Seq<A>, right: Seq<A>, same: spec_fn(A, A) -> bool)
    -> Seq<A> {
    kept(right, left, true, same)
}

/// The difference of `left` and `right`: the items of `left` that do not
/// occur in `right`, in the order of `left`.
pub open spec fn difference_of<A>(left: Seq<A>, right: Seq<A>, same: spec_fn(A, A) -> bool)
    -> Seq<A> {
    kept(left, right, false, same)
}

/// Two handles are the same where they have the same identity.
pub open spec fn same_node() -> spec_fn(NodeHandle, NodeHandle) -> bool {
    |a: NodeHandle, b: NodeHandle| a.index == b.index
}

/// Two texts are the same where they are equal.
pub open spec fn same_text() -> spec_fn(Seq<char>, Seq<char>) -> bool {
    |a: Seq<char>, b: Seq<char>| a == b
}

/// `operator` applied to two lists of items.
pub open spec fn combined<A>(
    operator: SetOperator,
    left: Seq<A>,
    right: Seq<A>,
    same: spec_fn(A, A) -> bool,
) -> Seq<A> {
    match operator {
        SetOperator::Union => union_of(left, right, same),
        SetOperator::Intersection => intersection_of(left, right, same),
        SetOperator::Difference => difference_of(left, right, same),
    }
}

/// The name of an operator, as an error names it.
pub open spec fn operator_name(operator: SetOperator) -> Seq<char> {
    match operator {
        SetOperator::Union => "union"@,
        SetOperator::Intersection => "intersection"@,
        SetOperator::Difference => "difference"@,
    }
}

/// The name of what a result holds, as an error names it.
pub open spec fn holds_name(result: SpecResult) -> Seq<char> {
    match result {
        SpecResult::Nodes(_) => "nodes"@,
        SpecResult::Texts(_) => "texts"@,
    }
}

/// The error for two sides of which one holds nodes and the other texts.
pub open spec fn mixed_sides_error(operator: SetOperator, left: SpecResult, right: SpecResult)
    -> SpecInterpreterError {
    SpecInterpreterError::ExecutionError(
        operator_name(operator) + " operation has inconsistent result types: left side is "@
            + holds_name(left) + ", right side is "@ + holds_name(right),
    )
}

/// `operator` applied to the results of the two sides, which must both hold
/// nodes or both hold texts.
pub open spec fn spec_combine(operator: SetOperator, left: SpecResult, right: SpecResult)
    -> Result<SpecResult, SpecInterpreterError> {
    match (left, right) {
        (SpecResult::Nodes(a), SpecResult::Nodes(b)) => Ok(
            SpecResult::Nodes(combined(operator, a, b, same_node())),
        ),
        (SpecResult::Texts(a), SpecResult::Texts(b)) => Ok(
            SpecResult::Texts(combined(operator, a, b, same_text())),
        ),
        _ => Err(mixed_sides_error(operator, left, right)),
    }
}

/// Whether a node of the identity of `node` is among `nodes`.
fn has_node(nodes: &Vec<NodeHandle>, node: &NodeHandle) -> (found: bool)
    ensures
        found == occurs(nodes@, *node, same_node()),
{
    let mut i: usize = 0;
    while i < nodes.len()
        invariant
            i <= nodes.len(),
            forall|j: int| 0 <= j < i ==> !(#[trigger] same_node()(nodes@[j], *node)),
        decreases nodes.len() - i,
    {
        if nodes[i].index == node.index {
            assert(same_node()(nodes@[i as int], *node));
            return true;
        }
        i += 1;
    }
    false
}

/// Whether `text` is among `texts`.
fn has_text(texts: &Vec<String>, text: &String) -> (found: bool)
    ensures
        found == occurs(texts_view(texts@), text@, same_text()),
{
    let mut i: usize = 0;
    while i < texts.len()
        invariant
            i <= texts.len(),
            forall|j: int| 0 <= j < i ==> !(#[trigger] same_text()(texts_view(texts@)[j], text@)),
        decreases texts.len() - i,
    {
        if texts[i] == *text {
            assert(same_text()(texts_view(texts@)[i as int], text@));
            return true;
        }
        i += 1;
    }
    false
}

/// Adds to `seen` the nodes of `more` that are not in it yet.
fn add_distinct_nodes(seen: &mut Vec<NodeHandle>, more: &Vec<NodeHandle>, Ghost(base): Ghost<
    Seq<NodeHandle>,
>)
    requires
        old(seen)@ == distinct(base, same_node()),
    ensures
        final(seen)@ == distinct(base + more@, same_node()),
{
    let mut i: usize = 0;
    proof {
        assert(base + more@.take(0) =~= base);
    }
    while i < more.len()
        invariant
            i <= more.len(),
            seen@ == distinct(base + more@.take(i as int), same_node()),
        decreases more.len() - i,
    {
        proof {
            let upto = base + more@.take(i as int);
            let next = base + more@.take(i + 1);
            assert(next.drop_last() =~= upto);
            assert(next.last() == more@[i as int]);
        }
        if !has_node(seen, &more[i]) {
            seen.push(more[i]);
        }
        i += 1;
    }
    proof {
        assert(more@.take(more.len() as int) =~= more@);
    }
}

/// The union of two lists of nodes.
pub fn union_nodes(left: &Vec<NodeHandle>, right: &Vec<NodeHandle>) -> (r: Vec<NodeHandle>)
    ensures
        r@ == union_of(left@, right@, same_node()),
{
    let mut result: Vec<NodeHandle> = Vec::new();
    proof {
        assert(Seq::<NodeHandle>::empty() + left@ =~= left@);
    }
    add_distinct_nodes(&mut result, left, Ghost(Seq::empty()));
    add_distinct_nodes(&mut result, right, Ghost(left@));
    result
}

/// The nodes of `nodes` that occur in `other`, where `wanted`, or that do not, where not.
fn keep_nodes(nodes: &Vec<NodeHandle>, other: &Vec<NodeHandle>, wanted: bool) -> (r: Vec<
    NodeHandle,
>)
    ensures
        r@ == kept(nodes@, other@, wanted, same_node()),
{
    let mut result: Vec<NodeHandle> = Vec::new();
    let mut i: usize = 0;
    while i < nodes.len()
        invariant
            i <= nodes.len(),
            result@ == kept(nodes@.take(i as int), other@, wanted, same_node()),
        decreases nodes.len() - i,
    {
        proof {
            let next = nodes@.take(i + 1);
            assert(next.drop_last() =~= nodes@.take(i as int));
            assert(next.last() == nodes@[i as int]);
        }
        if has_node(other, &nodes[i]) == wanted {
            result.push(nodes[i]);
        }
        i += 1;
    }
    proof {
        assert(nodes@.take(nodes.len() as int) =~= nodes@);
    }
    result
}

/// The intersection of two lists of nodes.
pub fn intersection_nodes(left: &Vec<NodeHandle>, right: &Vec<NodeHandle>) -> (r: Vec<NodeHandle>)
    ensures
        r@ == intersection_of(left@, right@, same_node()),
{
    keep_nodes(right, left, true)
}

/// The difference of two lists of nodes.
pub fn difference_nodes(left: &Vec<NodeHandle>, right: &Vec<NodeHandle>) -> (r: Vec<NodeHandle>)
    ensures
        r@ == difference_of(left@, right@, same_node()),
{
    keep_nodes(left, right, false)
}

/// Adds to `seen` the texts of `more` that are not in it yet.
fn add_distinct_texts(seen: &mut Vec<String>, more: &Vec<String>, Ghost(base): Ghost<
    Seq<Seq<char>>,
>)
    requires
        texts_view(old(seen)@) == distinct(base, same_text()),
    ensures
        texts_view(final(seen)@) == distinct(base + texts_view(more@), same_text()),
{
    let mut i: usize = 0;
    proof {
        assert(base + texts_view(more@).take(0) =~= base);
    }
    while i < more.len()
        invariant
            i <= more.len(),
            texts_view(seen@) == distinct(base + texts_view(more@).take(i as int), same_text()),
        decreases more.len() - i,
    {
        proof {
            let upto = base + texts_view(more@).take(i as int);
            let next = base + texts_view(more@).take(i + 1);
            assert(next.drop_last() =~= upto);
            assert(next.last() == more@[i as int]@);
        }
        if !has_text(seen, &more[i]) {
            let text = more[i].clone();
            proof {
                lemma_texts_view_push(seen@, text);
            }
            seen.push(text);
        }
        i += 1;
    }
    proof {
        assert(texts_view(more@).take(more.len() as int) =~= texts_view(more@));
    }
}

/// The union of two lists of texts.
pub fn union_texts(left: &Vec<String>, right: &Vec<String>) -> (r: Vec<String>)
    ensures
        texts_view(r@) == union_of(texts_view(left@), texts_view(right@), same_text()),
{
    let mut result: Vec<String> = Vec::new();
    proof {
        assert(Seq::<Seq<char>>::empty() + texts_view(left@) =~= texts_view(left@));
        assert(texts_view(result@) =~= Seq::<Seq<char>>::empty());
    }
    add_distinct_texts(&mut result, left, Ghost(Seq::empty()));
    add_distinct_texts(&mut result, right, Ghost(texts_view(left@)));
    result
}

/// The texts of `texts` that occur in `other`, where `wanted`, or that do not, where not.
fn keep_texts(texts: &Vec<String>, other: &Vec<String>, wanted: bool) -> (r: Vec<String>)
    ensures
        texts_view(r@) == kept(texts_view(texts@), texts_view(other@), wanted, same_text()),
{
    let mut result: Vec<String> = Vec::new();
    let mut i: usize = 0;
    proof {
        assert(texts_view(result@) =~= Seq::<Seq<char>>::empty());
        assert(texts_view(texts@).take(0) =~= Seq::<Seq<char>>::empty());
    }
    while i < texts.len()
        invariant
            i <= texts.len(),
            texts_view(result@) == kept(
                texts_view(texts@).take(i as int),
                texts_view(other@),
                wanted,
                same_text(),
            ),
        decreases texts.len() - i,
    {
        proof {
            let next = texts_view(texts@).take(i + 1);
            assert(next.drop_last() =~= texts_view(texts@).take(i as int));
            assert(next.last() == texts@[i as int]@);
        }
        if has_text(other, &texts[i]) == wanted {
            let text = texts[i].clone();
            proof {
                lemma_texts_view_push(result@, text);
            }
            result.push(text);
        }
        i += 1;
    }
    proof {
        assert(texts_view(texts@).take(texts.len() as int) =~= texts_view(texts@));
    }
    result
}

/// The intersection of two lists of texts.
pub fn intersection_texts(left: &Vec<String>, right: &Vec<String>) -> (r: Vec<String>)
    ensures
        texts_view(r@) == intersection_of(texts_view(left@), texts_view(right@), same_text()),
{
    keep_texts(right, left, true)
}

/// The difference of two lists of texts.
pub fn difference_texts(left: &Vec<String>, right: &Vec<String>) -> (r: Vec<String>)
    ensures
        texts_view(r@) == difference_of(texts_view(left@), texts_view(right@), same_text()),
{
    keep_texts(left, right, false)
}

/// The error for two sides of which one holds nodes and the other texts.
fn mixed_sides(operator: SetOperator, left: &SelectionResult, right: &SelectionResult) -> (e:
    InterpreterError)
    ensures
        e@ == mixed_sides_error(operator, left@, right@),
{
    let mut message = match operator {
        SetOperator::Union => String::from_str("union"),
        SetOperator::Intersection => String::from_str("intersection"),
        SetOperator::Difference => String::from_str("difference"),
    };
    message.append(" operation has inconsistent result types: left side is ");
    message.append(
        if left.is_nodes() {
            "nodes"
        } else {
            "texts"
        },
    );
    message.append(", right side is ");
    message.append(
        if right.is_nodes() {
            "nodes"
        } else {
            "texts"
        },
    );
    InterpreterError::ExecutionError(message)
}

/// `operator` applied to the results of the two sides.
pub fn combine(operator: SetOperator, left: &SelectionResult, right: &SelectionResult) -> (r:
    InterpreterResult<SelectionResult>)
    ensures
        result_view(r) == spec_combine(operator, left@, right@),
{
    match (left, right) {
        (SelectionResult::Nodes(a), SelectionResult::Nodes(b)) => {
            let nodes = match operator {
                SetOperator::Union => union_nodes(a, b),
                SetOperator::Intersection => intersection_nodes(a, b),
                SetOperator::Difference => difference_nodes(a, b),
            };
            Ok(SelectionResult::Nodes(nodes))
        },
        (SelectionResult::Texts(a), SelectionResult::Texts(b)) => {
            let texts = match operator {
                SetOperator::Union => union_texts(a, b),
                SetOperator::Intersection => intersection_texts(a, b),
                SetOperator::Difference => difference_texts(a, b),
            };
            Ok(SelectionResult::Texts(texts))
        },
        _ => Err(mixed_sides(operator, left, right)),
    }
}

/// Runs a set operation on the interpreter's current result: both sides on
/// that result, neither seeing what the other selected, and then the
/// operation on what they selected. On an error the interpreter stays as it was.
pub fn apply_set_operation(it: &mut Interpreter, node: &SetOperationNode) -> (r: InterpreterResult<
    (),
>)
    requires
        old(it).wf(),
    ensures
        final(it).wf(),
        final(it).dom == old(it).dom,
        final(it).document == old(it).document,
        final(it).is_first_interpret == old(it).is_first_interpret,
        match r {
            Ok(_) => spec_eval(old(it).dom@, node@, old(it).result@) == Ok::<
                SpecResult,
                SpecInterpreterError,
            >(final(it).result@),
            Err(e) => spec_eval(old(it).dom@, node@, old(it).result@) == Err::<
                SpecResult,
                SpecInterpreterError,
            >(e@) && final(it).result == old(it).result,
        },
{
    match evaluate_set_operation(&it.dom, &it.result, node) {
        Ok(combined) => {
            it.result = combined;
            Ok(())
        },
        Err(e) => Err(e),
    }
}

/// Whether `same` is an equivalence: every item is the same as itself, and
/// sameness runs both ways and carries over.
pub open spec fn is_equivalence<A>(same: spec_fn(A, A) -> bool) -> bool {
    &&& forall|x: A| #[trigger] same(x, x)
    &&& forall|x: A, y: A| #[trigger] same(x, y) ==> same(y, x)
    &&& forall|x: A, y: A, z: A| #[trigger] same(x, y) && #[trigger] same(y, z) ==> same(x, z)
}

/// Whether no two items of `s` are the same.
pub open spec fn all_distinct<A>(s: Seq<A>, same: spec_fn(A, A) -> bool) -> bool {
    forall|i: int, j: int| 0 <= i < j < s.len() ==> !same(s[i], s[j])
}

/// An item occurs in what `distinct` returns exactly where it occurs in what was given.
#[verifier::rlimit(60)]
pub proof fn lemma_distinct_occurs<A>(s: Seq<A>, x: A, same: spec_fn(A, A) -> bool)
    requires
        is_equivalence(same),
    ensures
        occurs(distinct(s, same), x, same) <==> occurs(s, x, same),
    decreases s.len(),
{
    if s.len() > 0 {
        let front = s.drop_last();
        let last = s.last();
        let before = distinct(front, same);
        let d = distinct(s, same);
        lemma_distinct_occurs(front, x, same);
        lemma_distinct_occurs(front, last, same);
        if occurs(d, x, same) {
            let i = choose|i: int| 0 <= i < d.len() && same(d[i], x);
            if i < before.len() {
                assert(d[i] == before[i]);
                assert(same(before[i], x));
                assert(occurs(before, x, same));
                assert(occurs(front, x, same));
                let j = choose|j: int| 0 <= j < front.len() && same(front[j], x);
                assert(front[j] == s[j]);
                assert(same(s[j], x));
            } else {
                assert(d[i] == last);
                assert(same(s[s.len() - 1], x));
            }
            assert(occurs(s, x, same));
        }
        if occurs(s, x, same) {
            let j = choose|j: int| 0 <= j < s.len() && same(s[j], x);
            if j < front.len() {
                assert(front[j] == s[j]);
                assert(same(front[j], x));
                assert(occurs(front, x, same));
                assert(occurs(before, x, same));
                let i = choose|i: int| 0 <= i < before.len() && same(before[i], x);
                assert(d[i] == before[i]);
                assert(same(d[i], x));
            } else if occurs(before, last, same) {
                let i = choose|i: int| 0 <= i < before.len() && same(before[i], last);
                assert(same(last, x));
                assert(same(before[i], x));
                assert(same(d[i], x));
            } else {
                assert(d[d.len() - 1] == last);
                assert(same(d[d.len() - 1], x));
            }
            assert(occurs(d, x, same));
        }
    }
}

/// What `distinct` returns holds no two items that are the same.
#[verifier::rlimit(60)]
pub proof fn lemma_distinct_is_distinct<A>(s: Seq<A>, same: spec_fn(A, A) -> bool)
    requires
        is_equivalence(same),
    ensures
        all_distinct(distinct(s, same), same),
    decreases s.len(),
{
    if s.len() > 0 {
        let front = s.drop_last();
        let before = distinct(front, same);
        lemma_distinct_is_distinct(front, same);
        let d = distinct(s, same);
        assert forall|i: int, j: int| 0 <= i < j < d.len() implies !same(d[i], d[j]) by {
            if j < before.len() {
                assert(d[i] == before[i] && d[j] == before[j]);
            } else {
                assert(d[i] == before[i]);
                if same(d[i], d[j]) {
                    assert(same(before[i], s.last()));
                    assert(occurs(before, s.last(), same));
                }
            }
        }
    }
}

/// A list in which no two items are the same is what `distinct` returns for it.
pub proof fn lemma_distinct_of_distinct<A>(s: Seq<A>, same: spec_fn(A, A) -> bool)
    requires
        all_distinct(s, same),
    ensures
        distinct(s, same) == s,
    decreases s.len(),
{
    if s.len() > 0 {
        let front = s.drop_last();
        lemma_distinct_of_distinct(front, same);
        if occurs(front, s.last(), same) {
            let i = choose|i: int| 0 <= i < front.len() && same(front[i], s.last());
            assert(same(s[i], s[s.len() - 1]));
        }
        assert(front.push(s.last()) =~= s);
    }
}

/// Adding, behind a list, items that all occur in it adds nothing to its distinct items.
#[verifier::rlimit(60)]
pub proof fn lemma_distinct_absorbs<A>(a: Seq<A>, b: Seq<A>, same: spec_fn(A, A) -> bool)
    requires
        is_equivalence(same),
        forall|j: int| 0 <= j < b.len() ==> occurs(a, #[trigger] b[j], same),
    ensures
        distinct(a + b, same) == distinct(a, same),
    decreases b.len(),
{
    if b.len() == 0 {
        assert(a + b =~= a);
    } else {
        let front = b.drop_last();
        assert forall|j: int| 0 <= j < front.len() implies occurs(a, #[trigger] front[j], same) by {
            assert(front[j] == b[j]);
        }
        lemma_distinct_absorbs(a, front, same);
        assert((a + b).drop_last() =~= a + front);
        assert((a + b).last() == b.last());
        lemma_distinct_occurs(a, b.last(), same);
        assert(occurs(a, b[b.len() - 1], same));
    }
}

/// The union of a list with itself is the list's distinct items: the first
/// of each, in the order of the list, and no two of them the same. It holds
/// what the list holds, and a list that holds no two same items is its own
/// union with itself.
pub proof fn lemma_union_with_itself<A>(a: Seq<A>, same: spec_fn(A, A) -> bool)
    requires
        is_equivalence(same),
    ensures
        union_of(a, a, same) == distinct(a, same),
        all_distinct(union_of(a, a, same), same),
        all_distinct(a, same) ==> union_of(a, a, same) == a,
        forall|x: A| occurs(union_of(a, a, same), x, same) <==> occurs(a, x, same),
{
    assert forall|x: A| occurs(distinct(a, same), x, same) <==> occurs(a, x, same) by {
        lemma_distinct_occurs(a, x, same);
    }
    assert forall|j: int| 0 <= j < a.len() implies occurs(a, #[trigger] a[j], same) by {
        assert(same(a[j], a[j]));
    }
    lemma_distinct_absorbs(a, a, same);
    lemma_distinct_is_distinct(a, same);
    if all_distinct(a, same) {
        lemma_distinct_of_distinct(a, same);
    }
}

/// The union of a result with itself, for nodes and for texts: the result's
/// distinct items in their order.
pub proof fn lemma_union_of_result_with_itself(result: SpecResult)
    ensures
        spec_combine(SetOperator::Union, result, result) == Ok::<SpecResult, SpecInterpreterError>(
            match result {
                SpecResult::Nodes(a) => SpecResult::Nodes(distinct(a, same_node())),
                SpecResult::Texts(a) => SpecResult::Texts(distinct(a, same_text())),
            },
        ),
{
    match result {
        SpecResult::Nodes(a) => {
            lemma_union_with_itself(a, same_node());
        },
        SpecResult::Texts(a) => {
            lemma_union_with_itself(a, same_text());
        },
    }
}

/// What `kept` keeps are the items asked for, and it keeps all of a list
/// whose items are all asked for, and none of a list none of whose items is.
#[verifier::rlimit(60)]
pub proof fn lemma_kept_all_or_none<A>(
    s: Seq<A>,
    other: Seq<A>,
    wanted: bool,
    same: spec_fn(A, A) -> bool,
)
    ensures
        forall|k: int|
            0 <= k < kept(s, other, wanted, same).len() ==> occurs(
                other,
                #[trigger] kept(s, other, wanted, same)[k],
                same,
            ) == wanted,
        (forall|i: int| 0 <= i < s.len() ==> occurs(other, #[trigger] s[i], same) == wanted)
            ==> kept(s, other, wanted, same) == s,
        (forall|i: int| 0 <= i < s.len() ==> occurs(other, #[trigger] s[i], same) != wanted)
            ==> kept(s, other, wanted, same).len() == 0,
    decreases s.len(),
{
    if s.len() > 0 {
        let front = s.drop_last();
        let before = kept(front, other, wanted, same);
        let all = kept(s, other, wanted, same);
        lemma_kept_all_or_none(front, other, wanted, same);
        assert forall|k: int| 0 <= k < all.len() implies occurs(other, #[trigger] all[k], same)
            == wanted by {
            if k < before.len() {
                assert(all[k] == before[k]);
            } else {
                assert(all[k] == s.last());
            }
        }
        if forall|i: int| 0 <= i < s.len() ==> occurs(other, #[trigger] s[i], same) == wanted {
            assert forall|i: int| 0 <= i < front.len() implies occurs(
                other,
                #[trigger] front[i],
                same,
            ) == wanted by {
                assert(front[i] == s[i]);
            }
            assert(occurs(other, s[s.len() - 1], same) == wanted);
            assert(front.push(s.last()) =~= s);
        }
        if forall|i: int| 0 <= i < s.len() ==> occurs(other, #[trigger] s[i], same) != wanted {
            assert forall|i: int| 0 <= i < front.len() implies occurs(
                other,
                #[trigger] front[i],
                same,
            ) != wanted by {
                assert(front[i] == s[i]);
            }
            assert(occurs(other, s[s.len() - 1], same) != wanted);
        }
    }
}

/// The intersection holds the items of the right side that occur on the
/// left, in the order of the right side: intersecting the left side with it
/// once more changes nothing, and a right side all of whose items occur on
/// the left is the intersection itself.
pub proof fn lemma_intersection_keeps_right_order<A>(
    left: Seq<A>,
    right: Seq<A>,
    same: spec_fn(A, A) -> bool,
)
    ensures
        intersection_of(left, right, same) == kept(right, left, true, same),
        intersection_of(left, intersection_of(left, right, same), same) == intersection_of(
            left,
            right,
            same,
        ),
        (forall|i: int| 0 <= i < right.len() ==> occurs(left, #[trigger] right[i], same))
            ==> intersection_of(left, right, same) == right,
{
    lemma_kept_all_or_none(right, left, true, same);
    lemma_kept_all_or_none(kept(right, left, true, same), left, true, same);
}

/// The difference of a list and itself is empty.
pub proof fn lemma_difference_with_itself<A>(a: Seq<A>, same: spec_fn(A, A) -> bool)
    requires
        is_equivalence(same),
    ensures
        difference_of(a, a, same).len() == 0,
{
    assert forall|i: int| 0 <= i < a.len() implies occurs(a, #[trigger] a[i], same) != false by {
        assert(same(a[i], a[i]));
    }
    lemma_kept_all_or_none(a, a, false, same);
}

/// The difference of a result and itself, for nodes and for texts, is empty.
pub proof fn lemma_difference_of_result_with_itself(result: SpecResult)
    ensures
        spec_combine(SetOperator::Difference, result, result) matches Ok(difference)
            && difference.count() == 0,
{
    match result {
        SpecResult::Nodes(a) => {
            lemma_difference_with_itself(a, same_node());
        },
        SpecResult::Texts(a) => {
            lemma_difference_with_itself(a, same_text());
        },
    }
}

} // verus!
