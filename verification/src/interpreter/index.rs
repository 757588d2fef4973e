//! Indexing at work: one position of a result, several, or a range.
//!
//! A position counts from the front, or, where it is negative, from the
//! back: `-1` is the last item. An index picks the items at its positions,
//! in the order in which it names them.

use vstd::prelude::*;
use crate::interpreter::Interpreter;
use crate::interpreter::error::{InterpreterError, InterpreterResult, SpecInterpreterError};
use crate::interpreter::result::{
    NodeHandle, SelectionResult, SpecResult, texts_view, lemma_texts_view_push,
};
use crate::parser::result_view;
use crate::parser::ast::{IndexNode, Literal, SpecIndex, SpecLiteral, literals_view};

verus! {

/// The error for an index that is no integer.
pub open spec fn not_an_integer_error() -> SpecInterpreterError {
    SpecInterpreterError::InvalidArgument("index selection expects a value of type int."@)
}

/// The error for a range that counts up from a start behind its end.
pub open spec fn ascending_range_error() -> SpecInterpreterError {
    SpecInterpreterError::ExecutionError(
        "When the step size is positive, the starting index must be equal or less than the ending index."@,
    )
}

/// The error for a range that counts down from a start in front of its end.
pub open spec fn descending_range_error() -> SpecInterpreterError {
    SpecInterpreterError::ExecutionError(
        "When the step size is negative, the starting index must be equal or greater than the ending index."@,
    )
}

/// The position that an index names in a result of `len` items: the index
/// itself where it lies in `0..len`, the index plus `len` where it lies in
/// `-len..0`. Any other integer is out of bounds, and anything but an
/// integer is no index.
pub open spec fn spec_normal_index(index: SpecLiteral, len: int) -> Result<
    int,
    SpecInterpreterError,
> {
    match index {
        SpecLiteral::Int(n) => {
            if 0 <= n < len {
                Ok(n as int)
            } else if n < 0 && -n <= len {
                Ok(n + len)
            } else {
                Err(SpecInterpreterError::IndexOutOfBounds(n as int, len as usize))
            }
        },
        _ => Err(not_an_integer_error()),
    }
}

/// The positions that `indices[from..]` name, in their order.
pub open spec fn spec_normal_indices(indices: Seq<SpecLiteral>, from: int, len: int) -> Result<
    Seq<int>,
    SpecInterpreterError,
>
    decreases indices.len() - from,
{
    if from < 0 || from >= indices.len() {
        Ok(Seq::empty())
    } else {
        match spec_normal_index(indices[from], len) {
            Err(e) => Err(e),
            Ok(first) => match spec_normal_indices(indices, from + 1, len) {
                Err(e) => Err(e),
                Ok(rest) => Ok(seq![first] + rest),
            },
        }
    }
}

/// The position that a part of a range names, where the part is given.
pub open spec fn spec_range_bound(part: Option<SpecLiteral>, len: int) -> Result<
    Option<int>,
    SpecInterpreterError,
> {
    match part {
        None => Ok(None),
        Some(index) => match spec_normal_index(index, len) {
            Ok(i) => Ok(Some(i)),
            Err(e) => Err(e),
        },
    }
}

/// The step of a range: the integer given, or 1 where none is given.
pub open spec fn spec_step(step: Option<SpecLiteral>) -> i64 {
    match step {
        Some(SpecLiteral::Int(n)) => n,
        _ => 1,
    }
}

/// The positions from `from` up to, but without, `to`, in steps of `step`, which is positive.
pub open spec fn ascending(from: int, to: int, step: int) -> Seq<int>
    decreases (if from < to {
        to - from
    } else {
        0
    }),
{
    if from < to && step > 0 {
        seq![from] + ascending(from + step, to, step)
    } else {
        Seq::empty()
    }
}

/// The positions from `from` down to, and with, `to`, in steps of `step`, which is negative.
pub open spec fn descending(from: int, to: int, step: int) -> Seq<int>
    decreases (if from >= to {
        from - to + 1
    } else {
        0
    }),
{
    if from >= to && step < 0 {
        seq![from] + descending(from + step, to, step)
    } else {
        Seq::empty()
    }
}

/// The positions of a range in a result of `len` items. The step may not be
/// zero. Counting up, the start is 0 and the end `len` where they are left
/// out, the end is not taken, and the start may not lie behind the end.
/// Counting down, the start is the last position and the end 0 where they
/// are left out, the end is taken, and the start may not lie in front of the
/// end.
pub open spec fn spec_range_positions(
    start: Option<SpecLiteral>,
    end: Option<SpecLiteral>,
    step: Option<SpecLiteral>,
    len: int,
) -> Result<Seq<int>, SpecInterpreterError> {
    match spec_range_bound(start, len) {
        Err(e) => Err(e),
        Ok(first) => match spec_range_bound(end, len) {
            Err(e) => Err(e),
            Ok(last) => {
                let by = spec_step(step);
                if by == 0 {
                    Err(SpecInterpreterError::InvalidStep(0))
                } else if by > 0 {
                    let from = match first {
                        Some(i) => i,
                        None => 0,
                    };
                    let to = match last {
                        Some(i) => i,
                        None => len,
                    };
                    if from <= to {
                        Ok(ascending(from, to, by as int))
                    } else {
                        Err(ascending_range_error())
                    }
                } else {
                    let from = match first {
                        Some(i) => i,
                        None => len - 1,
                    };
                    let to = match last {
                        Some(i) => i,
                        None => 0,
                    };
                    if from >= to {
                        Ok(descending(from, to, by as int))
                    } else {
                        Err(descending_range_error())
                    }
                }
            },
        },
    }
}

/// The positions that an index names in a result of `len` items. A result
/// too long for its length to be a 64-bit integer is beyond the limit.
pub open spec fn spec_positions(index: SpecIndex, len: int) -> Result<
    Seq<int>,
    SpecInterpreterError,
> {
    if len > i64::MAX {
        Err(SpecInterpreterError::ResultLimitExceeded(len as usize))
    } else {
        match index {
            SpecIndex::Single(i) => match spec_normal_index(i, len) {
                Ok(p) => Ok(seq![p]),
                Err(e) => Err(e),
            },
            SpecIndex::Multiple(indices) => spec_normal_indices(indices, 0, len),
            SpecIndex::Range(start, end, step) => spec_range_positions(start, end, step, len),
        }
    }
}

/// The items of `items` at `positions`, in the order of `positions`.
pub open spec fn picked<A>(items: Seq<A>, positions: Seq<int>) -> Seq<A> {
    Seq::new(positions.len(), |k: int| items[positions[k]])
}

/// An index applied to a result: the items at the positions that the index
/// names, in the order in which it names them.
pub open spec fn spec_apply_index(current: SpecResult, index: SpecIndex) -> Result<
    SpecResult,
    SpecInterpreterError,
> {
    match spec_positions(index, current.count() as int) {
        Err(e) => Err(e),
        Ok(positions) => Ok(
            match current {
                SpecResult::Nodes(nodes) => SpecResult::Nodes(picked(nodes, positions)),
                SpecResult::Texts(texts) => SpecResult::Texts(picked(texts, positions)),
            },
        ),
    }
}

/// Whether all of `positions` lie in `0..len`.
pub open spec fn all_within(positions: Seq<int>, len: int) -> bool {
    forall|k: int| 0 <= k < positions.len() ==> 0 <= #[trigger] positions[k] < len
}

/// The positions as mathematical integers.
pub open spec fn positions_view(positions: Seq<usize>) -> Seq<int> {
    Seq::new(positions.len(), |k: int| positions[k] as int)
}

/// The view of a result that holds positions.
pub open spec fn positions_result(r: Result<Vec<usize>, InterpreterError>) -> Result<
    Seq<int>,
    SpecInterpreterError,
> {
    match r {
        Ok(v) => Ok(positions_view(v@)),
        Err(e) => Err(e@),
    }
}

/// The view of a result that holds one position.
pub open spec fn position_result(r: Result<usize, InterpreterError>) -> Result<
    int,
    SpecInterpreterError,
> {
    match r {
        Ok(v) => Ok(v as int),
        Err(e) => Err(e@),
    }
}

/// The position that `index` names in a result of `len` items.
fn normal_index(index: &Literal, len: i64) -> (r: InterpreterResult<usize>)
    requires
        0 <= len <= usize::MAX,
    ensures
        position_result(r) == spec_normal_index(index@, len as int),
        r matches Ok(p) ==> p < len,
{
    match index {
        Literal::Int(n) => {
            let n = *n;
            if n >= 0 && n < len {
                Ok(n as usize)
            } else if n < 0 && n >= -len {
                Ok((n + len) as usize)
            } else {
                Err(
                    InterpreterError::IndexOutOfBounds(n as i128, len as usize),
                )
            }
        },
        _ => Err(
            InterpreterError::InvalidArgument(
                String::from_str("index selection expects a value of type int."),
            ),
        ),
    }
}

/// The positions that `indices` name, in their order.
fn normal_indices(indices: &Vec<Literal>, len: i64) -> (r: InterpreterResult<Vec<usize>>)
    requires
        0 <= len <= usize::MAX,
    ensures
        positions_result(r) == spec_normal_indices(literals_view(indices@), 0, len as int),
        r matches Ok(p) ==> all_within(positions_view(p@), len as int),
{
    let ghost all = literals_view(indices@);
    let mut positions: Vec<usize> = Vec::new();
    let mut i: usize = 0;
    while i < indices.len()
        invariant
            i <= indices.len(),
            0 <= len <= usize::MAX,
            all == literals_view(indices@),
            all_within(positions_view(positions@), len as int),
            match spec_normal_indices(all, i as int, len as int) {
                Ok(rest) => spec_normal_indices(all, 0, len as int) == Ok::<
                    Seq<int>,
                    SpecInterpreterError,
                >(positions_view(positions@) + rest),
                Err(e) => spec_normal_indices(all, 0, len as int) == Err::<
                    Seq<int>,
                    SpecInterpreterError,
                >(e),
            },
        decreases indices.len() - i,
    {
        let ghost before = positions_view(positions@);
        match normal_index(&indices[i], len) {
            Err(e) => {
                return Err(e);
            },
            Ok(p) => {
                positions.push(p);
                proof {
                    assert(positions_view(positions@) =~= before.push(p as int));
                    let rest = spec_normal_indices(all, i + 1, len as int);
                    if rest is Ok {
                        assert(before + (seq![p as int] + rest->Ok_0) =~= before.push(p as int)
                            + rest->Ok_0);
                    }
                }
            },
        }
        i += 1;
    }
    proof {
        assert(positions_view(positions@) + Seq::<int>::empty() =~= positions_view(positions@));
    }
    Ok(positions)
}

/// The position that a part of a range names, where the part is given.
fn range_bound(part: &Option<Literal>, len: i64) -> (r: InterpreterResult<Option<i64>>)
    requires
        0 <= len <= usize::MAX,
    ensures
        match r {
            Ok(Some(p)) => spec_range_bound(crate::parser::ast::optional_literal_view(*part), len as int)
                == Ok::<Option<int>, SpecInterpreterError>(Some(p as int)) && 0 <= p < len,
            Ok(None) => spec_range_bound(crate::parser::ast::optional_literal_view(*part), len as int)
                == Ok::<Option<int>, SpecInterpreterError>(None),
            Err(e) => spec_range_bound(crate::parser::ast::optional_literal_view(*part), len as int)
                == Err::<Option<int>, SpecInterpreterError>(e@),
        },
{
    match part {
        None => Ok(None),
        Some(index) => match normal_index(index, len) {
            Ok(p) => Ok(Some(p as i64)),
            Err(e) => Err(e),
        },
    }
}

/// The positions from `from` up to, but without, `to`, in steps of `step`.
fn ascending_positions(from: i64, to: i64, step: i64) -> (positions: Vec<usize>)
    requires
        0 <= from <= to <= usize::MAX,
        step > 0,
    ensures
        positions_view(positions@) == ascending(from as int, to as int, step as int),
        all_within(positions_view(positions@), to as int),
{
    let mut positions: Vec<usize> = Vec::new();
    let mut at: i64 = from;
    while at < to
        invariant
            0 <= from <= at,
            0 <= to <= usize::MAX,
            step > 0,
            all_within(positions_view(positions@), to as int),
            positions_view(positions@) + ascending(at as int, to as int, step as int) == ascending(
                from as int,
                to as int,
                step as int,
            ),
        decreases (if at < to {
            to - at
        } else {
            0
        }),
    {
        let ghost before = positions_view(positions@);
        positions.push(at as usize);
        proof {
            assert(positions_view(positions@) =~= before.push(at as int));
            assert(before + (seq![at as int] + ascending(at + step, to as int, step as int))
                =~= before.push(at as int) + ascending(at + step, to as int, step as int));
        }
        match at.checked_add(step) {
            Some(next) => {
                at = next;
            },
            None => {
                proof {
                    assert(ascending(at + step, to as int, step as int) =~= Seq::<int>::empty());
                    assert(positions_view(positions@) + Seq::<int>::empty() =~= positions_view(
                        positions@,
                    ));
                }
                return positions;
            },
        }
    }
    proof {
        assert(positions_view(positions@) + Seq::<int>::empty() =~= positions_view(positions@));
    }
    positions
}

/// The positions from `from` down to, and with, `to`, in steps of `step`.
fn descending_positions(from: i64, to: i64, step: i64) -> (positions: Vec<usize>)
    requires
        0 <= to <= from < usize::MAX,
        step < 0,
    ensures
        positions_view(positions@) == descending(from as int, to as int, step as int),
        all_within(positions_view(positions@), from + 1),
{
    let mut positions: Vec<usize> = Vec::new();
    let mut at: i64 = from;
    while at >= to
        invariant
            0 <= to,
            at <= from < usize::MAX,
            step < 0,
            all_within(positions_view(positions@), from + 1),
            positions_view(positions@) + descending(at as int, to as int, step as int)
                == descending(from as int, to as int, step as int),
        decreases (if at >= to {
            at - to + 1
        } else {
            0
        }),
    {
        let ghost before = positions_view(positions@);
        positions.push(at as usize);
        proof {
            assert(positions_view(positions@) =~= before.push(at as int));
            assert(before + (seq![at as int] + descending(at + step, to as int, step as int))
                =~= before.push(at as int) + descending(at + step, to as int, step as int));
        }
        at = at + step;
    }
    proof {
        assert(positions_view(positions@) + Seq::<int>::empty() =~= positions_view(positions@));
    }
    positions
}

/// The positions of a range in a result of `len` items.
#[verifier::rlimit(50)]
fn range_positions(
    start: &Option<Literal>,
    end: &Option<Literal>,
    step: &Option<Literal>,
    len: i64,
) -> (r: InterpreterResult<Vec<usize>>)
    requires
        0 <= len <= usize::MAX,
    ensures
        positions_result(r) == spec_range_positions(
            crate::parser::ast::optional_literal_view(*start),
            crate::parser::ast::optional_literal_view(*end),
            crate::parser::ast::optional_literal_view(*step),
            len as int,
        ),
        r matches Ok(p) ==> all_within(positions_view(p@), len as int),
{
    let start_index = match range_bound(start, len) {
        Ok(bound) => bound,
        Err(e) => {
            return Err(e);
        },
    };
    let end_index = match range_bound(end, len) {
        Ok(bound) => bound,
        Err(e) => {
            return Err(e);
        },
    };
    let step_value: i64 = match step {
        Some(Literal::Int(n)) => *n,
        _ => 1,
    };
    if step_value == 0 {
        Err(InterpreterError::InvalidStep(0))
    } else if step_value > 0 {
        let from: i64 = match start_index {
            Some(i) => i,
            None => 0,
        };
        let to: i64 = match end_index {
            Some(i) => i,
            None => len,
        };
        if from <= to {
            Ok(ascending_positions(from, to, step_value))
        } else {
            Err(
                InterpreterError::ExecutionError(
                    String::from_str(
                        "When the step size is positive, the starting index must be equal or less than the ending index.",
                    ),
                ),
            )
        }
    } else {
        let from: i64 = match start_index {
            Some(i) => i,
            None => len - 1,
        };
        let to: i64 = match end_index {
            Some(i) => i,
            None => 0,
        };
        if from >= to {
            Ok(descending_positions(from, to, step_value))
        } else {
            Err(
                InterpreterError::ExecutionError(
                    String::from_str(
                        "When the step size is negative, the starting index must be equal or greater than the ending index.",
                    ),
                ),
            )
        }
    }
}

/// The positions that `index` names in a result of `len` items, each within the result.
pub fn resolve_index(index: &IndexNode, len: usize) -> (r: InterpreterResult<Vec<usize>>)
    ensures
        positions_result(r) == spec_positions(index@, len as int),
        r matches Ok(p) ==> all_within(positions_view(p@), len as int),
{
    let wide: u64 = len as u64;
    if wide > 0x7FFF_FFFF_FFFF_FFFF {
        return Err(InterpreterError::ResultLimitExceeded(len));
    }
    let len = wide as i64;
    match index {
        IndexNode::Single(idx) => match normal_index(idx, len) {
            Ok(p) => {
                let mut positions: Vec<usize> = Vec::new();
                positions.push(p);
                proof {
                    assert(positions_view(positions@) =~= seq![p as int]);
                }
                Ok(positions)
            },
            Err(e) => Err(e),
        },
        IndexNode::Multiple(indices) => normal_indices(indices, len),
        IndexNode::Range(start, end, step) => range_positions(start, end, step, len),
    }
}

/// The nodes at `positions`.
fn pick_nodes(nodes: &Vec<NodeHandle>, positions: &Vec<usize>) -> (r: Vec<NodeHandle>)
    requires
        all_within(positions_view(positions@), nodes@.len() as int),
    ensures
        r@ == picked(nodes@, positions_view(positions@)),
{
    let mut r: Vec<NodeHandle> = Vec::new();
    let mut k: usize = 0;
    while k < positions.len()
        invariant
            k <= positions.len(),
            all_within(positions_view(positions@), nodes@.len() as int),
            r@ == picked(nodes@, positions_view(positions@)).take(k as int),
        decreases positions.len() - k,
    {
        proof {
            assert(positions_view(positions@)[k as int] == positions@[k as int]);
        }
        r.push(nodes[positions[k]]);
        proof {
            assert(r@ =~= picked(nodes@, positions_view(positions@)).take(k + 1));
        }
        k += 1;
    }
    proof {
        assert(picked(nodes@, positions_view(positions@)).take(positions.len() as int) =~= picked(
            nodes@,
            positions_view(positions@),
        ));
    }
    r
}

/// The texts at `positions`.
fn pick_texts(texts: &Vec<String>, positions: &Vec<usize>) -> (r: Vec<String>)
    requires
        all_within(positions_view(positions@), texts@.len() as int),
    ensures
        texts_view(r@) == picked(texts_view(texts@), positions_view(positions@)),
{
    let mut r: Vec<String> = Vec::new();
    let mut k: usize = 0;
    while k < positions.len()
        invariant
            k <= positions.len(),
            all_within(positions_view(positions@), texts@.len() as int),
            texts_view(r@) == picked(texts_view(texts@), positions_view(positions@)).take(k as int),
        decreases positions.len() - k,
    {
        proof {
            assert(positions_view(positions@)[k as int] == positions@[k as int]);
        }
        let text = texts[positions[k]].clone();
        proof {
            lemma_texts_view_push(r@, text);
            assert(texts_view(r@).push(text@) =~= picked(
                texts_view(texts@),
                positions_view(positions@),
            ).take(k + 1));
        }
        r.push(text);
        k += 1;
    }
    proof {
        assert(picked(texts_view(texts@), positions_view(positions@)).take(positions.len() as int)
            =~= picked(texts_view(texts@), positions_view(positions@)));
    }
    r
}

/// An index applied to a result.
pub fn evaluate_index(current: &SelectionResult, index: &IndexNode) -> (r: InterpreterResult<
    SelectionResult,
>)
    ensures
        result_view(r) == spec_apply_index(current@, index@),
{
    let positions = match resolve_index(index, current.count()) {
        Ok(positions) => positions,
        Err(e) => {
            return Err(e);
        },
    };
    match current {
        SelectionResult::Nodes(nodes) => Ok(SelectionResult::Nodes(pick_nodes(nodes, &positions))),
        SelectionResult::Texts(texts) => Ok(SelectionResult::Texts(pick_texts(texts, &positions))),
    }
}

/// Applies an index to the interpreter's current result, which may hold
/// nodes or texts. On an error the interpreter stays as it was.
pub fn apply_index_selection(it: &mut Interpreter, index: &IndexNode) -> (r: InterpreterResult<()>)
    ensures
        final(it).dom == old(it).dom,
        final(it).document == old(it).document,
        final(it).is_first_interpret == old(it).is_first_interpret,
        match r {
            Ok(_) => spec_apply_index(old(it).result@, index@) == Ok::<
                SpecResult,
                SpecInterpreterError,
            >(final(it).result@),
            Err(e) => spec_apply_index(old(it).result@, index@) == Err::<
                SpecResult,
                SpecInterpreterError,
            >(e@) && final(it).result == old(it).result,
        },
{
    match evaluate_index(&it.result, index) {
        Ok(picked) => {
            it.result = picked;
            Ok(())
        },
        Err(e) => Err(e),
    }
}

/// The index `-1` names the last item of a result that is not empty, as the
/// index one less than the length does.
pub proof fn lemma_minus_one_is_last(current: SpecResult)
    requires
        0 < current.count() <= i64::MAX,
    ensures
        spec_apply_index(current, SpecIndex::Single(SpecLiteral::Int(-1i64))) == spec_apply_index(
            current,
            SpecIndex::Single(SpecLiteral::Int((current.count() - 1) as i64)),
        ),
        spec_apply_index(current, SpecIndex::Single(SpecLiteral::Int(-1i64))) is Ok,
{
}

/// The index equal to the length of a result, and the index one below the
/// negative of the length, are out of bounds.
pub proof fn lemma_beyond_ends_is_out_of_bounds(current: SpecResult)
    requires
        current.count() < i64::MAX,
    ensures
        spec_apply_index(current, SpecIndex::Single(SpecLiteral::Int(current.count() as i64)))
            == Err::<SpecResult, SpecInterpreterError>(
            SpecInterpreterError::IndexOutOfBounds(
                current.count() as int,
                current.count() as usize,
            ),
        ),
        spec_apply_index(
            current,
            SpecIndex::Single(SpecLiteral::Int((-(current.count() + 1)) as i64)),
        ) == Err::<SpecResult, SpecInterpreterError>(
            SpecInterpreterError::IndexOutOfBounds(
                -(current.count() + 1),
                current.count() as usize,
            ),
        ),
{
}

/// A range that counts up from a start behind its end is an error, and so is
/// a range that counts down from a start in front of its end.
pub proof fn lemma_range_against_step_is_error(
    current: SpecResult,
    start: SpecLiteral,
    end: SpecLiteral,
    step: i64,
)
    requires
        current.count() <= i64::MAX,
        spec_normal_index(start, current.count() as int) is Ok,
        spec_normal_index(end, current.count() as int) is Ok,
    ensures
        step > 0 && spec_normal_index(start, current.count() as int)->Ok_0 > spec_normal_index(
            end,
            current.count() as int,
        )->Ok_0 ==> spec_apply_index(
            current,
            SpecIndex::Range(Some(start), Some(end), Some(SpecLiteral::Int(step))),
        ) == Err::<SpecResult, SpecInterpreterError>(ascending_range_error()),
        step < 0 && spec_normal_index(start, current.count() as int)->Ok_0 < spec_normal_index(
            end,
            current.count() as int,
        )->Ok_0 ==> spec_apply_index(
            current,
            SpecIndex::Range(Some(start), Some(end), Some(SpecLiteral::Int(step))),
        ) == Err::<SpecResult, SpecInterpreterError>(descending_range_error()),
{
}

} // verus!
