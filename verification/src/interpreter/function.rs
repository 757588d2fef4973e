//! Functions at work: transformations and filters of a list of texts.

use vstd::prelude::*;
use crate::interpreter::Interpreter;
use crate::interpreter::error::{InterpreterError, InterpreterResult, SpecInterpreterError};
use crate::interpreter::result::{
    SelectionResult, SpecResult, texts_view, lemma_texts_view_push, not_texts_error, joined_text,
    join_texts, clone_texts,
};

use crate::parser::result_view;
use crate::parser::ast::{FunctionNode, Literal, SpecFunction, SpecLiteral, literals_view};
use crate::strings::{
    trimmed_text, lemma_trim_idempotent, lowercase_text, uppercase_text, replaced_text,
    replaced_first_text, is_substring, parsed_i64, decimal_text, lower_hex_text, upper_hex_text,
    byte_range_text, str_eq, interleaved, str_contains, str_starts_with, str_ends_with, str_replace,
    str_replace_first, parse_i64, decimal_string, lower_hex_string, upper_hex_string,
    str_byte_range,
};

verus! {

/// What a transformation makes of one text.
pub enum Transformation {
    Trim,
    Lowercase,
    Uppercase,
    /// Every occurrence of the first text replaced by the second.
    Replace(Seq<char>, Seq<char>),
    /// The text put into a pattern.
    Format(Seq<char>),
    /// The part of the text between two byte offsets, each of which may be left out.
    Slice(Option<int>, Option<int>),
}

/// What decides whether a filter keeps a text.
pub enum Test {
    Contains(Seq<char>),
    StartsWith(Seq<char>),
    EndsWith(Seq<char>),
    /// The text is one of these.
    In(Seq<Seq<char>>),
}

/// A text put into a pattern. A pattern with `{}` in it has the text in the
/// place of the first `{}`. The patterns `%d`, `%i`, `%x` and `%X` render the
/// number that the trimmed text denotes in decimal or in hexadecimal, and
/// leave a text that denotes no number as it is; `%s` and `%f` leave every
/// text as it is. Any other pattern is put in front of the text.
pub open spec fn formatted_text(pattern: Seq<char>, text: Seq<char>) -> Seq<char> {
    if is_substring("{}"@, pattern) {
        replaced_first_text(pattern, "{}"@, text)
    } else if "%"@.is_prefix_of(pattern) {
        if pattern == "%s"@ || pattern == "%f"@ {
            text
        } else if pattern == "%d"@ || pattern == "%i"@ {
            match parsed_i64(trimmed_text(text)) {
                Some(n) => decimal_text(n as int),
                None => text,
            }
        } else if pattern == "%x"@ {
            match parsed_i64(trimmed_text(text)) {
                Some(n) => lower_hex_text(n),
                None => text,
            }
        } else if pattern == "%X"@ {
            match parsed_i64(trimmed_text(text)) {
                Some(n) => upper_hex_text(n),
                None => text,
            }
        } else {
            pattern + text
        }
    } else {
        pattern + text
    }
}

/// The length in bytes of the UTF-8 encoding of a text.
pub open spec fn byte_length(text: Seq<char>) -> int {
    vstd::utf8::encode_utf8(text).len() as int
}

/// `n`, but no more than `limit`.
pub open spec fn at_most(n: int, limit: int) -> int {
    if n > limit {
        limit
    } else {
        n
    }
}

/// The part of a text between two byte offsets. A start left out is 0, an
/// end left out the length of the text. An end beyond the text is the end of
/// the text; a start behind the end changes places with it, and is the end
/// of the text where it lies beyond. Offsets that do not lie on character
/// boundaries leave the text as it is.
pub open spec fn sliced_text(text: Seq<char>, start: Option<int>, end: Option<int>) -> Seq<char> {
    let length = byte_length(text);
    let first = match start {
        Some(n) => n,
        None => 0,
    };
    let last = at_most(
        match end {
            Some(n) => n,
            None => length,
        },
        length,
    );
    let part = if first > last {
        byte_range_text(text, last, at_most(first, length))
    } else {
        byte_range_text(text, first, last)
    };
    match part {
        Some(t) => t,
        None => text,
    }
}

/// What a transformation makes of one text.
pub open spec fn transformed(how: Transformation, text: Seq<char>) -> Seq<char> {
    match how {
        Transformation::Trim => trimmed_text(text),
        Transformation::Lowercase => lowercase_text(text),
        Transformation::Uppercase => uppercase_text(text),
        Transformation::Replace(from, to) => replaced_text(text, from, to),
        Transformation::Format(pattern) => formatted_text(pattern, text),
        Transformation::Slice(start, end) => sliced_text(text, start, end),
    }
}

/// Whether a filter keeps a text.
pub open spec fn passes(test: Test, text: Seq<char>) -> bool {
    match test {
        Test::Contains(inner) => is_substring(inner, text),
        Test::StartsWith(prefix) => prefix.is_prefix_of(text),
        Test::EndsWith(suffix) => suffix.is_suffix_of(text),
        Test::In(list) => list.contains(text),
    }
}

/// Every text transformed.
pub open spec fn all_transformed(how: Transformation, texts: Seq<Seq<char>>) -> Seq<Seq<char>> {
    Seq::new(texts.len(), |i: int| transformed(how, texts[i]))
}

/// The texts that pass the test, in their order.
pub open spec fn all_passing(test: Test, texts: Seq<Seq<char>>) -> Seq<Seq<char>>
    decreases texts.len(),
{
    if texts.len() == 0 {
        texts
    } else if passes(test, texts.last()) {
        all_passing(test, texts.drop_last()).push(texts.last())
    } else {
        all_passing(test, texts.drop_last())
    }
}

/// The error for a function called with the wrong number of arguments.
pub open spec fn arity_error(message: Seq<char>) -> SpecInterpreterError {
    SpecInterpreterError::MissingArgument(message)
}

/// The error for a function called with an argument of the wrong kind.
pub open spec fn kind_error(message: Seq<char>) -> SpecInterpreterError {
    SpecInterpreterError::InvalidArgument(message)
}

/// The texts of a list of literals that are all strings.
pub open spec fn string_list(items: Seq<SpecLiteral>) -> Option<Seq<Seq<char>>>
    decreases items.len(),
{
    if items.len() == 0 {
        Some(Seq::empty())
    } else {
        match (string_list(items.drop_last()), items.last()) {
            (Some(front), SpecLiteral::Str(v)) => Some(front.push(v)),
            _ => None,
        }
    }
}

/// A byte offset given as an argument of `slice`: an integer that is not
/// negative, or nothing.
pub open spec fn slice_bound(argument: SpecLiteral) -> Result<Option<int>, SpecInterpreterError> {
    match argument {
        SpecLiteral::Int(n) => if n < 0 {
            Err(kind_error("slice's parameter must be greater than or equal to 0."@))
        } else {
            Ok(Some(n as int))
        },
        SpecLiteral::Nil => Ok(None),
        _ => Err(kind_error("slice expect a value of type int"@)),
    }
}

/// What calling the function `name` with `arguments` makes of `texts`. The
/// number of arguments is checked first, then the kind of each in turn.
pub open spec fn spec_call(name: Seq<char>, arguments: Seq<SpecLiteral>, texts: Seq<Seq<char>>)
    -> Result<Seq<Seq<char>>, SpecInterpreterError> {
    if name == "trim"@ {
        if arguments.len() != 0 {
            Err(arity_error("trim must include 0 argument."@))
        } else {
            Ok(all_transformed(Transformation::Trim, texts))
        }
    } else if name == "replace"@ {
        if arguments.len() != 2 {
            Err(arity_error("replace must include 2 argument."@))
        } else {
            match (arguments[0], arguments[1]) {
                (SpecLiteral::Str(from), SpecLiteral::Str(to)) => Ok(
                    all_transformed(Transformation::Replace(from, to), texts),
                ),
                (SpecLiteral::Str(_), _) => Err(
                    kind_error("The 2th parameter of replace expects a value of type str."@),
                ),
                _ => Err(
                    kind_error("The first parameter of replace expects a value of type str."@),
                ),
            }
        }
    } else if name == "lowercase"@ {
        if arguments.len() != 0 {
            Err(arity_error("lowercase must include 0 argument."@))
        } else {
            Ok(all_transformed(Transformation::Lowercase, texts))
        }
    } else if name == "uppercase"@ {
        if arguments.len() != 0 {
            Err(arity_error("uppercase must include 0 argument."@))
        } else {
            Ok(all_transformed(Transformation::Uppercase, texts))
        }
    } else if name == "join"@ {
        if arguments.len() == 0 {
            Ok(seq![joined_text(texts, Seq::empty())])
        } else if arguments.len() == 1 {
            match arguments[0] {
                SpecLiteral::Str(separator) => Ok(seq![joined_text(texts, separator)]),
                _ => Err(kind_error("join expects a value of type str"@)),
            }
        } else {
            Err(arity_error("join must include 0 or 1 argument."@))
        }
    } else if name == "format"@ {
        if arguments.len() != 1 {
            Err(arity_error("format must include 1 argument."@))
        } else {
            match arguments[0] {
                SpecLiteral::Str(pattern) => Ok(
                    all_transformed(Transformation::Format(pattern), texts),
                ),
                _ => Err(kind_error("format expect a value of type str"@)),
            }
        }
    } else if name == "contains"@ {
        if arguments.len() != 1 {
            Err(arity_error("contains must include 1 argument."@))
        } else {
            match arguments[0] {
                SpecLiteral::Str(inner) => Ok(all_passing(Test::Contains(inner), texts)),
                _ => Err(kind_error("contains expect a value of type str"@)),
            }
        }
    } else if name == "starts_with"@ {
        if arguments.len() != 1 {
            Err(arity_error("starts_with must include 1 argument."@))
        } else {
            match arguments[0] {
                SpecLiteral::Str(prefix) => Ok(all_passing(Test::StartsWith(prefix), texts)),
                _ => Err(kind_error("starts_with expect a value of type str"@)),
            }
        }
    } else if name == "ends_with"@ {
        if arguments.len() != 1 {
            Err(arity_error("ends_with must include 1 argument."@))
        } else {
            match arguments[0] {
                SpecLiteral::Str(suffix) => Ok(all_passing(Test::EndsWith(suffix), texts)),
                _ => Err(kind_error("ends_with expect a value of type str"@)),
            }
        }
    } else if name == "in"@ {
        if arguments.len() != 1 {
            Err(arity_error("in must include 1 argument."@))
        } else {
            match arguments[0] {
                SpecLiteral::List(items) => match string_list(items) {
                    Some(list) => Ok(all_passing(Test::In(list), texts)),
                    None => Err(kind_error("in expect a value of type list<str>"@)),
                },
                _ => Err(kind_error("in expect a value of type list<str>"@)),
            }
        }
    } else if name == "slice"@ {
        if arguments.len() != 2 {
            Err(arity_error("slice must include 2 argument."@))
        } else {
            match slice_bound(arguments[0]) {
                Err(e) => Err(e),
                Ok(start) => match slice_bound(arguments[1]) {
                    Err(e) => Err(e),
                    Ok(end) => Ok(all_transformed(Transformation::Slice(start, end), texts)),
                },
            }
        }
    } else {
        Err(SpecInterpreterError::UnknownFunction(name))
    }
}

/// A function applied to a result, which must hold texts.
pub open spec fn spec_apply_function(current: SpecResult, function: SpecFunction) -> Result<
    SpecResult,
    SpecInterpreterError,
> {
    match current {
        SpecResult::Nodes(_) => Err(not_texts_error()),
        SpecResult::Texts(texts) => match spec_call(function.name, function.arguments, texts) {
            Ok(made) => Ok(SpecResult::Texts(made)),
            Err(e) => Err(e),
        },
    }
}

/// A transformation, as the functions below hand it on.
pub enum Operation<'a> {
    Trim,
    Lowercase,
    Uppercase,
    Replace(&'a str, &'a str),
    Format(&'a str),
    Slice(Option<u64>, Option<u64>),
}

/// A test of a filter, as the functions below hand it on.
pub enum Check<'a> {
    Contains(&'a str),
    StartsWith(&'a str),
    EndsWith(&'a str),
    In(&'a Vec<String>),
}

/// A byte offset as a mathematical integer, where it is given.
pub open spec fn offset_view(offset: Option<u64>) -> Option<int> {
    match offset {
        Some(n) => Some(n as int),
        None => None,
    }
}

impl<'a> View for Operation<'a> {
    type V = Transformation;

    open spec fn view(&self) -> Transformation {
        match self {
            Operation::Trim => Transformation::Trim,
            Operation::Lowercase => Transformation::Lowercase,
            Operation::Uppercase => Transformation::Uppercase,
            Operation::Replace(from, to) => Transformation::Replace(from@, to@),
            Operation::Format(pattern) => Transformation::Format(pattern@),
            Operation::Slice(start, end) => Transformation::Slice(
                offset_view(*start),
                offset_view(*end),
            ),
        }
    }
}

impl<'a> View for Check<'a> {
    type V = Test;

    open spec fn view(&self) -> Test {
        match self {
            Check::Contains(inner) => Test::Contains(inner@),
            Check::StartsWith(prefix) => Test::StartsWith(prefix@),
            Check::EndsWith(suffix) => Test::EndsWith(suffix@),
            Check::In(list) => Test::In(texts_view(list@)),
        }
    }
}

/// The number that a text denotes once trimmed, if it denotes one.
fn number_of(text: &str) -> (n: Option<i64>)
    ensures
        n == parsed_i64(trimmed_text(text@)),
{
    parse_i64(text.trim())
}

/// A text put into a pattern.
fn format_one(pattern: &str, text: &str) -> (r: String)
    ensures
        r@ == formatted_text(pattern@, text@),
{
    if str_contains(pattern, "{}") {
        proof {
            reveal_strlit("{}");
        }
        str_replace_first(pattern, "{}", text)
    } else if str_starts_with(pattern, "%") {
        if str_eq(pattern, "%s") || str_eq(pattern, "%f") {
            String::from_str(text)
        } else if str_eq(pattern, "%d") || str_eq(pattern, "%i") {
            match number_of(text) {
                Some(n) => decimal_string(n as i128),
                None => String::from_str(text),
            }
        } else if str_eq(pattern, "%x") {
            match number_of(text) {
                Some(n) => lower_hex_string(n),
                None => String::from_str(text),
            }
        } else if str_eq(pattern, "%X") {
            match number_of(text) {
                Some(n) => upper_hex_string(n),
                None => String::from_str(text),
            }
        } else {
            let mut r = String::from_str(pattern);
            r.append(text);
            r
        }
    } else {
        let mut r = String::from_str(pattern);
        r.append(text);
        r
    }
}

/// The part of a text between two byte offsets.
fn slice_one(text: &str, start: Option<u64>, end: Option<u64>) -> (r: String)
    ensures
        r@ == sliced_text(text@, offset_view(start), offset_view(end)),
{
    let length: usize = text.as_bytes().len();
    let wide: u64 = length as u64;
    let first: u64 = match start {
        Some(n) => n,
        None => 0,
    };
    let mut last: u64 = match end {
        Some(n) => n,
        None => wide,
    };
    if last > wide {
        last = wide;
    }
    let part = if first > last {
        let capped: u64 = if first > wide {
            wide
        } else {
            first
        };
        str_byte_range(text, last as usize, capped as usize)
    } else {
        str_byte_range(text, first as usize, last as usize)
    };
    match part {
        Some(t) => t,
        None => String::from_str(text),
    }
}

/// What a transformation makes of one text.
fn transform_one(how: &Operation, text: &str) -> (r: String)
    ensures
        r@ == transformed(how@, text@),
{
    match how {
        Operation::Trim => String::from_str(text.trim()),
        Operation::Lowercase => text.to_lowercase(),
        Operation::Uppercase => text.to_uppercase(),
        Operation::Replace(from, to) => {
            if from.is_empty() {
                proof {
                    assert(from@ =~= Seq::<char>::empty());
                }
                interleaved(text, to)
            } else {
                str_replace(text, from, to)
            }
        },
        Operation::Format(pattern) => format_one(pattern, text),
        Operation::Slice(start, end) => slice_one(text, *start, *end),
    }
}

/// Whether `text` is one of `list`.
fn is_one_of(list: &Vec<String>, text: &str) -> (found: bool)
    ensures
        found == texts_view(list@).contains(text@),
{
    let mut i: usize = 0;
    while i < list.len()
        invariant
            i <= list.len(),
            forall|j: int| 0 <= j < i ==> texts_view(list@)[j] != text@,
        decreases list.len() - i,
    {
        if str_eq(list[i].as_str(), text) {
            assert(texts_view(list@)[i as int] == text@);
            return true;
        }
        i += 1;
    }
    false
}

/// Whether a filter keeps a text.
fn check_one(test: &Check, text: &str) -> (r: bool)
    ensures
        r == passes(test@, text@),
{
    match test {
        Check::Contains(inner) => str_contains(text, inner),
        Check::StartsWith(prefix) => str_starts_with(text, prefix),
        Check::EndsWith(suffix) => str_ends_with(text, suffix),
        Check::In(list) => is_one_of(list, text),
    }
}

/// Transforms every text.
fn transform_all(texts: &mut Vec<String>, how: &Operation)
    ensures
        texts_view(final(texts)@) == all_transformed(how@, texts_view(old(texts)@)),
{
    let mut made: Vec<String> = Vec::new();
    let mut i: usize = 0;
    while i < texts.len()
        invariant
            i <= texts.len(),
            texts@ == old(texts)@,
            texts_view(made@) == all_transformed(how@, texts_view(texts@)).take(i as int),
        decreases texts.len() - i,
    {
        let text = transform_one(how, texts[i].as_str());
        proof {
            lemma_texts_view_push(made@, text);
            assert(texts_view(made@).push(text@) =~= all_transformed(
                how@,
                texts_view(texts@),
            ).take(i + 1));
        }
        made.push(text);
        i += 1;
    }
    proof {
        assert(all_transformed(how@, texts_view(texts@)).take(texts.len() as int)
            =~= all_transformed(how@, texts_view(texts@)));
    }
    *texts = made;
}

/// Keeps the texts that pass the test.
fn keep_passing(texts: &mut Vec<String>, test: &Check)
    ensures
        texts_view(final(texts)@) == all_passing(test@, texts_view(old(texts)@)),
{
    let mut result: Vec<String> = Vec::new();
    let mut i: usize = 0;
    proof {
        assert(texts_view(result@) =~= Seq::<Seq<char>>::empty());
        assert(texts_view(texts@).take(0) =~= Seq::<Seq<char>>::empty());
    }
    while i < texts.len()
        invariant
            i <= texts.len(),
            texts@ == old(texts)@,
            texts_view(result@) == all_passing(test@, texts_view(texts@).take(i as int)),
        decreases texts.len() - i,
    {
        proof {
            let next = texts_view(texts@).take(i + 1);
            assert(next.drop_last() =~= texts_view(texts@).take(i as int));
            assert(next.last() == texts@[i as int]@);
        }
        if check_one(test, texts[i].as_str()) {
            let text = texts[i].clone();
            proof {
                lemma_texts_view_push(result@, text);
            }
            result.push(text);
        }
        i += 1;
    }
    proof {
        assert(texts_view(texts@).take(texts.len() as int) =~= texts_view(texts@));
    }
    *texts = result;
}

/// Takes the whitespace off both ends of every text.
pub fn trim(texts: &mut Vec<String>)
    ensures
        texts_view(final(texts)@) == all_transformed(Transformation::Trim, texts_view(old(texts)@)),
{
    transform_all(texts, &Operation::Trim)
}

/// Replaces, in every text, every occurrence of `search` by `replacement`.
pub fn replace(texts: &mut Vec<String>, search: &str, replacement: &str)
    ensures
        texts_view(final(texts)@) == all_transformed(
            Transformation::Replace(search@, replacement@),
            texts_view(old(texts)@),
        ),
{
    transform_all(texts, &Operation::Replace(search, replacement))
}

/// Turns every text into lower case.
pub fn lowercase(texts: &mut Vec<String>)
    ensures
        texts_view(final(texts)@) == all_transformed(
            Transformation::Lowercase,
            texts_view(old(texts)@),
        ),
{
    transform_all(texts, &Operation::Lowercase)
}

/// Turns every text into upper case.
pub fn uppercase(texts: &mut Vec<String>)
    ensures
        texts_view(final(texts)@) == all_transformed(
            Transformation::Uppercase,
            texts_view(old(texts)@),
        ),
{
    transform_all(texts, &Operation::Uppercase)
}

/// Makes one text of all: the texts in their order, with `separator` between them.
pub fn join(texts: &mut Vec<String>, separator: &str)
    ensures
        texts_view(final(texts)@) == seq![joined_text(texts_view(old(texts)@), separator@)],
{
    let joined = join_texts(texts, separator);
    let mut made: Vec<String> = Vec::new();
    made.push(joined);
    proof {
        assert(texts_view(made@) =~= seq![joined@]);
    }
    *texts = made;
}

/// Puts every text into the pattern `format_str`.
pub fn format(texts: &mut Vec<String>, format_str: &str)
    ensures
        texts_view(final(texts)@) == all_transformed(
            Transformation::Format(format_str@),
            texts_view(old(texts)@),
        ),
{
    transform_all(texts, &Operation::Format(format_str))
}

/// Keeps the texts in which `inner` occurs.
pub fn contains(texts: &mut Vec<String>, inner: &str)
    ensures
        texts_view(final(texts)@) == all_passing(Test::Contains(inner@), texts_view(old(texts)@)),
{
    keep_passing(texts, &Check::Contains(inner))
}

/// Keeps the texts that start with `st`.
pub fn starts_with(texts: &mut Vec<String>, st: &str)
    ensures
        texts_view(final(texts)@) == all_passing(Test::StartsWith(st@), texts_view(old(texts)@)),
{
    keep_passing(texts, &Check::StartsWith(st))
}

/// Keeps the texts that end with `ed`.
pub fn ends_with(texts: &mut Vec<String>, ed: &str)
    ensures
        texts_view(final(texts)@) == all_passing(Test::EndsWith(ed@), texts_view(old(texts)@)),
{
    keep_passing(texts, &Check::EndsWith(ed))
}

/// Keeps the texts that are among `list`.
pub fn in_(texts: &mut Vec<String>, list: Vec<String>)
    ensures
        texts_view(final(texts)@) == all_passing(
            Test::In(texts_view(list@)),
            texts_view(old(texts)@),
        ),
{
    keep_passing(texts, &Check::In(&list))
}

/// Cuts every text down to the part between the byte offsets `st` and `ed`.
pub fn slice(texts: &mut Vec<String>, st: Option<u64>, ed: Option<u64>)
    ensures
        texts_view(final(texts)@) == all_transformed(
            Transformation::Slice(offset_view(st), offset_view(ed)),
            texts_view(old(texts)@),
        ),
{
    transform_all(texts, &Operation::Slice(st, ed))
}

/// The texts of a list of literals that are all strings.
fn strings_of(items: &Vec<Literal>) -> (r: Option<Vec<String>>)
    ensures
        match r {
            Some(list) => string_list(literals_view(items@)) == Some(texts_view(list@)),
            None => string_list(literals_view(items@)) is None,
        },
{
    let ghost all = literals_view(items@);
    let mut values: Vec<String> = Vec::new();
    let mut i: usize = 0;
    proof {
        assert(texts_view(values@) =~= Seq::<Seq<char>>::empty());
        assert(all.take(0) =~= Seq::<SpecLiteral>::empty());
    }
    while i < items.len()
        invariant
            i <= items.len(),
            all == literals_view(items@),
            string_list(all.take(i as int)) == Some(texts_view(values@)),
        decreases items.len() - i,
    {
        proof {
            let next = all.take(i + 1);
            assert(next.drop_last() =~= all.take(i as int));
            assert(next.last() == items@[i as int]@);
        }
        match &items[i] {
            Literal::Str(v) => {
                let text = v.clone();
                proof {
                    lemma_texts_view_push(values@, text);
                }
                values.push(text);
            },
            _ => {
                proof {
                    lemma_string_list_fails(all, i + 1);
                }
                return None;
            },
        }
        i += 1;
    }
    proof {
        assert(all.take(items.len() as int) =~= all);
    }
    Some(values)
}

/// A list whose front part holds something that is no string holds something that is no string.
proof fn lemma_string_list_fails(items: Seq<SpecLiteral>, upto: int)
    requires
        0 <= upto <= items.len(),
        string_list(items.take(upto)) is None,
    ensures
        string_list(items) is None,
    decreases items.len() - upto,
{
    if upto < items.len() {
        assert(items.take(upto + 1).drop_last() =~= items.take(upto));
        lemma_string_list_fails(items, upto + 1);
    } else {
        assert(items.take(upto) =~= items);
    }
}

/// A byte offset given as an argument of `slice`.
fn slice_offset(argument: &Literal) -> (r: InterpreterResult<Option<u64>>)
    ensures
        match r {
            Ok(offset) => slice_bound(argument@) == Ok::<Option<int>, SpecInterpreterError>(
                offset_view(offset),
            ),
            Err(e) => slice_bound(argument@) == Err::<Option<int>, SpecInterpreterError>(e@),
        },
{
    match argument {
        Literal::Int(n) => {
            if *n < 0 {
                Err(
                    InterpreterError::invalid_argument(
                        "slice's parameter must be greater than or equal to 0.",
                    ),
                )
            } else {
                Ok(Some(*n as u64))
            }
        },
        Literal::Nil => Ok(None),
        _ => Err(InterpreterError::invalid_argument("slice expect a value of type int")),
    }
}

/// The one argument of a function that takes a string: `arity` is the error
/// for another number of arguments, `kind` the error for an argument that is
/// no string.
fn one_string<'a>(arguments: &'a Vec<Literal>, arity: &str, kind: &str) -> (r: InterpreterResult<
    &'a str,
>)
    ensures
        match r {
            Ok(v) => arguments@.len() == 1 && literals_view(arguments@)[0] == SpecLiteral::Str(v@),
            Err(e) => if arguments@.len() != 1 {
                e@ == arity_error(arity@)
            } else {
                !(literals_view(arguments@)[0] is Str) && e@ == kind_error(kind@)
            },
        },
{
    if arguments.len() != 1 {
        return Err(InterpreterError::missing_argument(arity));
    }
    proof {
        assert(literals_view(arguments@)[0] == arguments@[0]@);
    }
    match &arguments[0] {
        Literal::Str(v) => Ok(v.as_str()),
        _ => Err(InterpreterError::invalid_argument(kind)),
    }
}

/// Calls the function of `node` on `texts`.
#[verifier::rlimit(50)]
pub fn call_function(texts: &mut Vec<String>, node: &FunctionNode) -> (r: InterpreterResult<()>)
    ensures
        match r {
            Ok(_) => spec_call(node@.name, node@.arguments, texts_view(old(texts)@)) == Ok::<
                Seq<Seq<char>>,
                SpecInterpreterError,
            >(texts_view(final(texts)@)),
            Err(e) => spec_call(node@.name, node@.arguments, texts_view(old(texts)@)) == Err::<
                Seq<Seq<char>>,
                SpecInterpreterError,
            >(e@) && final(texts)@ == old(texts)@,
        },
{
    let name = node.name.as_str();
    let arguments = &node.arguments;
    proof {
        assert(node@.arguments.len() == arguments@.len());
        assert forall|i: int| 0 <= i < arguments@.len() implies node@.arguments[i]
            == arguments@[i]@ by {}
    }
    if str_eq(name, "trim") {
        if arguments.len() != 0 {
            return Err(InterpreterError::missing_argument("trim must include 0 argument."));
        }
        trim(texts);
    } else if str_eq(name, "replace") {
        if arguments.len() != 2 {
            return Err(InterpreterError::missing_argument("replace must include 2 argument."));
        }
        let value0 = match &arguments[0] {
            Literal::Str(v) => v,
            _ => {
                return Err(
                    InterpreterError::invalid_argument(
                        "The first parameter of replace expects a value of type str.",
                    ),
                );
            },
        };
        let value1 = match &arguments[1] {
            Literal::Str(v) => v,
            _ => {
                return Err(
                    InterpreterError::invalid_argument(
                        "The 2th parameter of replace expects a value of type str.",
                    ),
                );
            },
        };
        replace(texts, value0.as_str(), value1.as_str());
    } else if str_eq(name, "lowercase") {
        if arguments.len() != 0 {
            return Err(InterpreterError::missing_argument("lowercase must include 0 argument."));
        }
        lowercase(texts);
    } else if str_eq(name, "uppercase") {
        if arguments.len() != 0 {
            return Err(InterpreterError::missing_argument("uppercase must include 0 argument."));
        }
        uppercase(texts);
    } else if str_eq(name, "join") {
        if arguments.len() == 0 {
            proof {
                reveal_strlit("");
                assert(""@ =~= Seq::<char>::empty());
            }
            join(texts, "");
        } else {
            let value0 = match one_string(
                arguments,
                "join must include 0 or 1 argument.",
                "join expects a value of type str",
            ) {
                Ok(v) => v,
                Err(e) => {
                    return Err(e);
                },
            };
            join(texts, value0);
        }
    } else if str_eq(name, "format") {
        let value0 = match one_string(
            arguments,
            "format must include 1 argument.",
            "format expect a value of type str",
        ) {
            Ok(v) => v,
            Err(e) => {
                return Err(e);
            },
        };
        format(texts, value0);
    } else if str_eq(name, "contains") {
        let value0 = match one_string(
            arguments,
            "contains must include 1 argument.",
            "contains expect a value of type str",
        ) {
            Ok(v) => v,
            Err(e) => {
                return Err(e);
            },
        };
        contains(texts, value0);
    } else if str_eq(name, "starts_with") {
        let value0 = match one_string(
            arguments,
            "starts_with must include 1 argument.",
            "starts_with expect a value of type str",
        ) {
            Ok(v) => v,
            Err(e) => {
                return Err(e);
            },
        };
        starts_with(texts, value0);
    } else if str_eq(name, "ends_with") {
        let value0 = match one_string(
            arguments,
            "ends_with must include 1 argument.",
            "ends_with expect a value of type str",
        ) {
            Ok(v) => v,
            Err(e) => {
                return Err(e);
            },
        };
        ends_with(texts, value0);
    } else if str_eq(name, "in") {
        if arguments.len() != 1 {
            return Err(InterpreterError::missing_argument("in must include 1 argument."));
        }
        let value0 = match &arguments[0] {
            Literal::List(list) => match strings_of(list) {
                Some(values) => values,
                None => {
                    return Err(
                        InterpreterError::invalid_argument("in expect a value of type list<str>"),
                    );
                },
            },
            _ => {
                return Err(
                    InterpreterError::invalid_argument("in expect a value of type list<str>"),
                );
            },
        };
        in_(texts, value0);
    } else if str_eq(name, "slice") {
        if arguments.len() != 2 {
            return Err(InterpreterError::missing_argument("slice must include 2 argument."));
        }
        let st = match slice_offset(&arguments[0]) {
            Ok(offset) => offset,
            Err(e) => {
                return Err(e);
            },
        };
        let ed = match slice_offset(&arguments[1]) {
            Ok(offset) => offset,
            Err(e) => {
                return Err(e);
            },
        };
        slice(texts, st, ed);
    } else {
        return Err(InterpreterError::UnknownFunction(node.name.clone()));
    }
    Ok(())
}

/// A function applied to a result.
pub fn evaluate_function(current: &SelectionResult, node: &FunctionNode) -> (r: InterpreterResult<
    SelectionResult,
>)
    ensures
        result_view(r) == spec_apply_function(current@, node@),
{
    let given = match current.texts() {
        Ok(texts) => texts,
        Err(e) => {
            return Err(e);
        },
    };
    let mut texts = clone_texts(given);
    match call_function(&mut texts, node) {
        Ok(_) => Ok(SelectionResult::Texts(texts)),
        Err(e) => Err(e),
    }
}

/// Applies a function to the interpreter's current result, which must hold
/// texts. On an error the interpreter stays as it was.
pub fn apply_function(it: &mut Interpreter, node: &FunctionNode) -> (r: InterpreterResult<()>)
    ensures
        final(it).dom == old(it).dom,
        final(it).document == old(it).document,
        final(it).is_first_interpret == old(it).is_first_interpret,
        match r {
            Ok(_) => spec_apply_function(old(it).result@, node@) == Ok::<
                SpecResult,
                SpecInterpreterError,
            >(final(it).result@),
            Err(e) => spec_apply_function(old(it).result@, node@) == Err::<
                SpecResult,
                SpecInterpreterError,
            >(e@) && final(it).result == old(it).result,
        },
{
    match evaluate_function(&it.result, node) {
        Ok(made) => {
            it.result = made;
            Ok(())
        },
        Err(e) => Err(e),
    }
}

/// Whether a call is `format` with the one pattern `%f`, which asks for each
/// text to be read as a floating-point number and written anew. The library
/// holds no such numbers and leaves the texts of such a call as they are; a
/// caller that holds them can do the rest where this call is the last step.
pub open spec fn is_float_format(function: SpecFunction) -> bool {
    function.name == "format"@ && function.arguments == seq![SpecLiteral::Str("%f"@)]
}

/// Whether `function` is `format` with the one pattern `%f`.
pub fn float_format(function: &FunctionNode) -> (b: bool)
    ensures
        b == is_float_format(function@),
{
    if !str_eq(function.name.as_str(), "format") || function.arguments.len() != 1 {
        proof {
            assert(function@.arguments.len() == function.arguments@.len());
            assert(seq![SpecLiteral::Str("%f"@)].len() == 1);
        }
        return false;
    }
    let found = match &function.arguments[0] {
        Literal::Str(pattern) => str_eq(pattern.as_str(), "%f"),
        _ => false,
    };
    proof {
        let arguments = function@.arguments;
        assert(arguments.len() == 1);
        assert(arguments[0] == function.arguments@[0]@);
        if found {
            assert(arguments =~= seq![SpecLiteral::Str("%f"@)]);
        } else {
            assert(seq![SpecLiteral::Str("%f"@)][0] == SpecLiteral::Str("%f"@));
        }
    }
    found
}

/// Trimming texts that have been trimmed changes nothing.
pub proof fn lemma_trim_twice(texts: Seq<Seq<char>>)
    ensures
        all_transformed(Transformation::Trim, all_transformed(Transformation::Trim, texts))
            == all_transformed(Transformation::Trim, texts),
{
    let once = all_transformed(Transformation::Trim, texts);
    let twice = all_transformed(Transformation::Trim, once);
    assert forall|i: int| 0 <= i < once.len() implies twice[i] == once[i] by {
        lemma_trim_idempotent(texts[i]);
    }
    assert(twice =~= once);
}

/// Calling `trim` on texts, and `trim` again on what it made, gives what one call gives.
pub proof fn lemma_trim_call_twice(texts: Seq<Seq<char>>)
    ensures
        spec_call("trim"@, Seq::empty(), texts) matches Ok(once) && spec_call(
            "trim"@,
            Seq::empty(),
            once,
        ) == Ok::<Seq<Seq<char>>, SpecInterpreterError>(once),
{
    lemma_trim_twice(texts);
}

} // verus!
