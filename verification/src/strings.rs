//! Text primitives shared by the lexer, the parser and the interpreter.
//!
//! The standard library's routines on `char` and `str` that the verifier has no
//! description of are given one here. Each such description is believed, not proved.

use vstd::prelude::*;
use vstd::string::*;

verus! {

/// Whether `c` is whitespace: whether it has the Unicode property
/// White_Space. These are the tab, the line feed, the vertical tab, the form
/// feed, the carriage return and the space; the next-line character and the
/// no-break space; the Ogham space mark; the spaces from the en quad to the
/// hair space; the line and the paragraph separator; the narrow no-break
/// space, the medium mathematical space and the ideographic space.
pub open spec fn char_is_whitespace(c: char) -> bool {
    ('\u{9}' <= c <= '\u{D}') || c == ' ' || c == '\u{85}' || c == '\u{A0}' || c == '\u{1680}' || (
    '\u{2000}' <= c <= '\u{200A}') || c == '\u{2028}' || c == '\u{2029}' || c == '\u{202F}' || c
        == '\u{205F}' || c == '\u{3000}'
}

/// What `char::is_alphabetic` answers: whether `c` has the Unicode property Alphabetic.
pub uninterp spec fn char_is_alphabetic(c: char) -> bool;

/// What `char::is_alphanumeric` answers: whether `c` is alphabetic or numeric in Unicode's terms.
pub uninterp spec fn char_is_alphanumeric(c: char) -> bool;

/// What `str::to_lowercase` returns for the text `s`.
pub uninterp spec fn lowercase_text(s: Seq<char>) -> Seq<char>;

/// What `str::to_uppercase` returns for the text `s`.
pub uninterp spec fn uppercase_text(s: Seq<char>) -> Seq<char>;

/// Whether `regex::Regex::new` accepts `pattern`.
pub uninterp spec fn regex_compiles(pattern: Seq<char>) -> bool;

/// What `regex::Regex::is_match` answers for the regular expression compiled
/// from `pattern` and the text `text`: whether the expression matches
/// somewhere in the text.
pub uninterp spec fn regex_matches(pattern: Seq<char>, text: Seq<char>) -> bool;

/// The text of the error with which `regex::Regex::new` refuses `pattern`.
pub uninterp spec fn regex_error_text(pattern: Seq<char>) -> Seq<char>;

/// `char::is_whitespace` decides the White_Space property, whose characters
/// `char_is_whitespace` lists.
pub assume_specification[ char::is_whitespace ](c: char) -> (b: bool)
    ensures
        b == char_is_whitespace(c),
;

/// `char::is_alphabetic` decides the Alphabetic property.
pub assume_specification[ char::is_alphabetic ](c: char) -> (b: bool)
    ensures
        b == char_is_alphabetic(c),
;

/// `char::is_alphanumeric` decides whether a character is alphabetic or numeric.
pub assume_specification[ char::is_alphanumeric ](c: char) -> (b: bool)
    ensures
        b == char_is_alphanumeric(c),
;

/// `char::from_u32` accepts exactly the Unicode scalar values, and keeps the number.
pub assume_specification[ char::from_u32 ](i: u32) -> (r: Option<char>)
    ensures
        r == if i <= 0xD7FF || (0xE000 <= i <= 0x10FFFF) {
            Some(i as char)
        } else {
            None
        },
;

/// `String::push` appends one character.
pub assume_specification[ String::push ](s: &mut String, c: char)
    ensures
        final(s)@ == old(s)@.push(c),
;

/// `str::trim` removes the whitespace at both ends.
pub assume_specification[ str::trim ](s: &str) -> (r: &str)
    ensures
        r@ == trimmed_text(s@),
;

/// `str::to_lowercase` returns the lower-case form of the text.
pub assume_specification[ str::to_lowercase ](s: &str) -> (r: String)
    ensures
        r@ == lowercase_text(s@),
;

/// `str::to_uppercase` returns the upper-case form of the text.
pub assume_specification[ str::to_uppercase ](s: &str) -> (r: String)
    ensures
        r@ == uppercase_text(s@),
;

/// The character for the digit `d`, which is one of 0 to 15: `0` to `9`,
/// then `a` to `f`, or `A` to `F` where `upper`.
pub open spec fn digit_char(d: int, upper: bool) -> char {
    if d < 10 {
        ('0' as int + d) as char
    } else if upper {
        ('A' as int + d - 10) as char
    } else {
        ('a' as int + d - 10) as char
    }
}

/// The decimal digits of `n`, the most significant first; at least one digit.
pub open spec fn natural_text(n: nat) -> Seq<char>
    decreases n,
{
    if n < 10 {
        seq![digit_char(n as int, false)]
    } else {
        natural_text(n / 10).push(digit_char((n % 10) as int, false))
    }
}

/// The hexadecimal digits of `n`, the most significant first; at least one digit.
pub open spec fn natural_hex_text(n: nat, upper: bool) -> Seq<char>
    decreases n,
{
    if n < 16 {
        seq![digit_char(n as int, upper)]
    } else {
        natural_hex_text(n / 16, upper).push(digit_char((n % 16) as int, upper))
    }
}

/// The decimal rendering of `n`: its digits, behind a minus sign where it is negative.
pub open spec fn decimal_text(n: int) -> Seq<char> {
    if n < 0 {
        seq!['-'] + natural_text((-n) as nat)
    } else {
        natural_text(n as nat)
    }
}

/// The 64 bits of `n` as a number that is not negative.
pub open spec fn as_unsigned(n: i64) -> nat {
    if n >= 0 {
        n as nat
    } else {
        (n + 0x1_0000_0000_0000_0000) as nat
    }
}

/// The hexadecimal rendering of the 64 bits of `n`, with lower-case digits.
pub open spec fn lower_hex_text(n: i64) -> Seq<char> {
    natural_hex_text(as_unsigned(n), false)
}

/// The hexadecimal rendering of the 64 bits of `n`, with upper-case digits.
pub open spec fn upper_hex_text(n: i64) -> Seq<char> {
    natural_hex_text(as_unsigned(n), true)
}

/// The number that a run of decimal digits denotes.
pub open spec fn digits_value(s: Seq<char>) -> nat
    decreases s.len(),
{
    if s.len() == 0 {
        0
    } else {
        (digits_value(s.drop_last()) * 10 + (s.last() as int - '0' as int)) as nat
    }
}

/// Whether `s` holds decimal digits only.
pub open spec fn all_digits(s: Seq<char>) -> bool {
    forall|i: int| 0 <= i < s.len() ==> is_ascii_digit(#[trigger] s[i])
}

/// The 64-bit integer that `s` denotes: digits, at least one, behind a plus
/// or a minus sign or behind none, whose value with the sign is a 64-bit
/// integer. Any other text denotes none.
pub open spec fn parsed_i64(s: Seq<char>) -> Option<i64> {
    let negative = s.len() > 0 && s[0] == '-';
    let digits = if s.len() > 0 && (s[0] == '-' || s[0] == '+') {
        s.drop_first()
    } else {
        s
    };
    let value = if negative {
        -(digits_value(digits) as int)
    } else {
        digits_value(digits) as int
    };
    if digits.len() > 0 && all_digits(digits) && i64::MIN <= value <= i64::MAX {
        Some(value as i64)
    } else {
        None
    }
}

/// `s` without its leading whitespace.
pub open spec fn trim_start_text(s: Seq<char>) -> Seq<char>
    decreases s.len(),
{
    if s.len() > 0 && char_is_whitespace(s[0]) {
        trim_start_text(s.drop_first())
    } else {
        s
    }
}

/// `s` without its trailing whitespace.
pub open spec fn trim_end_text(s: Seq<char>) -> Seq<char>
    decreases s.len(),
{
    if s.len() > 0 && char_is_whitespace(s.last()) {
        trim_end_text(s.drop_last())
    } else {
        s
    }
}

/// `s` without the whitespace at either end.
pub open spec fn trimmed_text(s: Seq<char>) -> Seq<char> {
    trim_end_text(trim_start_text(s))
}

/// Whether `needle` occurs in `hay` as a contiguous run.
pub open spec fn is_substring(needle: Seq<char>, hay: Seq<char>) -> bool {
    exists|i: int|
        0 <= i && i + needle.len() <= hay.len() && #[trigger] hay.subrange(i, i + needle.len())
            == needle
}

/// `s` with every occurrence of `from` replaced by `to`, scanning from the left
/// and never looking again at what a replacement covered. An empty `from`
/// occurs before every character and at the end.
pub open spec fn replaced_text(s: Seq<char>, from: Seq<char>, to: Seq<char>) -> Seq<char>
    decreases s.len(),
{
    if s.len() == 0 {
        if from.len() == 0 {
            to
        } else {
            s
        }
    } else if from.len() == 0 {
        to + seq![s[0]] + replaced_text(s.drop_first(), from, to)
    } else if from.is_prefix_of(s) {
        to + replaced_text(s.skip(from.len() as int), from, to)
    } else {
        seq![s[0]] + replaced_text(s.drop_first(), from, to)
    }
}

/// `s` with the leftmost occurrence of the non-empty `from` replaced by `to`.
pub open spec fn replaced_first_text(s: Seq<char>, from: Seq<char>, to: Seq<char>) -> Seq<char>
    decreases s.len(),
{
    if s.len() < from.len() || from.len() == 0 {
        s
    } else if from.is_prefix_of(s) {
        to + s.skip(from.len() as int)
    } else {
        seq![s[0]] + replaced_first_text(s.drop_first(), from, to)
    }
}

/// How many characters at the start of `s` are not whitespace.
pub open spec fn word_length(s: Seq<char>) -> nat
    decreases s.len(),
{
    if s.len() > 0 && !char_is_whitespace(s[0]) {
        1 + word_length(s.drop_first())
    } else {
        0
    }
}

/// The words of `s`: its maximal runs of characters that are not whitespace, in order.
pub open spec fn split_words(s: Seq<char>) -> Seq<Seq<char>>
    decreases s.len(),
{
    let rest = trim_start_text(s);
    let n = word_length(rest);
    if 0 < n <= rest.len() <= s.len() {
        seq![rest.take(n as int)] + split_words(rest.skip(n as int))
    } else {
        Seq::empty()
    }
}

/// `regex::Regex::new` on `pattern`, then `regex::Regex::is_match` on `text`:
/// whether the regular expression matches somewhere in the text, or the text
/// of the error where the pattern does not compile.
#[verifier::external_body]
pub(crate) fn regex_search(pattern: &str, text: &str) -> (r: Result<bool, String>)
    ensures
        r is Ok <==> regex_compiles(pattern@),
        r matches Ok(found) ==> found == regex_matches(pattern@, text@),
        r matches Err(message) ==> message@ == regex_error_text(pattern@),
{
    match regex::Regex::new(pattern) {
        Ok(re) => Ok(re.is_match(text)),
        Err(e) => Err(e.to_string()),
    }
}

/// `str::split_whitespace`: the words of `s`, each as a text of its own.
#[verifier::external_body]
pub(crate) fn split_whitespace(s: &str) -> (r: Vec<String>)
    ensures
        r@.len() == split_words(s@).len(),
        forall|i: int| 0 <= i < r@.len() ==> #[trigger] r@[i]@ == split_words(s@)[i],
{
    s.split_whitespace().map(|w| w.to_string()).collect()
}

/// `str::get` with a range of byte offsets: the part of `s` from `start` to
/// `end`, where both lie on character boundaries and in this order within `s`.
#[verifier::external_body]
pub(crate) fn str_byte_range(s: &str, start: usize, end: usize) -> (r: Option<String>)
    ensures
        match r {
            Some(part) => byte_range_text(s@, start as int, end as int) == Some(part@),
            None => byte_range_text(s@, start as int, end as int) is None,
        },
{
    s.get(start..end).map(|part| part.to_string())
}

/// The part of `s` whose UTF-8 encoding is the bytes of `s` from `start` to
/// `end`, where both lie on character boundaries and in this order within the
/// encoding of `s`.
pub open spec fn byte_range_text(s: Seq<char>, start: int, end: int) -> Option<Seq<char>> {
    let bytes = vstd::utf8::encode_utf8(s);
    if 0 <= start <= end <= bytes.len() && vstd::utf8::is_char_boundary(bytes, start)
        && vstd::utf8::is_char_boundary(bytes, end) {
        Some(vstd::utf8::decode_utf8(bytes.subrange(start, end)))
    } else {
        None
    }
}

/// Equality of two string slices, by `str`'s own `==`.
#[verifier::external_body]
pub(crate) fn str_eq(a: &str, b: &str) -> (r: bool)
    ensures
        r == (a@ == b@),
{
    a == b
}

/// `str::contains` with a string pattern: whether `needle` occurs in `hay`.
#[verifier::external_body]
pub(crate) fn str_contains(hay: &str, needle: &str) -> (r: bool)
    ensures
        r == is_substring(needle@, hay@),
{
    hay.contains(needle)
}

/// `str::starts_with` with a string pattern.
#[verifier::external_body]
pub(crate) fn str_starts_with(hay: &str, prefix: &str) -> (r: bool)
    ensures
        r == prefix@.is_prefix_of(hay@),
{
    hay.starts_with(prefix)
}

/// `str::ends_with` with a string pattern.
#[verifier::external_body]
pub(crate) fn str_ends_with(hay: &str, suffix: &str) -> (r: bool)
    ensures
        r == suffix@.is_suffix_of(hay@),
{
    hay.ends_with(suffix)
}

/// `str::replace` with a string pattern that is not empty: every occurrence
/// replaced, scanning from the left and never looking again at what a
/// replacement covered.
#[verifier::external_body]
pub(crate) fn str_replace(s: &str, from: &str, to: &str) -> (r: String)
    requires
        from@.len() > 0,
    ensures
        r@ == replaced_text(s@, from@, to@),
{
    s.replace(from, to)
}

/// `s` with `to` in front of every character and at the end: what replacing
/// every occurrence of the empty text by `to` comes to.
pub fn interleaved(s: &str, to: &str) -> (r: String)
    ensures
        r@ == replaced_text(s@, Seq::empty(), to@),
{
    let chars = chars_of(s);
    let mut done: usize = 0;
    let mut out = String::new();
    proof {
        assert(s@.skip(0) =~= s@);
        assert(Seq::<char>::empty() + replaced_text(s@, Seq::empty(), to@) =~= replaced_text(
            s@,
            Seq::empty(),
            to@,
        ));
    }
    while done < chars.len()
        invariant
            done <= chars.len(),
            chars@ == s@,
            out@ + replaced_text(s@.skip(done as int), Seq::empty(), to@) == replaced_text(
                s@,
                Seq::empty(),
                to@,
            ),
        decreases chars.len() - done,
    {
        let ghost before = out@;
        let ghost rest = s@.skip(done as int);
        out.append(to);
        out.push(chars[done]);
        proof {
            assert(rest.len() > 0);
            assert(rest[0] == chars@[done as int]);
            assert(rest.drop_first() =~= s@.skip(done + 1));
            assert(before + (to@ + seq![rest[0]] + replaced_text(
                s@.skip(done + 1),
                Seq::empty(),
                to@,
            )) =~= (before + to@).push(chars@[done as int]) + replaced_text(
                s@.skip(done + 1),
                Seq::empty(),
                to@,
            ));
        }
        done += 1;
    }
    proof {
        assert(s@.skip(chars.len() as int) =~= Seq::<char>::empty());
    }
    out.append(to);
    out
}

/// `str::replacen` with a string pattern and a count of one: the leftmost occurrence replaced.
#[verifier::external_body]
pub(crate) fn str_replace_first(s: &str, from: &str, to: &str) -> (r: String)
    requires
        from@.len() > 0,
    ensures
        r@ == replaced_first_text(s@, from@, to@),
{
    s.replacen(from, to, 1)
}

/// `i128::to_string`: the decimal rendering of a number, with a minus sign
/// in front where it is negative.
#[verifier::external_body]
pub(crate) fn decimal_string(n: i128) -> (r: String)
    ensures
        r@ == decimal_text(n as int),
{
    n.to_string()
}

/// `str::parse::<i64>`: the number that a text of decimal digits, with or
/// without a sign in front, denotes, where it is a 64-bit integer.
#[verifier::external_body]
pub(crate) fn parse_i64(s: &str) -> (r: Option<i64>)
    ensures
        r == parsed_i64(s@),
{
    s.parse::<i64>().ok()
}

/// The `{:x}` format of an `i64`: its 64 bits in hexadecimal, with lower-case digits.
#[verifier::external_body]
pub(crate) fn lower_hex_string(n: i64) -> (r: String)
    ensures
        r@ == lower_hex_text(n),
{
    format!("{:x}", n)
}

/// The `{:X}` format of an `i64`: its 64 bits in hexadecimal, with upper-case digits.
#[verifier::external_body]
pub(crate) fn upper_hex_string(n: i64) -> (r: String)
    ensures
        r@ == upper_hex_text(n),
{
    format!("{:X}", n)
}

/// The characters of `s`, in order.
pub fn chars_of(s: &str) -> (v: Vec<char>)
    ensures
        v@ == s@,
{
    let mut v: Vec<char> = Vec::new();
    for c in it: s.chars()
        invariant
            v@ == it.seq().take(it.index() as int),
    {
        v.push(c);
    }
    v
}

/// The text made of `v[from..to]`.
pub fn string_of_range(v: &Vec<char>, from: usize, to: usize) -> (s: String)
    requires
        from <= to <= v.len(),
    ensures
        s@ == v@.subrange(from as int, to as int),
{
    let mut s = String::new();
    let mut i: usize = from;
    while i < to
        invariant
            from <= i <= to <= v.len(),
            s@ == v@.subrange(from as int, i as int),
        decreases to - i,
    {
        s.push(v[i]);
        i += 1;
    }
    s
}

/// The text made of the characters of `v`.
pub fn string_of(v: &Vec<char>) -> (s: String)
    ensures
        s@ == v@,
{
    let s = string_of_range(v, 0, v.len());
    assert(v@.subrange(0, v.len() as int) == v@);
    s
}

/// Whether `c` is one of `0` to `9`.
pub open spec fn is_ascii_digit(c: char) -> bool {
    '0' <= c <= '9'
}

/// Whether `c` is an ASCII letter.
pub open spec fn is_ascii_alphabetic(c: char) -> bool {
    ('a' <= c <= 'z') || ('A' <= c <= 'Z')
}

/// Whether `c` is a hexadecimal digit.
pub open spec fn is_ascii_hexdigit(c: char) -> bool {
    is_ascii_digit(c) || ('a' <= c <= 'f') || ('A' <= c <= 'F')
}

/// The value of the hexadecimal digit `c`.
pub open spec fn hex_digit_value(c: char) -> int {
    if is_ascii_digit(c) {
        c as int - '0' as int
    } else if 'a' <= c <= 'f' {
        c as int - 'a' as int + 10
    } else {
        c as int - 'A' as int + 10
    }
}

/// Decides `is_ascii_digit`.
pub fn char_is_ascii_digit(c: char) -> (b: bool)
    ensures
        b == is_ascii_digit(c),
{
    c >= '0' && c <= '9'
}

/// Decides `is_ascii_alphabetic`.
pub fn char_is_ascii_alphabetic(c: char) -> (b: bool)
    ensures
        b == is_ascii_alphabetic(c),
{
    (c >= 'a' && c <= 'z') || (c >= 'A' && c <= 'Z')
}

/// Decides `is_ascii_hexdigit`.
pub fn char_is_ascii_hexdigit(c: char) -> (b: bool)
    ensures
        b == is_ascii_hexdigit(c),
{
    char_is_ascii_digit(c) || (c >= 'a' && c <= 'f') || (c >= 'A' && c <= 'F')
}

/// The value of the hexadecimal digit `c`, from 0 to 15.
pub fn char_hex_value(c: char) -> (v: u32)
    requires
        is_ascii_hexdigit(c),
    ensures
        v == hex_digit_value(c),
        v < 16,
{
    if char_is_ascii_digit(c) {
        c as u32 - '0' as u32
    } else if c >= 'a' && c <= 'f' {
        c as u32 - 'a' as u32 + 10
    } else {
        c as u32 - 'A' as u32 + 10
    }
}

/// Trimming a text twice gives what trimming it once gives.
pub proof fn lemma_trim_idempotent(s: Seq<char>)
    ensures
        trimmed_text(trimmed_text(s)) == trimmed_text(s),
{
    let a = trim_start_text(s);
    lemma_trim_start_fixed(s);
    lemma_trim_end_keeps_start(a);
    lemma_trim_end_fixed(a);
    let t = trim_end_text(a);
    assert(trim_start_text(t) == t);
    assert(trim_end_text(t) == t);
}

/// What `trim_start_text` returns has no leading whitespace left.
proof fn lemma_trim_start_fixed(s: Seq<char>)
    ensures
        trim_start_text(s).len() > 0 ==> !char_is_whitespace(trim_start_text(s)[0]),
        trim_start_text(trim_start_text(s)) == trim_start_text(s),
    decreases s.len(),
{
    if s.len() > 0 && char_is_whitespace(s[0]) {
        lemma_trim_start_fixed(s.drop_first());
    }
}

/// What `trim_end_text` returns has no trailing whitespace left.
proof fn lemma_trim_end_fixed(s: Seq<char>)
    ensures
        trim_end_text(s).len() > 0 ==> !char_is_whitespace(trim_end_text(s).last()),
        trim_end_text(trim_end_text(s)) == trim_end_text(s),
    decreases s.len(),
{
    if s.len() > 0 && char_is_whitespace(s.last()) {
        lemma_trim_end_fixed(s.drop_last());
    }
}

/// Removing trailing whitespace from a text that starts with none leaves a
/// text that starts with none.
proof fn lemma_trim_end_keeps_start(s: Seq<char>)
    requires
        s.len() > 0 ==> !char_is_whitespace(s[0]),
    ensures
        trim_end_text(s).len() > 0 ==> !char_is_whitespace(trim_end_text(s)[0]),
        trim_start_text(trim_end_text(s)) == trim_end_text(s),
    decreases s.len(),
{
    if s.len() > 0 && char_is_whitespace(s.last()) {
        if s.len() > 1 {
            assert(s.drop_last()[0] == s[0]);
        }
        lemma_trim_end_keeps_start(s.drop_last());
    }
}

} // verus!
