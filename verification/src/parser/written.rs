//! What the lexer makes of a selector that was written from tokens: the
//! tokens again.

use vstd::prelude::*;
use crate::lexer::{
    SpecToken, SpecLexerError, Token, Cursor, step, skip_while, whitespace_pred, digit_pred,
    function_name_pred, argument_pred, ends_argument, is_function_name_part, is_function_name, word_token,
    scan_token, scan_number, scan_function, scan_quoted, unescaped, spec_tokenize, start_cursor,
};
use crate::parser::ast::{Node, SpecNode, SpecLiteral, SpecSelector, SpecIndex, SpecFunction};
use crate::parser::shape::lemma_parsed_tree;
use crate::parser::error::SpecParseError;
use crate::parser::grammar::MAX_NESTING_LEVEL;
use crate::parser::render::{
    gap, is_close_behind, is_close_in_front,
    is_bare_word, starts_bare_word, word_is_bare,
    escaped_text, token_source, tokens_source, kinds, node_tokens, can_be_read, set_depth,
    source_of, literal_tokens, more_literal_tokens, selector_tokens, optional_literal_tokens,
    range_tail_tokens, index_tokens, function_tokens, operator_token, basic_tokens,
    pipeline_tokens, set_tokens, literal_is_plain, literals_are_plain, optional_literal_is_plain,
    index_is_plain, function_is_plain, is_plain,
};
use crate::parser::roundtrip::{lemma_text_parses_back, validated};
use crate::parser::spec_parse;
use crate::parser::validate::{spec_validate, fresh_state};
use crate::strings::{
    char_is_whitespace, is_ascii_digit, digits_value, natural_text, digit_char, chars_of,
    char_is_ascii_alphabetic, char_is_ascii_digit,
};

verus! {

/// Whether the characters of `chars` from `pos` on start with `text`.
pub open spec fn starts_with(chars: Seq<char>, pos: nat, text: Seq<char>) -> bool {
    &&& pos + text.len() <= chars.len()
    &&& forall|j: int| 0 <= j < text.len() ==> #[trigger] text[j] == chars[pos + j]
}

/// Whether a token ends at `pos`: the input ends there, or a space, a colon
/// or a comma stands there.
pub open spec fn token_ends(chars: Seq<char>, pos: nat) -> bool {
    pos == chars.len() || (pos < chars.len() && (chars[pos as int] == ' ' || chars[pos as int]
        == ':' || chars[pos as int] == ','))
}

/// What starts with two texts, one after the other, starts with the first,
/// and with the second behind it.
pub proof fn lemma_starts_split(chars: Seq<char>, pos: nat, a: Seq<char>, b: Seq<char>)
    requires
        starts_with(chars, pos, a + b),
    ensures
        starts_with(chars, pos, a),
        starts_with(chars, (pos + a.len()) as nat, b),
{
    let all = a + b;
    assert forall|j: int| 0 <= j < a.len() implies #[trigger] a[j] == chars[pos + j] by {
        assert(all[j] == a[j]);
    }
    assert forall|j: int| 0 <= j < b.len() implies #[trigger] b[j] == chars[pos + a.len() + j] by {
        assert(all[a.len() + j] == b[j]);
    }
}

/// Skipping passes exactly the characters of a run that all are to be
/// skipped, where the run ends with the input or in front of a character
/// that is not to be skipped.
pub proof fn lemma_skip_run(chars: Seq<char>, cur: Cursor, keep: spec_fn(char) -> bool, run: nat)
    requires
        cur.pos + run <= chars.len(),
        forall|j: int| cur.pos <= j < cur.pos + run ==> keep(#[trigger] chars[j]),
        cur.pos + run == chars.len() || !keep(chars[(cur.pos + run) as int]),
    ensures
        skip_while(chars, cur, keep).pos == cur.pos + run,
    decreases run,
{
    if run > 0 {
        assert(keep(chars[cur.pos as int]));
        lemma_skip_run(chars, step(chars, cur), keep, (run - 1) as nat);
    }
}

/// Where the lexer stands on a character that is no whitespace, or at the
/// end of the input, it passes over nothing in front of a token.
pub proof fn lemma_no_space(chars: Seq<char>, cur: Cursor)
    requires
        cur.pos >= chars.len() || !char_is_whitespace(chars[cur.pos as int]),
    ensures
        skip_while(chars, cur, whitespace_pred()) == cur,
{
}

/// Where the lexer stands on one space in front of a character that is no
/// whitespace, it passes over the space in front of a token.
pub proof fn lemma_one_space(chars: Seq<char>, cur: Cursor)
    requires
        cur.pos + 1 < chars.len(),
        chars[cur.pos as int] == ' ',
        !char_is_whitespace(chars[(cur.pos + 1) as int]),
    ensures
        skip_while(chars, cur, whitespace_pred()) == step(chars, cur),
{
    assert(char_is_whitespace(' '));
    assert(whitespace_pred()(chars[cur.pos as int]));
    lemma_no_space(chars, step(chars, cur));
}

/// Whether a token is a sign of one character.
pub open spec fn is_sign(token: SpecToken) -> bool {
    match token {
        SpecToken::Pipeline => true,
        SpecToken::Comma => true,
        SpecToken::Colon => true,
        SpecToken::Union => true,
        SpecToken::Intersection => true,
        SpecToken::Difference => true,
        SpecToken::Regex => true,
        SpecToken::LeftParen => true,
        SpecToken::RightParen => true,
        SpecToken::LeftBracket => true,
        SpecToken::RightBracket => true,
        SpecToken::Pound => true,
        SpecToken::Minus => true,
        _ => false,
    }
}

/// Whether a token is a keyword.
pub open spec fn is_keyword(token: SpecToken) -> bool {
    match token {
        SpecToken::Class => true,
        SpecToken::Id => true,
        SpecToken::Tag => true,
        SpecToken::Attr => true,
        SpecToken::Text => true,
        SpecToken::Src => true,
        SpecToken::Href => true,
        _ => false,
    }
}

/// Whether the lexer reads a token again from what is written for it: a
/// sign, a keyword, a number, a quoted argument, an argument without quotes
/// that the lexer reads as such, or a function with a name that the lexer
/// takes for one.
pub open spec fn can_be_written(token: SpecToken) -> bool {
    match token {
        SpecToken::Function(name) => is_function_name(name),
        SpecToken::Number(_) => true,
        SpecToken::QuotedArgument(_) => true,
        SpecToken::Argument(word) => is_bare_word(word),
        _ => is_sign(token) || is_keyword(token),
    }
}

/// The source of a sign is one character, and the lexer reads the sign from it.
#[verifier::rlimit(60)]
pub proof fn lemma_scan_sign(chars: Seq<char>, cur: Cursor, at: Cursor, token: SpecToken)
    requires
        is_sign(token),
        skip_while(chars, cur, whitespace_pred()) == at,
        starts_with(chars, at.pos, token_source(token)),
    ensures
        token_source(token).len() == 1,
        scan_token(chars, cur).result == Ok::<SpecToken, SpecLexerError>(token),
        scan_token(chars, cur).next.pos == at.pos + 1,
{
    reveal_strlit(">");
    reveal_strlit(",");
    reveal_strlit(":");
    reveal_strlit("|");
    reveal_strlit("&");
    reveal_strlit("^");
    reveal_strlit("~");
    reveal_strlit("(");
    reveal_strlit(")");
    reveal_strlit("[");
    reveal_strlit("]");
    reveal_strlit("#");
    reveal_strlit("-");
    let source = token_source(token);
    assert(source.len() == 1);
    assert(source[0] == chars[at.pos + 0int]);
}

/// Whether a text is made of the letters `a` to `z`.
pub open spec fn is_lower_word(word: Seq<char>) -> bool {
    word.len() > 0 && forall|j: int| 0 <= j < word.len() ==> 'a' <= #[trigger] word[j] <= 'z'
}

/// The lexer reads a word of the letters `a` to `z`, which ends with the
/// input or with a space, as the token for the word.
#[verifier::rlimit(60)]
pub proof fn lemma_scan_word(chars: Seq<char>, cur: Cursor, at: Cursor, word: Seq<char>)
    requires
        is_lower_word(word),
        skip_while(chars, cur, whitespace_pred()) == at,
        starts_with(chars, at.pos, word),
        token_ends(chars, at.pos + word.len()),
    ensures
        scan_token(chars, cur).result == Ok::<SpecToken, SpecLexerError>(word_token(word)),
        scan_token(chars, cur).next.pos == at.pos + word.len(),
{
    assert(char_is_whitespace(' '));
    assert forall|j: int| at.pos <= j < at.pos + word.len() implies argument_pred()(
        #[trigger] chars[j],
    ) by {
        let c = word[j - at.pos];
        assert(c == chars[at.pos + (j - at.pos)]);
        assert('a' <= c <= 'z');
        assert(!char_is_whitespace(c));
    }
    lemma_skip_run(chars, at, argument_pred(), word.len());
    let first = word[0];
    assert(first == chars[at.pos + 0int]);
    assert('a' <= first <= 'z');
    assert(chars.subrange(at.pos as int, (at.pos + word.len()) as int) =~= word);
}

/// The lexer reads a word that can stand without quotes, and which ends
/// with the input or with a space, as an argument with the text of the word.
#[verifier::rlimit(60)]
pub proof fn lemma_scan_bare_word(chars: Seq<char>, cur: Cursor, at: Cursor, word: Seq<char>)
    requires
        is_bare_word(word),
        skip_while(chars, cur, whitespace_pred()) == at,
        starts_with(chars, at.pos, word),
        token_ends(chars, at.pos + word.len()),
    ensures
        scan_token(chars, cur).result == Ok::<SpecToken, SpecLexerError>(
            SpecToken::Argument(word),
        ),
        scan_token(chars, cur).next.pos == at.pos + word.len(),
{
    assert(char_is_whitespace(' '));
    assert forall|j: int| at.pos <= j < at.pos + word.len() implies argument_pred()(
        #[trigger] chars[j],
    ) by {
        let c = word[j - at.pos];
        assert(c == chars[at.pos + (j - at.pos)]);
        assert(!ends_argument(c));
    }
    lemma_skip_run(chars, at, argument_pred(), word.len());
    let first = word[0];
    assert(first == chars[at.pos + 0int]);
    assert(starts_bare_word(first));
    assert(chars.subrange(at.pos as int, (at.pos + word.len()) as int) =~= word);
}

/// The token for the source of a keyword is the keyword.
#[verifier::rlimit(60)]
pub proof fn lemma_keyword_word(token: SpecToken)
    requires
        is_keyword(token),
    ensures
        is_lower_word(token_source(token)),
        word_token(token_source(token)) == token,
{
    reveal_strlit("class");
    reveal_strlit("id");
    reveal_strlit("tag");
    reveal_strlit("attr");
    reveal_strlit("text");
    reveal_strlit("src");
    reveal_strlit("href");
    let word = token_source(token);
    match token {
        SpecToken::Class => {
            assert(word.len() == 5);
        },
        SpecToken::Id => {
            assert(word.len() == 2);
            assert(word != "class"@);
        },
        SpecToken::Tag => {
            assert(word.len() == 3);
            assert(word != "class"@ && word != "id"@);
        },
        SpecToken::Attr => {
            assert(word.len() == 4);
            assert(word[0] == 'a');
            assert(word != "class"@ && word != "id"@ && word != "tag"@);
        },
        SpecToken::Text => {
            assert(word.len() == 4);
            assert(word[0] == 't');
            assert("attr"@[0] == 'a');
            assert(word != "class"@ && word != "id"@ && word != "tag"@ && word != "attr"@);
        },
        SpecToken::Src => {
            assert(word.len() == 3);
            assert(word[0] == 's');
            assert("tag"@[0] == 't');
            assert(word != "class"@ && word != "id"@ && word != "tag"@ && word != "attr"@ && word
                != "text"@);
        },
        SpecToken::Href => {
            assert(word.len() == 4);
            assert(word[0] == 'h');
            assert("attr"@[0] == 'a');
            assert("text"@[0] == 't');
            assert(word != "class"@ && word != "id"@ && word != "tag"@ && word != "attr"@ && word
                != "text"@ && word != "src"@);
        },
        _ => {},
    }
}

/// The decimal digits of a number are digits, at least one, and denote the number.
pub proof fn lemma_natural_text(n: nat)
    ensures
        natural_text(n).len() > 0,
        forall|j: int| 0 <= j < natural_text(n).len() ==> is_ascii_digit(
            #[trigger] natural_text(n)[j],
        ),
        digits_value(natural_text(n)) == n,
    decreases n,
{
    if n < 10 {
        let text = natural_text(n);
        assert(text.len() == 1);
        assert(text.drop_last().len() == 0);
        assert(digits_value(text.drop_last()) == 0);
        assert(text.last() == digit_char(n as int, false));
    } else {
        lemma_natural_text(n / 10);
        let front = natural_text(n / 10);
        let text = natural_text(n);
        assert(text == front.push(digit_char((n % 10) as int, false)));
        assert(text.drop_last() =~= front);
        assert forall|j: int| 0 <= j < text.len() implies is_ascii_digit(#[trigger] text[j]) by {
            if j < front.len() {
                assert(text[j] == front[j]);
            }
        }
    }
}

/// The lexer reads the decimal digits of a number, which end with the input
/// or with a space, as the number.
#[verifier::rlimit(60)]
pub proof fn lemma_scan_number(chars: Seq<char>, cur: Cursor, at: Cursor, n: usize)
    requires
        skip_while(chars, cur, whitespace_pred()) == at,
        starts_with(chars, at.pos, natural_text(n as nat)),
        token_ends(chars, at.pos + natural_text(n as nat).len()),
    ensures
        scan_token(chars, cur).result == Ok::<SpecToken, SpecLexerError>(SpecToken::Number(n)),
        scan_token(chars, cur).next.pos == at.pos + natural_text(n as nat).len(),
{
    let text = natural_text(n as nat);
    lemma_natural_text(n as nat);
    assert forall|j: int| at.pos <= j < at.pos + text.len() implies digit_pred()(
        #[trigger] chars[j],
    ) by {
        let c = text[j - at.pos];
        assert(c == chars[at.pos + (j - at.pos)]);
    }
    lemma_skip_run(chars, at, digit_pred(), text.len());
    let first = text[0];
    assert(first == chars[at.pos + 0int]);
    assert(is_ascii_digit(first));
    assert(chars.subrange(at.pos as int, (at.pos + text.len()) as int) =~= text);
    assert(scan_number(chars, at).result == Ok::<SpecToken, SpecLexerError>(SpecToken::Number(n)));
}

/// The lexer reads `@` and a name that it takes for the name of a function,
/// which ends with the input or with a space, as the function.
#[verifier::rlimit(60)]
pub proof fn lemma_scan_function(chars: Seq<char>, cur: Cursor, at: Cursor, name: Seq<char>)
    requires
        is_function_name(name),
        skip_while(chars, cur, whitespace_pred()) == at,
        starts_with(chars, at.pos, seq!['@'] + name),
        token_ends(chars, at.pos + 1 + name.len()),
    ensures
        scan_token(chars, cur).result == Ok::<SpecToken, SpecLexerError>(
            SpecToken::Function(name),
        ),
        scan_token(chars, cur).next.pos == at.pos + 1 + name.len(),
{
    lemma_starts_split(chars, at.pos, seq!['@'], name);
    assert(seq!['@'][0] == chars[at.pos + 0int]);
    let first = step(chars, at);
    assert forall|j: int| first.pos <= j < first.pos + name.len() implies function_name_pred()(
        #[trigger] chars[j],
    ) by {
        let c = name[j - first.pos];
        assert(c == chars[first.pos + (j - first.pos)]);
    }
    lemma_skip_run(chars, first, function_name_pred(), name.len());
    assert(name[0] == chars[first.pos + 0int]);
    assert(chars.subrange(first.pos as int, (first.pos + name.len()) as int) =~= name);
    assert(scan_function(chars, at).result == Ok::<SpecToken, SpecLexerError>(
        SpecToken::Function(name),
    ));
}

/// What is written for one character of a quoted argument: the character,
/// behind a backslash where it is a quote or a backslash.
pub open spec fn escaped_char(c: char) -> Seq<char> {
    if c == '"' || c == '\\' {
        seq!['\\', c]
    } else {
        seq![c]
    }
}

/// What is written for a text is what is written for its first character,
/// and then what is written for the rest.
pub proof fn lemma_escaped_front(text: Seq<char>)
    requires
        text.len() > 0,
    ensures
        escaped_text(text) == escaped_char(text[0]) + escaped_text(text.drop_first()),
    decreases text.len(),
{
    let front = text.drop_last();
    let last = text.last();
    assert(escaped_text(text) =~= escaped_text(front) + escaped_char(last));
    if front.len() == 0 {
        assert(text.drop_first().len() == 0);
        assert(escaped_text(text) =~= escaped_char(text[0]) + escaped_text(text.drop_first()));
    } else {
        lemma_escaped_front(front);
        let rest = text.drop_first();
        assert(rest.drop_last() =~= front.drop_first());
        assert(rest.last() == last);
        assert(escaped_text(rest) =~= escaped_text(front.drop_first()) + escaped_char(last));
        assert(front[0] == text[0]);
        assert(escaped_text(text) =~= escaped_char(text[0]) + escaped_text(rest));
    }
}

/// The lexer reads what is written for the inside of a quoted argument, with
/// the closing quote behind it, as the text of the argument.
#[verifier::rlimit(60)]
pub proof fn lemma_scan_quoted(chars: Seq<char>, cur: Cursor, text: Seq<char>, seen: Seq<char>)
    requires
        starts_with(chars, cur.pos, escaped_text(text) + seq!['"']),
    ensures
        scan_quoted(chars, cur, seen, false).result == Ok::<SpecToken, SpecLexerError>(
            SpecToken::QuotedArgument(seen + text),
        ),
        scan_quoted(chars, cur, seen, false).next.pos == cur.pos + escaped_text(text).len() + 1,
    decreases text.len(),
{
    let written = escaped_text(text) + seq!['"'];
    if text.len() == 0 {
        assert(written[0] == chars[cur.pos + 0int]);
        assert(seen + text =~= seen);
    } else {
        let c = text[0];
        let rest = text.drop_first();
        lemma_escaped_front(text);
        assert(written =~= escaped_char(c) + (escaped_text(rest) + seq!['"']));
        lemma_starts_split(chars, cur.pos, escaped_char(c), escaped_text(rest) + seq!['"']);
        assert(seen.push(c) + rest =~= seen + text);
        if c == '"' || c == '\\' {
            let one = step(chars, cur);
            let two = step(chars, one);
            assert(escaped_char(c)[0] == chars[cur.pos + 0int]);
            assert(escaped_char(c)[1] == chars[cur.pos + 1int]);
            lemma_scan_quoted(chars, two, rest, seen.push(c));
            assert(scan_quoted(chars, one, seen, true) == scan_quoted(
                chars,
                two,
                seen.push(unescaped(c)),
                false,
            ));
            assert(scan_quoted(chars, cur, seen, false) == scan_quoted(chars, one, seen, true));
        } else {
            assert(escaped_char(c)[0] == chars[cur.pos + 0int]);
            lemma_scan_quoted(chars, step(chars, cur), rest, seen.push(c));
        }
    }
}

/// The lexer reads what is written for a quoted argument as the argument.
pub proof fn lemma_scan_quoted_token(chars: Seq<char>, cur: Cursor, at: Cursor, text: Seq<char>)
    requires
        skip_while(chars, cur, whitespace_pred()) == at,
        starts_with(chars, at.pos, token_source(SpecToken::QuotedArgument(text))),
    ensures
        scan_token(chars, cur).result == Ok::<SpecToken, SpecLexerError>(
            SpecToken::QuotedArgument(text),
        ),
        scan_token(chars, cur).next.pos == at.pos + token_source(
            SpecToken::QuotedArgument(text),
        ).len(),
{
    let open = seq!['"'];
    let inside = escaped_text(text) + seq!['"'];
    assert(token_source(SpecToken::QuotedArgument(text)) =~= open + inside);
    lemma_starts_split(chars, at.pos, open, inside);
    assert(open[0] == chars[at.pos + 0int]);
    lemma_scan_quoted(chars, step(chars, at), text, Seq::empty());
    assert(Seq::<char>::empty() + text =~= text);
}

/// The lexer reads a token again from what is written for it, where that is
/// a sign or ends with the input, a space, a colon or a comma.
#[verifier::rlimit(60)]
pub proof fn lemma_scan_written(chars: Seq<char>, cur: Cursor, at: Cursor, token: SpecToken)
    requires
        can_be_written(token),
        skip_while(chars, cur, whitespace_pred()) == at,
        starts_with(chars, at.pos, token_source(token)),
        is_sign(token) || token_ends(chars, at.pos + token_source(token).len()),
    ensures
        scan_token(chars, cur).result == Ok::<SpecToken, SpecLexerError>(token),
        scan_token(chars, cur).next.pos == at.pos + token_source(token).len(),
{
    match token {
        SpecToken::Function(name) => {
            reveal_strlit("@");
            assert(token_source(token) =~= seq!['@'] + name);
            lemma_scan_function(chars, cur, at, name);
        },
        SpecToken::Number(n) => {
            assert(token_source(token) == natural_text(n as nat));
            lemma_scan_number(chars, cur, at, n);
        },
        SpecToken::QuotedArgument(text) => {
            lemma_scan_quoted_token(chars, cur, at, text);
        },
        SpecToken::Argument(word) => {
            assert(token_source(token) == word);
            lemma_scan_bare_word(chars, cur, at, word);
        },
        _ => {
            if is_sign(token) {
                lemma_scan_sign(chars, cur, at, token);
            } else {
                lemma_keyword_word(token);
                lemma_scan_word(chars, cur, at, token_source(token));
            }
        },
    }
}

/// What is written for a token starts with a character that is no
/// whitespace.
#[verifier::rlimit(60)]
pub proof fn lemma_written_start(token: SpecToken)
    requires
        can_be_written(token),
    ensures
        token_source(token).len() > 0,
        !char_is_whitespace(token_source(token)[0]),
{
    let source = token_source(token);
    match token {
        SpecToken::Function(name) => {
            reveal_strlit("@");
            assert(source =~= seq!['@'] + name);
            assert(source[0] == '@');
        },
        SpecToken::Number(n) => {
            lemma_natural_text(n as nat);
            assert(source == natural_text(n as nat));
            assert(is_ascii_digit(source[0]));
        },
        SpecToken::QuotedArgument(text) => {
            assert(source =~= seq!['"'] + (escaped_text(text) + seq!['"']));
            assert(source[0] == '"');
        },
        SpecToken::Argument(word) => {
            assert(source == word);
            assert(!ends_argument(word[0]));
        },
        _ => {
            if is_sign(token) {
                reveal_strlit(">");
                reveal_strlit(",");
                reveal_strlit(":");
                reveal_strlit("|");
                reveal_strlit("&");
                reveal_strlit("^");
                reveal_strlit("~");
                reveal_strlit("(");
                reveal_strlit(")");
                reveal_strlit("[");
                reveal_strlit("]");
                reveal_strlit("#");
                reveal_strlit("-");
                assert(source.len() == 1);
                assert((source[0] as u32) < 128);
            } else {
                lemma_keyword_word(token);
                assert('a' <= source[0] <= 'z');
            }
        },
    }
}

/// What is written for the tokens from the one at `from` on.
pub open spec fn written_from(tokens: Seq<SpecToken>, from: int) -> Seq<char>
    decreases tokens.len() - from,
{
    if from < 0 || from >= tokens.len() {
        Seq::empty()
    } else if from == tokens.len() - 1 {
        token_source(tokens[from])
    } else {
        token_source(tokens[from]) + gap(tokens[from], tokens[from + 1]) + written_from(
            tokens,
            from + 1,
        )
    }
}

/// What is written for tokens from one of them on is what is written for
/// all but the last from there on, what stands between the last two, and
/// what is written for the last.
pub proof fn lemma_written_from_last(tokens: Seq<SpecToken>, from: int)
    requires
        0 <= from < tokens.len() - 1,
    ensures
        written_from(tokens, from) == written_from(tokens.drop_last(), from) + gap(
            tokens[tokens.len() - 2],
            tokens.last(),
        ) + token_source(tokens.last()),
    decreases tokens.len() - from,
{
    let front = tokens.drop_last();
    assert(front[from] == tokens[from]);
    if from == tokens.len() - 2 {
        assert(written_from(tokens, from + 1) == token_source(tokens.last()));
        assert(written_from(front, from) == token_source(tokens[from]));
    } else {
        assert(front[from + 1] == tokens[from + 1]);
        lemma_written_from_last(tokens, from + 1);
        assert(written_from(tokens, from) =~= written_from(front, from) + gap(
            tokens[tokens.len() - 2],
            tokens.last(),
        ) + token_source(tokens.last()));
    }
}

/// What is written for tokens is what is written for them from the first on.
pub proof fn lemma_written_from_start(tokens: Seq<SpecToken>)
    ensures
        tokens_source(tokens) == written_from(tokens, 0),
    decreases tokens.len(),
{
    if tokens.len() >= 2 {
        lemma_written_from_start(tokens.drop_last());
        lemma_written_from_last(tokens, 0);
    }
}

/// The tokens of a stream, without their places.
pub open spec fn stream_kinds(stream: Seq<(SpecToken, nat, nat)>) -> Seq<SpecToken> {
    Seq::new(stream.len(), |k: int| stream[k].0)
}

/// Whether all of `tokens` can be written.
pub open spec fn all_can_be_written(tokens: Seq<SpecToken>) -> bool {
    forall|k: int| 0 <= k < tokens.len() ==> can_be_written(#[trigger] tokens[k])
}

/// Where the lexer, past whitespace, stands on what is written for the
/// tokens from the one at `from` on, and the input ends with it, the lexer
/// reads those tokens and the end of the input.
#[verifier::rlimit(60)]
pub proof fn lemma_lex_written(chars: Seq<char>, cur: Cursor, tokens: Seq<SpecToken>, from: int)
    requires
        all_can_be_written(tokens),
        0 <= from <= tokens.len(),
        cur.pos <= chars.len(),
        starts_with(
            chars,
            skip_while(chars, cur, whitespace_pred()).pos,
            written_from(tokens, from),
        ),
        skip_while(chars, cur, whitespace_pred()).pos + written_from(tokens, from).len()
            == chars.len(),
    ensures
        stream_kinds(spec_tokenize(chars, cur)) == tokens.skip(from) + seq![SpecToken::EOF],
    decreases tokens.len() - from,
{
    let at = skip_while(chars, cur, whitespace_pred());
    crate::lexer::lemma_skip_while_bounds(chars, cur, whitespace_pred());
    if from == tokens.len() {
        assert(at.pos == chars.len());
        assert(stream_kinds(spec_tokenize(chars, cur)) =~= tokens.skip(from) + seq![
            SpecToken::EOF,
        ]);
    } else {
        let token = tokens[from];
        let source = token_source(token);
        let rest = if from == tokens.len() - 1 {
            Seq::<char>::empty()
        } else {
            gap(token, tokens[from + 1]) + written_from(tokens, from + 1)
        };
        assert(written_from(tokens, from) =~= source + rest);
        lemma_starts_split(chars, at.pos, source, rest);
        lemma_written_start(token);
        let end = (at.pos + source.len()) as nat;
        if from < tokens.len() - 1 {
            let tail = written_from(tokens, from + 1);
            let after = token_source(tokens[from + 1]);
            lemma_written_start(tokens[from + 1]);
            let more = if from + 1 == tokens.len() - 1 {
                Seq::<char>::empty()
            } else {
                gap(tokens[from + 1], tokens[from + 2]) + written_from(tokens, from + 2)
            };
            assert(tail =~= after + more);
            assert(tail[0] == after[0]);
            assert(rest[0] == chars[end + 0int]);
            if is_close_behind(tokens[from + 1]) {
                reveal_strlit(":");
                reveal_strlit(",");
                assert(after.len() == 1);
                assert(rest[0] == after[0]);
            }
            lemma_scan_written(chars, cur, at, token);
            let next = scan_token(chars, cur).next;
            lemma_starts_split(chars, end, gap(token, tokens[from + 1]), tail);
            if gap(token, tokens[from + 1]).len() == 0 {
                assert(tail[0] == chars[end + 0int]);
                lemma_no_space(chars, next);
            } else {
                assert(tail[0] == chars[end + 1 + 0int]);
                lemma_one_space(chars, next);
            }
            lemma_lex_written(chars, next, tokens, from + 1);
        } else {
            lemma_scan_written(chars, cur, at, token);
            let next = scan_token(chars, cur).next;
            lemma_no_space(chars, next);
            lemma_lex_written(chars, next, tokens, from + 1);
        }
        let next = scan_token(chars, cur).next;
        let stream = spec_tokenize(chars, cur);
        let later = spec_tokenize(chars, next);
        assert(stream == seq![(token, cur.line, cur.column)] + later);
        assert(stream_kinds(stream) =~= seq![token] + stream_kinds(later));
        assert(seq![token] + (tokens.skip(from + 1) + seq![SpecToken::EOF]) =~= tokens.skip(from)
            + seq![SpecToken::EOF]);
    }
}

/// The lexer reads, from what is written for tokens that can all be written,
/// those tokens and the end of the input.
#[verifier::rlimit(60)]
pub proof fn lemma_written_lexes(tokens: Seq<SpecToken>)
    requires
        all_can_be_written(tokens),
    ensures
        stream_kinds(
            spec_tokenize(tokens_source(tokens), start_cursor(tokens_source(tokens))),
        ) == tokens + seq![SpecToken::EOF],
{
    let chars = tokens_source(tokens);
    let cur = start_cursor(chars);
    lemma_written_from_start(tokens);
    if tokens.len() > 0 {
        lemma_written_start(tokens[0]);
        let first = token_source(tokens[0]);
        let more = if tokens.len() == 1 {
            Seq::<char>::empty()
        } else {
            gap(tokens[0], tokens[1]) + written_from(tokens, 1)
        };
        assert(chars =~= first + more);
        assert(chars[0] == first[0]);
        lemma_no_space(chars, cur);
    } else {
        lemma_no_space(chars, cur);
    }
    lemma_lex_written(chars, cur, tokens, 0);
    assert(tokens.skip(0) =~= tokens);
}

/// What is written for a tree that can be read again, and whose tokens can
/// all be written, parses to the tree where the tree passes the validator,
/// and is refused with the validator's error where it does not.
pub proof fn lemma_written_tree_parses_back(node: SpecNode)
    requires
        can_be_read(node),
        set_depth(node) <= MAX_NESTING_LEVEL,
        all_can_be_written(node_tokens(node)),
    ensures
        spec_parse(tokens_source(node_tokens(node))) == validated(node),
{
    let tokens = node_tokens(node);
    let text = tokens_source(tokens);
    let stream = spec_tokenize(text, start_cursor(text));
    let expected = tokens + seq![SpecToken::EOF];
    lemma_written_lexes(tokens);
    assert(stream.len() == expected.len());
    assert forall|i: int| 0 <= i < expected.len() implies #[trigger] expected[i] == stream[0
        + i].0 by {
        assert(stream_kinds(stream)[i] == stream[i].0);
    }
    lemma_text_parses_back(node, text);
}

/// Tokens that can all be written, and then more of them, can all be written.
pub proof fn lemma_all_written(a: Seq<SpecToken>, b: Seq<SpecToken>)
    requires
        all_can_be_written(a),
        all_can_be_written(b),
    ensures
        all_can_be_written(a + b),
{
    let all = a + b;
    assert forall|k: int| 0 <= k < all.len() implies can_be_written(#[trigger] all[k]) by {
        if k < a.len() {
            assert(all[k] == a[k]);
        } else {
            assert(all[k] == b[k - a.len()]);
        }
    }
}

/// One token that can be written is tokens that can all be written.
pub proof fn lemma_one_written(token: SpecToken)
    requires
        can_be_written(token),
    ensures
        all_can_be_written(seq![token]),
{
}

/// The tokens of a plain literal can all be written.
pub proof fn lemma_literal_written(literal: SpecLiteral)
    requires
        literal_is_plain(literal),
    ensures
        all_can_be_written(literal_tokens(literal)),
    decreases literal, 0nat,
{
    match literal {
        SpecLiteral::List(items) => {
            if items.len() > 0 {
                lemma_literal_written(items[0]);
                lemma_more_literals_written(items, 1);
                lemma_one_written(SpecToken::LeftBracket);
                lemma_one_written(SpecToken::RightBracket);
                lemma_all_written(seq![SpecToken::LeftBracket], literal_tokens(items[0]));
                lemma_all_written(
                    seq![SpecToken::LeftBracket] + literal_tokens(items[0]),
                    more_literal_tokens(items, 1),
                );
                lemma_all_written(
                    seq![SpecToken::LeftBracket] + literal_tokens(items[0]) + more_literal_tokens(
                        items,
                        1,
                    ),
                    seq![SpecToken::RightBracket],
                );
            }
        },
        _ => {},
    }
}

/// The tokens of plain literals, each with a comma in front of it, can all be written.
pub proof fn lemma_more_literals_written(items: Seq<SpecLiteral>, from: int)
    requires
        0 <= from,
        literals_are_plain(items, from),
    ensures
        all_can_be_written(more_literal_tokens(items, from)),
    decreases items, items.len() - from,
{
    if from < items.len() {
        lemma_literal_written(items[from]);
        lemma_more_literals_written(items, from + 1);
        lemma_one_written(SpecToken::Comma);
        lemma_all_written(seq![SpecToken::Comma], literal_tokens(items[from]));
        lemma_all_written(
            seq![SpecToken::Comma] + literal_tokens(items[from]),
            more_literal_tokens(items, from + 1),
        );
    }
}

/// The tokens of a selector can all be written.
pub proof fn lemma_selector_written(selector: SpecSelector)
    ensures
        all_can_be_written(selector_tokens(selector)),
{
}

/// The tokens of a part of a range that is plain can all be written.
pub proof fn lemma_optional_literal_written(part: Option<SpecLiteral>)
    requires
        optional_literal_is_plain(part),
    ensures
        all_can_be_written(optional_literal_tokens(part)),
{
    match part {
        Some(l) => {
            lemma_literal_written(l);
        },
        None => {},
    }
}

/// The tokens of a plain index can all be written.
#[verifier::rlimit(60)]
pub proof fn lemma_index_written(index: SpecIndex)
    requires
        index_is_plain(index),
    ensures
        all_can_be_written(index_tokens(index)),
{
    let colon = seq![SpecToken::Colon];
    lemma_one_written(SpecToken::Colon);
    match index {
        SpecIndex::Single(l) => {
            lemma_literal_written(l);
            lemma_all_written(colon, literal_tokens(l));
        },
        SpecIndex::Multiple(items) => {
            if items.len() > 0 {
                lemma_literal_written(items[0]);
                lemma_more_literals_written(items, 1);
                lemma_all_written(colon, literal_tokens(items[0]));
                lemma_all_written(colon + literal_tokens(items[0]), more_literal_tokens(items, 1));
            }
        },
        SpecIndex::Range(start, end, step) => {
            lemma_optional_literal_written(start);
            lemma_optional_literal_written(end);
            lemma_optional_literal_written(step);
            let tail = range_tail_tokens(end, step);
            assert(all_can_be_written(tail)) by {
                match (end, step) {
                    (Some(e), Some(s)) => {
                        lemma_all_written(literal_tokens(e), colon);
                        lemma_all_written(literal_tokens(e) + colon, literal_tokens(s));
                    },
                    (Some(e), None) => {},
                    (None, Some(s)) => {
                        lemma_all_written(colon, literal_tokens(s));
                    },
                    (None, None) => {},
                }
            }
            lemma_all_written(colon, optional_literal_tokens(start));
            lemma_all_written(colon + optional_literal_tokens(start), colon);
            lemma_all_written(colon + optional_literal_tokens(start) + colon, tail);
        },
    }
}

/// The tokens of a plain call can all be written.
pub proof fn lemma_function_written(function: SpecFunction)
    requires
        function_is_plain(function),
    ensures
        all_can_be_written(function_tokens(function)),
{
    lemma_one_written(SpecToken::Function(function.name));
    lemma_more_literals_written(function.arguments, 0);
    lemma_all_written(
        seq![SpecToken::Function(function.name)],
        more_literal_tokens(function.arguments, 0),
    );
}

/// The tokens of a plain tree, as an operand, as a pipeline and by itself,
/// can all be written.
#[verifier::rlimit(60)]
pub proof fn lemma_tree_written(node: SpecNode)
    requires
        is_plain(node),
    ensures
        all_can_be_written(basic_tokens(node)),
        all_can_be_written(pipeline_tokens(node)),
        all_can_be_written(set_tokens(node)),
    decreases node,
{
    let open = seq![SpecToken::LeftParen];
    let close = seq![SpecToken::RightParen];
    lemma_one_written(SpecToken::LeftParen);
    lemma_one_written(SpecToken::RightParen);
    match node {
        SpecNode::Selector(s) => {
            lemma_selector_written(s);
        },
        SpecNode::IndexSelection(inner, index) => {
            lemma_tree_written(*inner);
            lemma_index_written(index);
            lemma_all_written(basic_tokens(*inner), index_tokens(index));
        },
        SpecNode::FunctionCall(inner, function) => {
            lemma_tree_written(*inner);
            lemma_function_written(function);
            lemma_all_written(basic_tokens(*inner), function_tokens(function));
        },
        SpecNode::Pipeline(left, right) => {
            lemma_tree_written(*left);
            lemma_tree_written(*right);
            let arrow = seq![SpecToken::Pipeline];
            lemma_one_written(SpecToken::Pipeline);
            let inside = pipeline_tokens(*left) + arrow + basic_tokens(*right);
            lemma_all_written(pipeline_tokens(*left), arrow);
            lemma_all_written(pipeline_tokens(*left) + arrow, basic_tokens(*right));
            assert(pipeline_tokens(node) == inside);
            lemma_all_written(open, pipeline_tokens(*left));
            lemma_all_written(open + pipeline_tokens(*left), arrow);
            lemma_all_written(open + pipeline_tokens(*left) + arrow, basic_tokens(*right));
            lemma_all_written(open + pipeline_tokens(*left) + arrow + basic_tokens(*right), close);
        },
        SpecNode::SetOperation(operator, left, right) => {
            lemma_tree_written(*left);
            lemma_tree_written(*right);
            let sign = seq![operator_token(operator)];
            lemma_one_written(operator_token(operator));
            lemma_all_written(set_tokens(*left), sign);
            lemma_all_written(set_tokens(*left) + sign, pipeline_tokens(*right));
            lemma_all_written(open, set_tokens(*left));
            lemma_all_written(open + set_tokens(*left), sign);
            lemma_all_written(open + set_tokens(*left) + sign, pipeline_tokens(*right));
            lemma_all_written(open + set_tokens(*left) + sign + pipeline_tokens(*right), close);
            assert(pipeline_tokens(node) == basic_tokens(node));
        },
    }
    match node {
        SpecNode::Pipeline(_, _) => {
            assert(set_tokens(node) == pipeline_tokens(node));
        },
        SpecNode::SetOperation(_, _, _) => {},
        _ => {
            assert(pipeline_tokens(node) == basic_tokens(node));
            assert(set_tokens(node) == pipeline_tokens(node));
        },
    }
}

/// A selector that parses parses, once written anew from the tree that it
/// parsed to, to the same tree.
pub proof fn lemma_selector_round_trip(input: Seq<char>)
    requires
        spec_parse(input) is Ok,
    ensures
        spec_parse(tokens_source(node_tokens(spec_parse(input)->Ok_0))) == spec_parse(input),
{
    let stream = spec_tokenize(input, start_cursor(input));
    let node = spec_parse(input)->Ok_0;
    crate::lexer::lemma_stream_is_lexer_made(input, start_cursor(input));
    lemma_parsed_tree(stream);
    lemma_tree_written(node);
    lemma_written_tree_parses_back(node);
}

/// Whether `name` is a name that the lexer takes for the name of a function.
pub fn name_is_function_name(name: &str) -> (b: bool)
    ensures
        b == is_function_name(name@),
{
    let chars = chars_of(name);
    if chars.len() == 0 {
        return false;
    }
    if !char_is_ascii_alphabetic(chars[0]) {
        return false;
    }
    let mut i: usize = 0;
    while i < chars.len()
        invariant
            i <= chars.len(),
            chars@ == name@,
            forall|j: int| 0 <= j < i ==> is_function_name_part(#[trigger] chars@[j]),
        decreases chars.len() - i,
    {
        let c = chars[i];
        if !(char_is_ascii_alphabetic(c) || char_is_ascii_digit(c) || c == '_') {
            return false;
        }
        i += 1;
    }
    true
}

/// Whether the lexer reads `token` again from what is written for it.
pub fn token_can_be_written(token: &Token) -> (b: bool)
    ensures
        b == can_be_written(token@),
{
    match token {
        Token::Function(name) => name_is_function_name(name.as_str()),
        Token::Float(_) => false,
        Token::Bool(_) => false,
        Token::Argument(word) => word_is_bare(word.as_str()),
        Token::EOF => false,
        _ => true,
    }
}

/// Whether the lexer reads all of `tokens` again from what is written for them.
pub fn tokens_can_be_written(tokens: &Vec<Token>) -> (b: bool)
    ensures
        b == all_can_be_written(kinds(tokens@)),
{
    let mut i: usize = 0;
    while i < tokens.len()
        invariant
            i <= tokens.len(),
            forall|k: int| 0 <= k < i ==> can_be_written(#[trigger] kinds(tokens@)[k]),
        decreases tokens.len() - i,
    {
        if !token_can_be_written(&tokens[i]) {
            assert(!can_be_written(kinds(tokens@)[i as int]));
            return false;
        }
        i += 1;
    }
    true
}

impl Node {
    /// The tree as a selector that the lexer reads as the tokens of the
    /// tree: nothing where a token of the tree cannot be written. Where the
    /// tree can be read again, the selector parses to the tree, or is
    /// refused with the error with which the validator refuses the tree.
    pub fn to_selector(&self) -> (r: Option<String>)
        ensures
            r is Some <==> all_can_be_written(node_tokens(self@)),
            r matches Some(text) ==> text@ == tokens_source(node_tokens(self@)),
            r matches Some(text) ==> (can_be_read(self@) && set_depth(self@) <= MAX_NESTING_LEVEL
                ==> spec_parse(text@) == validated(self@)),
    {
        let tokens = self.to_tokens();
        if !tokens_can_be_written(&tokens) {
            return None;
        }
        proof {
            if can_be_read(self@) && set_depth(self@) <= MAX_NESTING_LEVEL {
                lemma_written_tree_parses_back(self@);
            }
        }
        Some(source_of(&tokens))
    }
}

} // verus!
