use html_select::lexer::{tokenize, Lexer, Token};

fn kinds(input: &str) -> Vec<Token> {
    tokenize(input).into_iter().map(|t| t.0).collect()
}

fn arg(text: &str) -> Token {
    Token::Argument(text.to_string())
}

fn quoted(text: &str) -> Token {
    Token::QuotedArgument(text.to_string())
}

#[test]
fn empty_input_is_only_the_end() {
    assert_eq!(tokenize(""), vec![(Token::EOF, 1, 1)]);
}

#[test]
fn keywords_and_arguments() {
    assert_eq!(
        kinds("class a id b tag c attr d text src href"),
        vec![
            Token::Class,
            arg("a"),
            Token::Id,
            arg("b"),
            Token::Tag,
            arg("c"),
            Token::Attr,
            arg("d"),
            Token::Text,
            Token::Src,
            Token::Href,
            Token::EOF
        ]
    );
}

#[test]
fn punctuation_and_operators() {
    assert_eq!(
        kinds("> , : | & ^ ~ ( ) [ ] # -"),
        vec![
            Token::Pipeline,
            Token::Comma,
            Token::Colon,
            Token::Union,
            Token::Intersection,
            Token::Difference,
            Token::Regex,
            Token::LeftParen,
            Token::RightParen,
            Token::LeftBracket,
            Token::RightBracket,
            Token::Pound,
            Token::Minus,
            Token::EOF
        ]
    );
}

#[test]
fn positions_are_taken_before_whitespace() {
    let tokens = tokenize("tag p > text");
    assert_eq!(
        tokens,
        vec![
            (Token::Tag, 1, 1),
            (arg("p"), 1, 4),
            (Token::Pipeline, 1, 6),
            (Token::Text, 1, 8),
            (Token::EOF, 1, 13),
        ]
    );
}

#[test]
fn a_line_feed_starts_a_line() {
    let tokens = tokenize("tag\np");
    assert_eq!(tokens, vec![(Token::Tag, 1, 1), (arg("p"), 2, 0), (Token::EOF, 2, 2)]);
    let leading = tokenize("\ntag");
    assert_eq!(leading, vec![(Token::Tag, 2, 0), (Token::EOF, 2, 4)]);
}

#[test]
fn numbers_are_runs_of_digits() {
    assert_eq!(kinds("0 42 007"), vec![
        Token::Number(0),
        Token::Number(42),
        Token::Number(7),
        Token::EOF
    ]);
    assert_eq!(kinds("12ab"), vec![Token::Number(12), arg("ab"), Token::EOF]);
}

#[test]
fn a_number_too_large_leaves_no_token() {
    assert_eq!(kinds("99999999999999999999999999 tag"), vec![Token::Tag, Token::EOF]);
}

#[test]
fn quoted_strings_and_escapes() {
    assert_eq!(kinds("\"a b\""), vec![quoted("a b"), Token::EOF]);
    assert_eq!(kinds(r#""a\"b\\c\nd\te\rf\qg""#), vec![quoted("a\"b\\c\nd\te\rfqg"), Token::EOF]);
    assert_eq!(kinds("\"\""), vec![quoted(""), Token::EOF]);
}

#[test]
fn unicode_escapes() {
    assert_eq!(kinds(r#""\u0041\u00e9""#), vec![quoted("A\u{e9}"), Token::EOF]);
    assert_eq!(kinds(r#""\u4E2d""#), vec![quoted("\u{4e2d}"), Token::EOF]);
}

#[test]
fn a_bad_unicode_escape_leaves_no_token() {
    assert_eq!(kinds(r#""\uD800" tag"#), vec![Token::EOF]);
    assert_eq!(kinds(r#""\u12" tag"#), vec![Token::EOF]);
    assert_eq!(
        kinds(r#""\uD800" "x" tag"#),
        vec![quoted(" "), arg("x"), Token::EOF]
    );
    assert_eq!(kinds(r#"tag "\uD800x > p"#), vec![Token::Tag, arg("x"), Token::Pipeline, arg("p"), Token::EOF]);
}

#[test]
fn an_unterminated_string_leaves_no_token() {
    assert_eq!(kinds("tag \"abc"), vec![Token::Tag, Token::EOF]);
}

#[test]
fn function_names() {
    assert_eq!(
        kinds("@trim @starts_with,\"a\" @f1"),
        vec![
            Token::Function("trim".to_string()),
            Token::Function("starts_with".to_string()),
            Token::Comma,
            quoted("a"),
            Token::Function("f1".to_string()),
            Token::EOF
        ]
    );
}

#[test]
fn a_function_name_must_start_with_a_letter() {
    assert_eq!(kinds("@1abc tag"), vec![arg("abc"), Token::Tag, Token::EOF]);
    assert_eq!(kinds("@"), vec![Token::EOF]);
    assert_eq!(kinds("@@trim"), vec![Token::Function("trim".to_string()), Token::EOF]);
}

#[test]
fn arguments_end_at_their_delimiters() {
    assert_eq!(kinds("a>b"), vec![arg("a"), Token::Pipeline, arg("b"), Token::EOF]);
    assert_eq!(kinds("a,b"), vec![arg("a"), Token::Comma, arg("b"), Token::EOF]);
    assert_eq!(kinds("a:b"), vec![arg("a"), Token::Colon, arg("b"), Token::EOF]);
    assert_eq!(kinds("a@b"), vec![arg("a"), Token::Function("b".to_string()), Token::EOF]);
    assert_eq!(kinds("a\"b\""), vec![arg("a"), quoted("b"), Token::EOF]);
    assert_eq!(kinds("my-class"), vec![arg("my-class"), Token::EOF]);
    assert_eq!(kinds("a|b"), vec![arg("a|b"), Token::EOF]);
}

#[test]
fn keywords_must_match_exactly() {
    assert_eq!(kinds("classes Tag text1"), vec![arg("classes"), arg("Tag"), arg("text1"), Token::EOF]);
}

#[test]
fn non_ascii_arguments() {
    assert_eq!(kinds("tag \u{4e2d}\u{6587}"), vec![Token::Tag, arg("\u{4e2d}\u{6587}"), Token::EOF]);
}

#[test]
fn unicode_whitespace_separates_tokens() {
    assert_eq!(kinds("tag\u{3000}p\u{a0}"), vec![Token::Tag, arg("p"), Token::EOF]);
}

#[test]
fn lexer_by_hand() {
    let mut lexer = Lexer::new("tag p");
    assert_eq!(lexer.next_token().unwrap(), Token::Tag);
    assert_eq!(lexer.next_token().unwrap(), arg("p"));
    assert_eq!(lexer.next_token().unwrap(), Token::EOF);
    assert_eq!(lexer.next_token().unwrap(), Token::EOF);
}

#[test]
fn lexer_errors_say_where() {
    let mut lexer = Lexer::new("\"abc");
    let err = lexer.next_token().unwrap_err();
    assert_eq!(err.message, "Unterminated string.");
    assert_eq!(err.line, 1);
    assert_eq!(err.column, 5);
    let mut lexer = Lexer::new("@9");
    let err = lexer.next_token().unwrap_err();
    assert_eq!(err.message, "Function names must start with a letter.");
    let mut lexer = Lexer::new("@");
    let err = lexer.next_token().unwrap_err();
    assert_eq!(err.message, "Function name cannot be empty.");
    let mut lexer = Lexer::new("\"\\u12G4\"");
    let err = lexer.next_token().unwrap_err();
    assert_eq!(err.message, "Invalid Unicode escape sequence: \\u12");
    let mut lexer = Lexer::new("\"\\uDFFF\"");
    let err = lexer.next_token().unwrap_err();
    assert_eq!(err.message, "Invalid Unicode code point: U+DFFF");
    let mut lexer = Lexer::new("\"\\u12");
    let err = lexer.next_token().unwrap_err();
    assert_eq!(err.message, "Unfinished Unicode escape sequence.");
    let mut lexer = Lexer::new("340282366920938463463374607431768211456");
    let err = lexer.next_token().unwrap_err();
    assert_eq!(err.message, "Unable to resolve the number: 340282366920938463463374607431768211456");
}

#[test]
fn identifier_characters() {
    let lexer = Lexer::new("");
    assert!(lexer.is_identifier_part('a'));
    assert!(lexer.is_identifier_part('9'));
    assert!(lexer.is_identifier_part('_'));
    assert!(lexer.is_identifier_part('\u{4e2d}'));
    assert!(lexer.is_identifier_part('\u{1F600}'));
    assert!(!lexer.is_identifier_part('-'));
    assert!(Lexer::is_unicode_identifier_part('\u{3042}'));
    assert!(Lexer::is_unicode_identifier_part('\u{30A2}'));
    assert!(Lexer::is_unicode_identifier_part('\u{AC00}'));
    assert!(Lexer::is_unicode_identifier_part('\u{2600}'));
    assert!(!Lexer::is_unicode_identifier_part('a'));
    assert!(!Lexer::is_unicode_identifier_part('\u{27FF}'));
}

#[test]
fn token_texts() {
    assert_eq!(Token::Pipeline.to_text(), ">");
    assert_eq!(Token::Function("trim".to_string()).to_text(), "@trim");
    assert_eq!(Token::Number(42).to_text(), "42");
    assert_eq!(quoted("a b").to_text(), "\"a b\"");
    assert_eq!(arg("p").to_text(), "p");
    assert_eq!(Token::EOF.to_text(), "EOF");
    assert_eq!(Token::Bool(true).to_text(), "true");
    assert_eq!(Token::Float("1.5".to_string()).to_text(), "1.5");
    assert_eq!(quoted("a\"b\\").to_source(), "\"a\\\"b\\\\\"");
    assert_eq!(Token::EOF.to_source(), "");
}
