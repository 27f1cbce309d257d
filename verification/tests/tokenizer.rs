use minishell::tokenizer::{ScanError, Token, Tokenizer};

fn lit(s: &str) -> Token {
    Token::Literal(s.to_string())
}

#[test]
fn adjacent_quoted_runs_join_into_one_word() {
    let tokens = Tokenizer::tokenize("echo 'a b'\"c\"").unwrap();
    assert_eq!(tokens, vec![lit("echo"), lit("a bc")]);
}

#[test]
fn escaped_double_quotes_inside_double_quotes() {
    let tokens = Tokenizer::tokenize("echo \"say \\\"hi\\\" now\"").unwrap();
    assert_eq!(tokens, vec![lit("echo"), lit("say \"hi\" now")]);
}

#[test]
fn quoted_and_plain_segments_concatenate() {
    let tokens = Tokenizer::tokenize("a'b c'd").unwrap();
    assert_eq!(tokens, vec![lit("ab cd")]);
}

#[test]
fn empty_line_has_no_tokens() {
    assert_eq!(Tokenizer::tokenize("").unwrap(), vec![]);
    assert_eq!(Tokenizer::tokenize("    ").unwrap(), vec![]);
}

#[test]
fn runs_of_spaces_separate_words() {
    let tokens = Tokenizer::tokenize("  ls   -l  ").unwrap();
    assert_eq!(tokens, vec![lit("ls"), lit("-l")]);
}

#[test]
fn operators_are_recognised() {
    let tokens = Tokenizer::tokenize("a | b > f 1> g 2> h 0> i & c").unwrap();
    assert_eq!(
        tokens,
        vec![
            lit("a"),
            Token::Pipe,
            lit("b"),
            Token::Greater,
            lit("f"),
            Token::OneGreater,
            lit("g"),
            Token::TwoGreater,
            lit("h"),
            Token::ZeroGreater,
            lit("i"),
            Token::Ampersand,
            lit("c"),
        ]
    );
}

#[test]
fn append_operators_are_recognised() {
    let tokens = Tokenizer::tokenize("a >> f 1>> g 2>> h 0>> i").unwrap();
    assert_eq!(
        tokens,
        vec![
            lit("a"),
            Token::DoubleGreater,
            lit("f"),
            Token::OneDoubleGreater,
            lit("g"),
            Token::TwoDoubleGreater,
            lit("h"),
            Token::ZeroDoubleGreater,
            lit("i"),
        ]
    );
}

#[test]
fn operators_need_no_spaces() {
    let tokens = Tokenizer::tokenize("a|b>f").unwrap();
    assert_eq!(tokens, vec![lit("a"), Token::Pipe, lit("b"), Token::Greater, lit("f")]);
}

#[test]
fn digit_inside_a_word_is_not_a_stream_number() {
    let tokens = Tokenizer::tokenize("a2>f").unwrap();
    assert_eq!(tokens, vec![lit("a2"), Token::Greater, lit("f")]);
    let tokens = Tokenizer::tokenize("3>f").unwrap();
    assert_eq!(tokens, vec![lit("3"), Token::Greater, lit("f")]);
    let tokens = Tokenizer::tokenize("2 >f").unwrap();
    assert_eq!(tokens, vec![lit("2"), Token::Greater, lit("f")]);
}

#[test]
fn single_quotes_keep_backslashes_and_operators() {
    let tokens = Tokenizer::tokenize("'a\\b | > \"x\"'").unwrap();
    assert_eq!(tokens, vec![lit("a\\b | > \"x\"")]);
}

#[test]
fn double_quotes_keep_other_backslash_pairs() {
    let tokens = Tokenizer::tokenize("\"a\\nb\\\\c'd\"").unwrap();
    assert_eq!(tokens, vec![lit("a\\nb\\c'd")]);
}

#[test]
fn unquoted_backslash_escapes_next_character() {
    let tokens = Tokenizer::tokenize("a\\ b \\| \\\\ \\'").unwrap();
    assert_eq!(tokens, vec![lit("a b"), lit("|"), lit("\\"), lit("'")]);
}

#[test]
fn empty_quotes_give_an_empty_word() {
    let tokens = Tokenizer::tokenize("'' \"\"").unwrap();
    assert_eq!(tokens, vec![lit(""), lit("")]);
}

#[test]
fn tab_is_not_a_separator() {
    let tokens = Tokenizer::tokenize("a\tb").unwrap();
    assert_eq!(tokens, vec![lit("a\tb")]);
}

#[test]
fn non_ascii_text_is_kept() {
    let tokens = Tokenizer::tokenize("echo héllo 'wörld ✓'").unwrap();
    assert_eq!(tokens, vec![lit("echo"), lit("héllo"), lit("wörld ✓")]);
}

#[test]
fn unterminated_single_quote_is_an_error() {
    assert_eq!(Tokenizer::tokenize("echo 'abc"), Err(ScanError::UnterminatedQuote));
}

#[test]
fn unterminated_double_quote_is_an_error() {
    assert_eq!(Tokenizer::tokenize("echo \"abc"), Err(ScanError::UnterminatedQuote));
}

#[test]
fn trailing_backslash_is_an_error() {
    assert_eq!(Tokenizer::tokenize("echo abc\\"), Err(ScanError::TrailingBackslash));
    assert_eq!(Tokenizer::tokenize("echo \"abc\\"), Err(ScanError::TrailingBackslash));
}

#[test]
fn first_error_from_the_left_is_reported() {
    assert_eq!(Tokenizer::tokenize("'a \\"), Err(ScanError::UnterminatedQuote));
    assert_eq!(Tokenizer::tokenize("a\\"), Err(ScanError::TrailingBackslash));
}

#[test]
fn scanner_can_be_driven_step_by_step() {
    let mut tokenizer = Tokenizer::new("ls | wc");
    assert_eq!(tokenizer.parse(), Ok(()));
    assert_eq!(tokenizer.tokens(), vec![lit("ls"), Token::Pipe, lit("wc")]);
}
