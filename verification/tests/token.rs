use parser::error::{Error, ErrorKind};
use parser::token::{Token, TokenKind, Tokenizer};

fn tokenize(input: &str) -> Result<Vec<Token>, Error<'_>> {
    let mut tokens = Vec::new();
    let mut gen = Tokenizer::new(input);
    while let Some(tok) = gen.next_token()? {
        tokens.push(tok);
    }
    Ok(tokens)
}

fn kinds(input: &str) -> Vec<TokenKind> {
    tokenize(input).unwrap().iter().map(|t| t.kind).collect()
}

fn texts(input: &str) -> Vec<&str> {
    tokenize(input).unwrap().iter().map(|t| &input[t.start..t.end]).collect()
}

fn word(start: usize, end: usize) -> Token {
    Token { kind: TokenKind::Word, start, end }
}

#[test]
fn words_are_split_at_whitespace() {
    assert_eq!(
        tokenize("foo\t\r\n bar\nbaz").unwrap(),
        vec![word(0, 3), word(7, 10), word(11, 14)]
    );
    assert_eq!(texts("foo\t\r\n bar\nbaz"), vec!["foo", "bar", "baz"]);
}

#[test]
fn vertical_tab_and_form_feed_are_whitespace() {
    assert_eq!(texts("a\x0bb\x0cc"), vec!["a", "b", "c"]);
}

#[test]
fn punctuation_is_a_token_by_itself() {
    assert_eq!(
        kinds(",,,.,.,"),
        vec![
            TokenKind::Comma,
            TokenKind::Comma,
            TokenKind::Comma,
            TokenKind::Dot,
            TokenKind::Comma,
            TokenKind::Dot,
            TokenKind::Comma
        ]
    );
    assert_eq!(
        kinds("; ! ? :"),
        vec![TokenKind::Semi, TokenKind::Exclamation, TokenKind::Question, TokenKind::Colon]
    );
}

#[test]
fn punctuation_ends_a_word() {
    assert_eq!(
        tokenize("baz . ,bar ").unwrap(),
        vec![
            word(0, 3),
            Token { kind: TokenKind::Dot, start: 4, end: 5 },
            Token { kind: TokenKind::Comma, start: 6, end: 7 },
            word(7, 10)
        ]
    );
    assert_eq!(texts("bar, and -baz"), vec!["bar", ",", "and", "-baz"]);
    assert_eq!(texts(", , b"), vec![",", ",", "b"]);
}

#[test]
fn quoted_string_spans_its_quotes() {
    assert_eq!(
        tokenize("\"testing\"").unwrap(),
        vec![Token { kind: TokenKind::Quote, start: 0, end: 9 }]
    );
    assert_eq!(texts("say \"hello, world.\" now"), vec!["say", "\"hello, world.\"", "now"]);
}

#[test]
fn empty_quoted_string() {
    assert_eq!(
        tokenize("\"\"").unwrap(),
        vec![Token { kind: TokenKind::Quote, start: 0, end: 2 }]
    );
}

#[test]
fn escaped_quote_does_not_close() {
    let input = "\"a\\\"b\" c";
    assert_eq!(
        tokenize(input).unwrap(),
        vec![Token { kind: TokenKind::Quote, start: 0, end: 6 }, word(7, 8)]
    );
}

#[test]
fn escaped_escape_does_not_escape() {
    let input = "\"a\\\\\" c";
    assert_eq!(texts(input), vec!["\"a\\\\\"", "c"]);
}

#[test]
fn unterminated_quote_is_an_error() {
    assert_eq!(
        tokenize("\"testing").unwrap_err(),
        Error { input: "\"testing", position: 0, kind: ErrorKind::UnterminatedQuote }
    );
    assert_eq!(
        tokenize("one \"two\\\"").unwrap_err(),
        Error { input: "one \"two\\\"", position: 4, kind: ErrorKind::UnterminatedQuote }
    );
}

#[test]
fn quote_ends_a_word() {
    assert_eq!(texts("word\"quote\"no"), vec!["word", "\"quote\"", "no"]);
    assert_eq!(
        tokenize("wordy wordy word\"quoteno").unwrap_err(),
        Error {
            input: "wordy wordy word\"quoteno",
            position: 16,
            kind: ErrorKind::UnterminatedQuote
        }
    );
}

#[test]
fn error_leaves_the_tokenizer_in_place() {
    let mut tok = Tokenizer::new("a \"b");
    assert_eq!(tok.next_token(), Ok(Some(word(0, 1))));
    assert_eq!(tok.position(), 1);
    assert!(tok.next_token().is_err());
    assert_eq!(tok.position(), 1);
}

#[test]
fn end_of_text_moves_to_the_end() {
    let mut tok = Tokenizer::new("a   ");
    assert_eq!(tok.next_token(), Ok(Some(word(0, 1))));
    assert_eq!(tok.next_token(), Ok(None));
    assert_eq!(tok.position(), 4);
    assert_eq!(tok.next_token(), Ok(None));
}

#[test]
fn empty_text_has_no_token() {
    assert_eq!(tokenize("").unwrap(), vec![]);
    assert_eq!(tokenize(" \t\n").unwrap(), vec![]);
}

#[test]
fn peek_does_not_move() {
    let mut tok = Tokenizer::new("  one two");
    assert_eq!(tok.peek_token(), Ok(Some(word(2, 5))));
    assert_eq!(tok.position(), 0);
    assert_eq!(tok.next_token(), Ok(Some(word(2, 5))));
    assert_eq!(tok.position(), 5);
    assert_eq!(tok.peek_token(), Ok(Some(word(6, 9))));
}

#[test]
fn copy_reads_the_same_tokens() {
    let mut tok = Tokenizer::new("one two");
    tok.next_token().unwrap();
    let mut copy = tok;
    assert_eq!(copy.next_token(), Ok(Some(word(4, 7))));
    assert_eq!(tok.position(), 3);
    assert_eq!(tok.next_token(), Ok(Some(word(4, 7))));
}

#[test]
fn starting_at_reads_from_there() {
    let mut tok = Tokenizer::starting_at("one two", 3).unwrap();
    assert_eq!(tok.input(), "one two");
    assert_eq!(tok.position(), 3);
    assert_eq!(tok.next_token(), Ok(Some(word(4, 7))));
    assert_eq!(Tokenizer::starting_at("one", 3).unwrap().next_token(), Ok(None));
}

#[test]
fn starting_at_needs_a_character_boundary() {
    assert!(Tokenizer::starting_at("a\u{fc}b", 1).is_some());
    assert!(Tokenizer::starting_at("a\u{fc}b", 2).is_none());
    assert!(Tokenizer::starting_at("a\u{fc}b", 3).is_some());
    assert!(Tokenizer::starting_at("a\u{fc}b", 4).is_some());
    assert!(Tokenizer::starting_at("a\u{fc}b", 5).is_none());
}

#[test]
fn words_may_hold_any_other_character() {
    assert_eq!(texts("@bot +T-compiler r#x"), vec!["@bot", "+T-compiler", "r#x"]);
    assert_eq!(texts("gr\u{fc}\u{df}e \u{4e16}\u{754c}"), vec!["gr\u{fc}\u{df}e", "\u{4e16}\u{754c}"]);
}

#[test]
fn lexical_error_kind() {
    assert!(ErrorKind::UnterminatedQuote.is_lexical());
    assert!(!ErrorKind::NoUser.is_lexical());
    assert_eq!(ErrorKind::UnterminatedQuote.message(), "quoted string is not closed");
    assert_eq!(ErrorKind::MentionUser.message(), "user should start with @");
    assert_eq!(ErrorKind::NoUser.message(), "specify user to assign to");
    assert_eq!(ErrorKind::EmptyLabel.message(), "empty label");
    assert_eq!(ErrorKind::ExpectedLabelDelta.message(), "a label delta");
    assert_eq!(ErrorKind::MisleadingTo.message(), "forbidden to, use +to");
    assert_eq!(ErrorKind::NoSeparator.message(), "must have : or to as label starter");
    assert_eq!(
        ErrorKind::ExpectedPriority.message(),
        "expected a priority: high, medium or low"
    );
}
