use shell::tokenizer::{parse_command, tokenize, TokenizeError};

fn toks(line: &str) -> Vec<String> {
    tokenize(line).expect("line should tokenize")
}

#[test]
fn blank_lines_have_no_tokens() {
    for line in ["", " ", "   ", "\t", " \t  \t"] {
        assert_eq!(tokenize(line), Ok(Vec::<String>::new()));
    }
}

#[test]
fn single_quotes_keep_blanks() {
    assert_eq!(toks("'a b' c"), vec!["a b", "c"]);
}

#[test]
fn adjacent_pieces_join() {
    assert_eq!(toks("a'b'c"), vec!["abc"]);
    assert_eq!(toks("\"a\"'b'c"), vec!["abc"]);
}

#[test]
fn escaped_quote_in_double_quotes() {
    assert_eq!(toks("\"a\\\"b\""), vec!["a\"b"]);
}

#[test]
fn unterminated_quote_fails() {
    assert_eq!(tokenize("a'b"), Err(TokenizeError::UnterminatedQuote));
    assert_eq!(tokenize("\"abc"), Err(TokenizeError::UnterminatedQuote));
    assert_eq!(tokenize("x \"abc\\"), Err(TokenizeError::UnterminatedQuote));
}

#[test]
fn trailing_backslash_fails() {
    assert_eq!(tokenize("a\\"), Err(TokenizeError::UnterminatedEscape));
}

#[test]
fn joined_plain_tokens_read_back() {
    let words = vec!["ls", "-la", "/tmp", "x=1"];
    assert_eq!(toks(&words.join(" ")), words);
}

#[test]
fn blanks_collapse() {
    assert_eq!(toks("  echo \t a   b  "), vec!["echo", "a", "b"]);
}

#[test]
fn backslash_outside_quotes_is_literal_next() {
    assert_eq!(toks("a\\ b c"), vec!["a b", "c"]);
    assert_eq!(toks("\\'x\\\""), vec!["'x\""]);
    assert_eq!(toks("a\\\\b"), vec!["a\\b"]);
}

#[test]
fn single_quotes_keep_backslashes() {
    assert_eq!(toks("'a\\b' '\"'"), vec!["a\\b", "\""]);
}

#[test]
fn double_quotes_escape_set() {
    assert_eq!(toks("\"a\\nb\""), vec!["a\\nb"]);
    assert_eq!(toks("\"\\$HOME \\` \\\\\""), vec!["$HOME ` \\"]);
    assert_eq!(toks("\"it's\""), vec!["it's"]);
}

#[test]
fn empty_quotes_make_an_empty_token() {
    assert_eq!(toks("'' x"), vec!["", "x"]);
}

#[test]
fn other_characters_are_plain() {
    assert_eq!(toks("a\nb|c"), vec!["a\nb|c"]);
    assert_eq!(toks("héllo wörld"), vec!["héllo", "wörld"]);
}

#[test]
fn command_and_arguments() {
    assert_eq!(
        parse_command("echo 'hi there' x"),
        Ok((Some("echo".to_string()), vec!["hi there".to_string(), "x".to_string()]))
    );
    assert_eq!(parse_command("  "), Ok((None, vec![])));
    assert_eq!(parse_command("'a"), Err(TokenizeError::UnterminatedQuote));
}

#[test]
fn error_messages() {
    assert_eq!(
        TokenizeError::UnterminatedQuote.message(),
        "Invalid arguments: quotes not closed"
    );
    assert_eq!(TokenizeError::UnterminatedEscape.message(), "No character to escape");
}

#[test]
fn double_quotes_consume_all_escapes() {
    assert_eq!(toks("\"\\`\\$\\\\\\\"\""), vec!["`$\\\""]);
    assert_eq!(toks("\"\\`\\$\\\\\\\"\"z y"), vec!["`$\\\"z", "y"]);
}

#[test]
fn escaped_closing_quote_leaves_quote_open() {
    assert_eq!(tokenize("\"ab\\\""), Err(TokenizeError::UnterminatedQuote));
    assert_eq!(tokenize("'a\""), Err(TokenizeError::UnterminatedQuote));
}

#[test]
fn unquoted_run_stops_at_quotes() {
    assert_eq!(toks("ab'c'd"), vec!["abcd"]);
    assert_eq!(toks("ab'c d'e f"), vec!["abc de", "f"]);
}
