use recent_paths::tokenize::get_line_tokens;

fn toks(input: &str) -> Vec<String> {
    get_line_tokens(input)
}

#[test]
fn splits_quoted_arguments() {
    assert_eq!(toks("cp -v \"a b\" c"), vec!["cp", "-v", "a b", "c"]);
}

#[test]
fn escaped_space_joins_token() {
    assert_eq!(toks("echo a\\ b"), vec!["echo", "a b"]);
}

#[test]
fn whitespace_runs_make_no_empty_tokens() {
    assert_eq!(toks("a   b"), vec!["a", "b"]);
    assert_eq!(toks("   a b   "), vec!["a", "b"]);
}

#[test]
fn empty_line_has_no_tokens() {
    assert_eq!(toks(""), Vec::<String>::new());
    assert_eq!(toks("   "), Vec::<String>::new());
}

#[test]
fn single_quotes_delimit() {
    assert_eq!(toks("touch 'x y' z"), vec!["touch", "x y", "z"]);
}

#[test]
fn closing_quote_forces_boundary() {
    assert_eq!(toks("a\"b c\"d"), vec!["ab c", "d"]);
}

#[test]
fn unterminated_quote_flushes_remainder() {
    assert_eq!(toks("echo \"a b"), vec!["echo", "a b"]);
}

#[test]
fn escaped_quote_is_literal() {
    assert_eq!(toks("cp \\\"x"), vec!["cp", "\"x"]);
}

#[test]
fn quoted_token_is_trimmed() {
    assert_eq!(toks("echo \" padded \""), vec!["echo", "padded"]);
}
