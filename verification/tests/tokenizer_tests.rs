use falsh::tokenizer::split_args;

fn toks(line: &str) -> Vec<String> {
    split_args(line)
}

#[test]
fn single_quotes_group_words() {
    assert_eq!(toks("a 'b c' d"), vec!["a", "b c", "d"]);
}

#[test]
fn double_quotes_keep_single_quotes() {
    assert_eq!(toks("a \"b 'c' d\""), vec!["a", "b 'c' d"]);
}

#[test]
fn single_quotes_keep_double_quotes() {
    assert_eq!(toks("a 'b \"c\" d'"), vec!["a", "b \"c\" d"]);
}

#[test]
fn empty_input_no_tokens() {
    assert_eq!(toks(""), Vec::<String>::new());
}

#[test]
fn whitespace_only_no_tokens() {
    assert_eq!(toks("     "), Vec::<String>::new());
}

#[test]
fn spaces_collapse() {
    assert_eq!(toks("  foo    bar  "), vec!["foo", "bar"]);
}

#[test]
fn quote_marks_are_consumed() {
    assert_eq!(toks("ab'cd'ef"), vec!["abcdef"]);
    assert_eq!(toks("\"\"x"), vec!["x"]);
}

#[test]
fn unterminated_quote_closes_token() {
    assert_eq!(toks("echo 'hello wor"), vec!["echo", "hello wor"]);
}

#[test]
fn empty_quotes_alone_make_no_token() {
    assert_eq!(toks("''"), Vec::<String>::new());
}

#[test]
fn rejoin_and_retokenize_plain_tokens() {
    let first = toks("  foo    bar  baz ");
    let rejoined = first.join(" ");
    assert_eq!(toks(&rejoined), first);
}
