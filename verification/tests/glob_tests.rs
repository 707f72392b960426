use falsh::errors::ShellError;
use falsh::globx::expand_globs;

fn make_file(dir: &std::path::Path, name: &str) -> tempfile::NamedTempFile {
    let dot = name.find('.').unwrap();
    tempfile::Builder::new()
        .prefix(&name[..dot])
        .suffix(&name[dot..])
        .rand_bytes(0)
        .tempfile_in(dir)
        .unwrap()
}

#[test]
fn star_pattern_matches_exactly_the_two_files() {
    let dir = tempfile::tempdir().unwrap();
    let _a = make_file(dir.path(), "a.txt");
    let _b = make_file(dir.path(), "b.txt");
    let pattern = format!("{}/*.txt", dir.path().to_str().unwrap());
    let out = expand_globs(vec![pattern]).unwrap();
    let expect_a = format!("{}/a.txt", dir.path().to_str().unwrap());
    let expect_b = format!("{}/b.txt", dir.path().to_str().unwrap());
    assert_eq!(out, vec![expect_a, expect_b]);
}

#[test]
fn pattern_matching_nothing_contributes_no_tokens() {
    let dir = tempfile::tempdir().unwrap();
    let pattern = format!("{}/*.nothing_here", dir.path().to_str().unwrap());
    let out = expand_globs(vec!["keep".to_string(), pattern, "also".to_string()]).unwrap();
    assert_eq!(out, vec!["keep", "also"]);
}

#[test]
fn tokens_without_wildcards_pass_through_in_order() {
    let out = expand_globs(vec!["one".to_string(), "two".to_string()]).unwrap();
    assert_eq!(out, vec!["one", "two"]);
}

#[test]
fn question_mark_matches_single_character() {
    let dir = tempfile::tempdir().unwrap();
    let _a = make_file(dir.path(), "a.txt");
    let pattern = format!("{}/?.txt", dir.path().to_str().unwrap());
    let out = expand_globs(vec![pattern]).unwrap();
    assert_eq!(out, vec![format!("{}/a.txt", dir.path().to_str().unwrap())]);
}

#[test]
fn invalid_wildcard_pattern_is_a_glob_error() {
    let bad = "[*".to_string();
    let r = expand_globs(vec!["fine".to_string(), bad.clone()]);
    match r {
        Err(ShellError::Glob { pattern }) => assert_eq!(pattern, bad),
        other => panic!("expected a glob error, got {:?}", other),
    }
}
