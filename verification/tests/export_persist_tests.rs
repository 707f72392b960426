use falsh::persist::parse_path_file;
use falsh::persist::render_path_file;
use falsh::pipeline::parse_assignment;
use falsh::store::ShellState;

#[test]
fn assignments_split_at_first_equals() {
    assert_eq!(
        parse_assignment("A=1"),
        Some(("A".to_string(), "1".to_string()))
    );
    assert_eq!(
        parse_assignment("B=2=3"),
        Some(("B".to_string(), "2=3".to_string()))
    );
    assert_eq!(parse_assignment("novalue"), None);
    assert_eq!(
        parse_assignment("=x"),
        Some(("".to_string(), "x".to_string()))
    );
}

#[test]
fn run_export_applies_good_and_reports_bad() {
    let mut st = ShellState::new("/".to_string());
    let args = vec!["A=1".to_string(), "BAD".to_string(), "B=2=3".to_string()];
    let malformed = st.run_export(&args);
    assert_eq!(malformed, vec!["BAD"]);
    assert_eq!(st.get_env("A"), Some("1".to_string()));
    assert_eq!(st.get_env("B"), Some("2=3".to_string()));
}

#[test]
fn run_export_last_assignment_wins() {
    let mut st = ShellState::new("/".to_string());
    let args = vec!["A=1".to_string(), "A=2".to_string()];
    let malformed = st.run_export(&args);
    assert_eq!(malformed, Vec::<String>::new());
    assert_eq!(st.get_env("A"), Some("2".to_string()));
}

#[test]
fn path_file_parses_one_entry_per_line() {
    assert_eq!(parse_path_file("a\nb\n"), vec!["a", "b"]);
    assert_eq!(parse_path_file(""), Vec::<String>::new());
    assert_eq!(parse_path_file("only"), vec!["only"]);
    assert_eq!(parse_path_file("a\r\nb\r\n"), vec!["a", "b"]);
    assert_eq!(parse_path_file("a\n\nb\n"), vec!["a", "", "b"]);
}

#[test]
fn path_file_renders_one_entry_per_line() {
    let entries = vec!["a".to_string(), "b".to_string()];
    assert_eq!(render_path_file(&entries), "a\nb\n");
    assert_eq!(render_path_file(&Vec::new()), "");
}

#[test]
fn path_file_round_trip() {
    let entries = vec!["/opt/bin".to_string(), "./tool".to_string()];
    let text = render_path_file(&entries);
    assert_eq!(parse_path_file(&text), entries);
}
