use falsh::store::EntryKind;
use falsh::store::ShellState;

fn fresh() -> ShellState {
    ShellState::new("/".to_string())
}

#[test]
fn env_set_and_get() {
    let mut st = fresh();
    assert_eq!(st.get_env("HOME"), None);
    st.set_env("HOME", "/home/u".to_string());
    assert_eq!(st.get_env("HOME"), Some("/home/u".to_string()));
    st.set_env("HOME", "/root".to_string());
    assert_eq!(st.get_env("HOME"), Some("/root".to_string()));
}

#[test]
fn add_file_entry_persists_literal_and_resolves_parent() {
    let mut st = fresh();
    let warned = st.add_to_path("./tool", EntryKind::File, false);
    assert!(!warned);
    assert_eq!(st.persisted, vec!["./tool"]);
    assert_eq!(st.get_env("PATH"), Some(".".to_string()));
}

#[test]
fn add_twice_persists_once() {
    let mut st = fresh();
    st.add_to_path("./tool", EntryKind::File, false);
    st.add_to_path("./tool", EntryKind::File, false);
    assert_eq!(st.persisted, vec!["./tool"]);
    assert_eq!(st.get_env("PATH"), Some(".".to_string()));
}

#[test]
fn directory_entry_resolves_to_itself() {
    let mut st = fresh();
    st.add_to_path("/opt/bin", EntryKind::Directory, false);
    assert_eq!(st.persisted, vec!["/opt/bin"]);
    assert_eq!(st.get_env("PATH"), Some("/opt/bin".to_string()));
}

#[test]
fn missing_entry_warns_and_adds_literal() {
    let mut st = fresh();
    let warned = st.add_to_path("/no/such/place", EntryKind::Missing, false);
    assert!(warned);
    assert_eq!(st.persisted, vec!["/no/such/place"]);
    assert_eq!(st.get_env("PATH"), Some("/no/such/place".to_string()));
}

#[test]
fn temporary_add_does_not_persist() {
    let mut st = fresh();
    st.add_to_path("/opt/bin", EntryKind::Directory, true);
    assert_eq!(st.persisted, Vec::<String>::new());
    assert_eq!(st.get_env("PATH"), Some("/opt/bin".to_string()));
}

#[test]
fn search_variable_entries_are_colon_separated_and_deduplicated() {
    let mut st = fresh();
    st.add_to_path("/a", EntryKind::Directory, true);
    st.add_to_path("/b", EntryKind::Directory, true);
    st.add_to_path("/a", EntryKind::Directory, true);
    assert_eq!(st.get_env("PATH"), Some("/a:/b".to_string()));
}

#[test]
fn remove_path_drops_one_entry_in_order() {
    let mut st = fresh();
    st.add_to_path("/a", EntryKind::Directory, false);
    st.add_to_path("/b", EntryKind::Directory, false);
    st.add_to_path("/c", EntryKind::Directory, false);
    st.remove_path(1);
    assert_eq!(st.persisted, vec!["/a", "/c"]);
    // the search variable is not retroactively edited
    assert_eq!(st.get_env("PATH"), Some("/a:/b:/c".to_string()));
}

#[test]
fn load_persistent_into_env_mirrors_all_entries() {
    let mut st = fresh();
    st.add_to_path("/a", EntryKind::Directory, false);
    st.add_to_path("/b", EntryKind::Directory, false);
    let mut st2 = fresh();
    st2.persisted = st.persisted.clone();
    let kinds = vec![EntryKind::Directory, EntryKind::Directory];
    st2.load_persistent_into_env(&kinds);
    assert_eq!(st2.persisted, vec!["/a", "/b"]);
    assert_eq!(st2.get_env("PATH"), Some("/a:/b".to_string()));
}
