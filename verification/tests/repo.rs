use git_todo::repo::{check_loaded_entry, identity_string, is_todo_entry, sort_by_created, todo_file_name};
use git_todo::todo::{Timestamp, Todo};

fn todo_at(id: &str, secs: i64, nanos: u32) -> Todo {
    let mut t = Todo::new(id.into(), String::new(), "a".into(), Timestamp::new(secs, nanos).unwrap(), &[]);
    t.id = id.into();
    t
}

#[test]
fn identity_and_file_names() {
    assert_eq!(identity_string("Jeremy Stott", "jeremy@example.com"), "Jeremy Stott <jeremy@example.com>");
    assert_eq!(todo_file_name("abc12345"), "abc12345.toml");
}

#[test]
fn only_toml_blobs_are_todo_entries() {
    assert!(is_todo_entry("abc12345.toml", true));
    assert!(!is_todo_entry("abc12345.toml", false));
    assert!(!is_todo_entry("README.md", true));
    assert!(!is_todo_entry("toml", true));
    assert!(is_todo_entry(".toml", true));
}

#[test]
fn loaded_entry_must_be_valid_and_named_after_its_id() {
    let t = todo_at("abc12345", 0, 0);
    assert_eq!(check_loaded_entry("abc12345.toml", &t), Ok(()));
    assert_eq!(
        check_loaded_entry("ffffffff.toml", &t),
        Err("todo file ffffffff.toml does not match its id `abc12345`".to_string())
    );
    let bad = todo_at("ABC", 0, 0);
    assert_eq!(
        check_loaded_entry("ABC.toml", &bad),
        Err("rejecting todo file ABC.toml: invalid id `ABC` (expected 8 lowercase hex chars)".to_string())
    );
}

#[test]
fn sort_by_created_is_stable() {
    let ts = vec![
        todo_at("00000003", 30, 0),
        todo_at("00000001", 10, 0),
        todo_at("0000000a", 20, 0),
        todo_at("0000000b", 20, 0),
        todo_at("00000002", 10, 1),
    ];
    let ids: Vec<String> = sort_by_created(ts).into_iter().map(|t| t.id).collect();
    assert_eq!(ids, vec!["00000001", "00000002", "0000000a", "0000000b", "00000003"]);
}
