use git_todo::commands::complete::ids;
use git_todo::editor::{compose_comment, compose_new, parse_title_body, strip_comments, COMMENT_TEMPLATE, NEW_TEMPLATE};
use git_todo::repo::{check_loaded_entry, is_todo_entry, todo_file_name};
use git_todo::store::Store;
use git_todo::todo::{is_valid_id, validate_loaded, Timestamp, Todo};

fn fresh(title: &str) -> Todo {
    Todo::new(title.into(), String::new(), "A <a@x>".into(), Timestamp::new(1, 0).unwrap(), &[])
}

#[test]
fn final_newline_adds_no_line() {
    assert_eq!(strip_comments("a\nb"), strip_comments("a\nb\n"));
    let with = parse_title_body("T\n\nbody");
    let without = parse_title_body("T\n\nbody\n");
    assert_eq!((with.title, with.body), (without.title, without.body));
}

#[test]
fn title_never_comes_from_a_comment_line() {
    let c = parse_title_body("#x\n   # y\n\t\n z \n");
    assert_eq!(c.title, "z");
    let c = parse_title_body("# only\n   #also\n");
    assert_eq!(c.title, "");
}

#[test]
fn written_file_is_read_back() {
    let t = fresh("Buy milk");
    let name = todo_file_name(&t.id);
    assert!(is_todo_entry(&name, true));
    assert_eq!(check_loaded_entry(&name, &t), Ok(()));
    assert!(validate_loaded(&t).is_ok());
}

#[test]
fn offered_ids_of_loaded_todos_are_valid() {
    let ts: Vec<Todo> = (0..5).map(|i| fresh(&format!("t{i}"))).collect();
    assert!(ts.iter().all(|t| validate_loaded(t).is_ok()));
    for id in ids(&ts, false, false) {
        assert!(is_valid_id(&id));
    }
}

#[test]
fn added_ids_stay_distinct() {
    let mut s = Store::from_snapshot(vec![], None);
    let when = Timestamp::new(5, 0).unwrap();
    for i in 0..50 {
        s.add(&format!("todo {i}"), &String::new(), &"A".to_string(), when);
    }
    let mut seen: Vec<&str> = s.todos().iter().map(|t| t.id.as_str()).collect();
    seen.sort();
    seen.dedup();
    assert_eq!(seen.len(), 50);
}

#[test]
fn title_and_body_shape() {
    let c = parse_title_body("  \n# note\n  Buy milk  \n\n \n  two litres\n  # not a line\nfrom the shop  \n\n");
    assert_eq!(c.title, "Buy milk");
    assert_eq!(c.body, "  two litres\nfrom the shop");
    assert!(!c.title.contains('\n'));
    assert_eq!(c.body, c.body.trim_end());
    assert!(c.body.lines().all(|l| !l.trim_start().starts_with('#')));
    assert!(!c.body.lines().next().unwrap().trim().is_empty());
    let empty = parse_title_body("# only\n   \n");
    assert_eq!((empty.title.as_str(), empty.body.as_str()), ("", ""));
}

#[test]
fn stripping_comments_twice_changes_nothing() {
    let raw = "\n  # hi\n  first  \n#x\nsecond\n\n";
    let once = strip_comments(raw);
    assert_eq!(once, "first  \nsecond");
    assert_eq!(once, once.trim());
    assert!(once.lines().all(|l| !l.trim_start().starts_with('#')));
    assert_eq!(strip_comments(&once), once);
}

#[test]
fn untouched_templates_abort() {
    let c = compose_new(NEW_TEMPLATE);
    assert_eq!((c.title.as_str(), c.body.as_str()), ("", ""));
    assert_eq!(compose_comment(COMMENT_TEMPLATE), "");
}
