use git_todo::todo::{is_valid_id, random_id, validate_loaded, LabelEdit, Status, Timestamp, Todo, ID_LEN, MAX_SINGLE_LINE};

fn fixed_time() -> Timestamp {
    Timestamp::new(1776592800, 0).unwrap()
}

fn fresh(title: &str, body: &str, author: &str) -> Todo {
    Todo::new(title.into(), body.into(), author.into(), fixed_time(), &[])
}

fn good_todo() -> Todo {
    fresh("Buy milk", "two litres", "Jeremy <j@example.com>")
}

#[test]
fn id_is_eight_chars_hex() {
    let t = fresh("Buy milk", "", "Jeremy <j@example.com>");
    assert_eq!(t.id.len(), ID_LEN);
    assert!(t.id.chars().all(|c| c.is_ascii_hexdigit()));
}

#[test]
fn label_edits_idempotent() {
    let mut t = fresh("X", "", "A");
    let (added, removed) = t.apply_label_edits(&[
        LabelEdit::Add("a".into()),
        LabelEdit::Add("a".into()),
        LabelEdit::Remove("missing".into()),
    ]);
    assert_eq!(added, vec!["a"]);
    assert!(removed.is_empty());
    assert_eq!(t.labels, vec!["a"]);

    let (added, removed) = t.apply_label_edits(&[LabelEdit::Remove("a".into())]);
    assert!(added.is_empty());
    assert_eq!(removed, vec!["a"]);
    assert!(t.labels.is_empty());
}

#[test]
fn is_valid_id_accepts_lowercase_hex_only() {
    assert!(is_valid_id("0123abcd"));
    assert!(is_valid_id("cafef00d"));
    assert!(!is_valid_id(""));
    assert!(!is_valid_id("abc"));
    assert!(!is_valid_id("0123abcde"));
    assert!(!is_valid_id("CAFEF00D"));
    assert!(!is_valid_id("aa$(touch"));
    assert!(!is_valid_id("aa\nbbccdd"));
}

#[test]
fn label_edit_parse() {
    assert_eq!(LabelEdit::parse("+foo"), Ok(LabelEdit::Add("foo".into())));
    assert_eq!(LabelEdit::parse("-bar"), Ok(LabelEdit::Remove("bar".into())));
    assert_eq!(LabelEdit::parse("baz"), Ok(LabelEdit::Add("baz".into())));
    assert_eq!(
        LabelEdit::parse("kind/bug"),
        Ok(LabelEdit::Add("kind/bug".into()))
    );
    assert!(LabelEdit::parse("").is_err());
    assert!(LabelEdit::parse("+").is_err());
    assert!(LabelEdit::parse("+with space").is_err());
}

#[test]
fn label_edit_parse_messages() {
    assert_eq!(LabelEdit::parse(""), Err("empty label".to_string()));
    assert_eq!(LabelEdit::parse("-"), Err("empty label name in `-`".to_string()));
    assert_eq!(
        LabelEdit::parse("+a b"),
        Err("invalid label `a b`: only alphanumerics, `-`, `_`, `/` allowed".to_string())
    );
    assert_eq!(LabelEdit::parse("ünïcode"), Ok(LabelEdit::Add("ünïcode".into())));
    assert_eq!(LabelEdit::parse("--x"), Ok(LabelEdit::Remove("-x".into())));
}

#[test]
fn validate_loaded_accepts_freshly_created_todo() {
    assert!(validate_loaded(&good_todo()).is_ok());
}

#[test]
fn validate_loaded_rejects_escape_in_title() {
    let mut t = good_todo();
    t.title = "pwn\x1b[2J".into();
    assert!(validate_loaded(&t).is_err());
}

#[test]
fn validate_loaded_rejects_newline_in_author() {
    let mut t = good_todo();
    t.created_by = "Alice\nInjected-Header: x".into();
    assert!(validate_loaded(&t).is_err());
}

#[test]
fn validate_loaded_allows_newlines_in_body() {
    let mut t = good_todo();
    t.body = "line one\nline two\n".into();
    assert!(validate_loaded(&t).is_ok());
}

#[test]
fn validate_loaded_rejects_oversized_title() {
    let mut t = good_todo();
    t.title = "a".repeat(MAX_SINGLE_LINE + 1);
    assert!(validate_loaded(&t).is_err());
}

#[test]
fn validate_loaded_rejects_c1_control_in_body() {
    let mut t = good_todo();
    t.body = "oops\u{85}here".into();
    assert!(validate_loaded(&t).is_err());
}

#[test]
fn validate_loaded_rejects_del_in_comment_author() {
    let mut t = good_todo();
    t.add_comment("Alice\x7F".into(), "hi".into(), fixed_time());
    assert!(validate_loaded(&t).is_err());
}

#[test]
fn new_re_rolls_when_first_draw_is_taken() {
    fastrand::seed(0xC0FFEE);
    let first_id = random_id();

    fastrand::seed(0xC0FFEE);
    let taken = vec![first_id.clone()];
    let t = Todo::new("x".into(), String::new(), "a".into(), fixed_time(), &taken);
    assert_ne!(t.id, first_id);
    assert_eq!(t.id.len(), ID_LEN);
    assert!(t.id.chars().all(|c| c.is_ascii_hexdigit()));
}

#[test]
fn validate_loaded_messages() {
    let mut t = good_todo();
    t.id = "XYZ".into();
    assert_eq!(
        validate_loaded(&t),
        Err("invalid id `XYZ` (expected 8 lowercase hex chars)".to_string())
    );
    let mut t = good_todo();
    t.title = "pwn\x1b".into();
    assert_eq!(
        validate_loaded(&t),
        Err("title contains forbidden control char U+001B".to_string())
    );
    let mut t = good_todo();
    t.body = "x".repeat(65537);
    assert_eq!(validate_loaded(&t), Err("body exceeds 65536 bytes".to_string()));
    let mut t = good_todo();
    t.title = "é".repeat(513);
    assert_eq!(validate_loaded(&t), Err("title exceeds 1024 bytes".to_string()));
    let mut t = good_todo();
    t.labels = vec!["ok".into(), "bad\u{9f}".into()];
    assert_eq!(
        validate_loaded(&t),
        Err("label contains forbidden control char U+009F".to_string())
    );
    let mut t = good_todo();
    t.mark_done("Bob\r".into(), fixed_time());
    assert_eq!(
        validate_loaded(&t),
        Err("done_by contains forbidden control char U+000D".to_string())
    );
    let mut t = good_todo();
    t.add_comment("Al".into(), "tab\tand\nnewline ok\u{7}".into(), fixed_time());
    assert_eq!(
        validate_loaded(&t),
        Err("comment.body contains forbidden control char U+0007".to_string())
    );
}

#[test]
fn validate_loaded_limit_is_in_bytes_not_chars() {
    let mut t = good_todo();
    t.title = "é".repeat(512);
    assert!(validate_loaded(&t).is_ok());
    t.title = "a".repeat(MAX_SINGLE_LINE);
    assert!(validate_loaded(&t).is_ok());
}

#[test]
fn new_todo_fields() {
    let t = Todo::new("T".into(), "B".into(), "A".into(), fixed_time(), &["00000000".to_string()]);
    assert_eq!(t.title, "T");
    assert_eq!(t.body, "B");
    assert_eq!(t.created_by, "A");
    assert_eq!(t.created, fixed_time());
    assert_eq!(t.status, Status::Open);
    assert!(t.done.is_none() && t.done_by.is_none());
    assert!(t.labels.is_empty() && t.comments.is_empty());
    assert!(t.is_open());
    assert_ne!(t.id, "00000000");
    assert!(is_valid_id(&t.id));
}

#[test]
fn mark_done_and_comment() {
    let mut t = good_todo();
    let later = Timestamp::new(1776600000, 5).unwrap();
    t.mark_done("Bob <b@x>".into(), later);
    assert_eq!(t.status, Status::Done);
    assert!(!t.is_open());
    assert_eq!(t.done, Some(later));
    assert_eq!(t.done_by.as_deref(), Some("Bob <b@x>"));
    t.add_comment("C".into(), "first".into(), later);
    t.add_comment("D".into(), "second".into(), later);
    assert_eq!(t.comments.len(), 2);
    assert_eq!(t.comments[1].body, "second");
    assert_eq!(t.comments[0].by, "C");
}

#[test]
fn random_ids_are_valid() {
    for _ in 0..100 {
        let id = random_id();
        assert!(is_valid_id(&id), "{id}");
    }
}

#[test]
fn timestamp_bounds_and_order() {
    assert!(Timestamp::new(0, 0).is_some());
    assert!(Timestamp::new(59, 1_500_000_000).is_some());
    assert!(Timestamp::new(58, 1_500_000_000).is_none());
    assert!(Timestamp::new(0, 2_000_000_000).is_none());
    assert!(Timestamp::new(i64::MAX, 0).is_none());
    let a = Timestamp::new(10, 5).unwrap();
    let b = Timestamp::new(10, 6).unwrap();
    let c = Timestamp::new(11, 0).unwrap();
    assert!(a.before(&b) && b.before(&c) && a.before(&c));
    assert!(!b.before(&a) && !a.before(&a));
    assert_eq!(c.seconds_since(&a), 0);
    assert_eq!(Timestamp::new(100, 0).unwrap().seconds_since(&a), 89);
    assert_eq!(a.seconds_since(&Timestamp::new(100, 0).unwrap()), -89);
    assert_eq!(fixed_time().to_rfc3339(), "2026-04-19T10:00:00+00:00");
    assert_eq!((a.secs(), a.nanos()), (10, 5));
}


#[test]
fn timestamp_range_is_chronos() {
    assert!(Timestamp::new(8210266876799, 999_999_999).is_some());
    assert!(Timestamp::new(8210266876800, 0).is_none());
    assert!(Timestamp::new(-8334601228800, 0).is_some());
    assert!(Timestamp::new(-8334601228801, 999_999_999).is_none());
    assert!(Timestamp::new(59, 1_500_000_000).is_some());
    assert!(Timestamp::new(58, 1_500_000_000).is_none());
    assert!(Timestamp::new(-1, 1_999_999_999).is_some());
    assert!(Timestamp::new(59, 2_000_000_000).is_none());
    assert!(Timestamp::new(0, 999_999_999).is_some());
    assert!(Timestamp::new(i64::MAX, 0).is_none());
    assert!(Timestamp::new(i64::MIN, 0).is_none());
}
