use git_todo::store::{find_index, Attempt, CommitId, CommitOutcome, RetryStep, Store, MAX_ATTEMPTS};
use git_todo::todo::{LabelEdit, Status, Timestamp, Todo};

fn at(secs: i64) -> Timestamp {
    Timestamp::new(secs, 0).unwrap()
}

fn todo(id: &str, title: &str) -> Todo {
    let mut t = Todo::new(title.into(), String::new(), "A <a@x>".into(), at(100), &[]);
    t.id = id.into();
    t
}

fn store_of(ts: Vec<Todo>) -> Store {
    Store::from_snapshot(ts, None)
}

#[test]
fn find_index_errors_and_matches() {
    let ts = vec![todo("abc12345", "one"), todo("abd00000", "two"), todo("ff000000", "three")];
    assert_eq!(find_index(&ts, "", false), Err("empty id".to_string()));
    assert_eq!(find_index(&ts, "abc", false), Ok(0));
    assert_eq!(find_index(&ts, "ff000000", false), Ok(2));
    assert_eq!(find_index(&ts, "0", false), Err("no todo matches id `0`".to_string()));
    assert_eq!(
        find_index(&ts, "ab", false),
        Err("ambiguous id `ab` matches 2 todos: abc12345, abd00000".to_string())
    );
}

#[test]
fn find_index_open_only_skips_done_todos() {
    let mut ts = vec![todo("abc12345", "one"), todo("abd00000", "two")];
    ts[0].mark_done("x".into(), at(5));
    assert_eq!(find_index(&ts, "ab", true), Ok(1));
    assert_eq!(find_index(&ts, "abc", true), Err("no open todo matches id `abc`".to_string()));
    assert_eq!(find_index(&ts, "abc", false), Ok(0));
}

#[test]
fn add_appends_with_fresh_id_and_message() {
    let mut s = store_of(vec![todo("abc12345", "one")]);
    let (idx, msg) = s.add(&"Buy milk".to_string(), &"two litres".to_string(), &"J <j@x>".to_string(), at(200));
    assert_eq!(idx, 1);
    let t = &s.todos()[1];
    assert_eq!(msg, format!("new: Buy milk ({})", t.id));
    assert_ne!(t.id, "abc12345");
    assert_eq!(t.title, "Buy milk");
    assert_eq!(t.body, "two litres");
    assert_eq!(t.created_by, "J <j@x>");
    assert_eq!(s.todos()[0].title, "one");
}

#[test]
fn mark_done_staging() {
    let mut s = store_of(vec![todo("abc12345", "one"), todo("ff000000", "two")]);
    let (idx, msg) = s.mark_done("ff", &"B <b@x>".to_string(), at(300)).unwrap();
    assert_eq!((idx, msg.as_str()), (1, "done: ff000000"));
    assert_eq!(s.todos()[1].status, Status::Done);
    assert_eq!(s.todos()[1].done, Some(at(300)));
    assert_eq!(s.todos()[1].done_by.as_deref(), Some("B <b@x>"));
    assert_eq!(
        s.mark_done("ff", &"B".to_string(), at(301)),
        Err("no open todo matches id `ff`".to_string())
    );
}

#[test]
fn edit_labels_staging() {
    let mut s = store_of(vec![todo("abc12345", "one")]);
    let edits = [LabelEdit::Add("shop".into()), LabelEdit::Add("chore".into()), LabelEdit::Remove("x".into())];
    let (idx, msg) = s.edit_labels("a", &edits).unwrap();
    assert_eq!((idx, msg.as_str()), (0, "label: abc12345 +shop +chore"));
    assert_eq!(s.todos()[0].labels, vec!["chore", "shop"]);
    let (_, msg) = s.edit_labels("a", &[LabelEdit::Remove("shop".into()), LabelEdit::Add("z".into())]).unwrap();
    assert_eq!(msg, "label: abc12345 +z -shop");
    assert_eq!(
        s.edit_labels("a", &[LabelEdit::Add("z".into())]),
        Err("no label changes to apply".to_string())
    );
}

#[test]
fn add_comment_staging() {
    let mut s = store_of(vec![todo("abc12345", "one")]);
    assert_eq!(
        s.add_comment("abc", &"  \n".to_string(), &"C".to_string(), at(1)),
        Err("aborting: empty comment".to_string())
    );
    let (idx, msg) = s.add_comment("abc", &"Whole or skim?".to_string(), &"Alice <a@x>".to_string(), at(2)).unwrap();
    assert_eq!((idx, msg.as_str()), (0, "comment: abc12345 by Alice <a@x>"));
    assert_eq!(s.todos()[0].comments.len(), 1);
    assert_eq!(s.todos()[0].comments[0].body, "Whole or skim?");
    assert_eq!(
        s.add_comment("zz", &"x".to_string(), &"C".to_string(), at(3)),
        Err("no todo matches id `zz`".to_string())
    );
}

#[test]
fn store_find() {
    let s = store_of(vec![todo("abc12345", "one")]);
    assert_eq!(s.find("abc").unwrap().title, "one");
    assert!(s.find("x").is_err());
}

#[test]
fn retry_after_conflict_keeps_racing_todo() {
    let mut s = store_of(vec![todo("aaaaaaaa", "first")]);
    let mut attempt = Attempt::start("Me <m@x>".into());
    let at = Timestamp::new(1000, 0).unwrap();
    let (idx, _) = s.add(&"ours".to_string(), &String::new(), &attempt.author, at);
    assert_eq!(idx, 1);
    // Someone else committed "racing" meanwhile.
    let reloaded = vec![todo("aaaaaaaa", "first"), todo("bbbbbbbb", "racing")];
    let step = s.settle(&mut attempt, idx, CommitOutcome::Conflict { tip: Some(CommitId { bytes: vec![1, 2] }), todos: reloaded });
    assert!(matches!(step, RetryStep::Retry));
    assert_eq!(attempt.tries, 1);
    assert_eq!(s.parent().as_ref().map(|c| c.bytes.clone()), Some(vec![1, 2]));
    let (idx, _) = s.add(&"ours".to_string(), &String::new(), &attempt.author, at);
    let step = s.settle(&mut attempt, idx, CommitOutcome::Committed(CommitId { bytes: vec![3] }));
    assert!(matches!(step, RetryStep::Finished(2)));
    let titles: Vec<&str> = s.todos().iter().map(|t| t.title.as_str()).collect();
    assert_eq!(titles, vec!["first", "racing", "ours"]);
    assert_eq!(s.parent().as_ref().map(|c| c.bytes.clone()), Some(vec![3]));
}

#[test]
fn gives_up_after_max_attempts() {
    let mut s = store_of(vec![]);
    let mut attempt = Attempt::start("Me".into());
    for n in 1..=MAX_ATTEMPTS {
        let step = s.settle(&mut attempt, 0, CommitOutcome::Conflict { tip: None, todos: vec![] });
        if n < MAX_ATTEMPTS {
            assert!(matches!(step, RetryStep::Retry));
        } else {
            match step {
                RetryStep::GiveUp(m) => assert_eq!(m, "todo branch kept moving under us — gave up after 5 attempts"),
                _ => panic!("expected to give up"),
            }
        }
    }
}

#[test]
fn run_with_two_lost_races_then_a_commit() {
    let mut s = store_of(vec![todo("aaaaaaaa", "first")]);
    let mut attempt = Attempt::start("Me".into());
    let first = s.settle(&mut attempt, 1, CommitOutcome::Conflict { tip: Some(CommitId { bytes: vec![7] }), todos: vec![todo("bbbbbbbb", "b")] });
    assert!(matches!(first, RetryStep::Retry));
    let second = s.settle(
        &mut attempt,
        1,
        CommitOutcome::Conflict { tip: Some(CommitId { bytes: vec![8] }), todos: vec![todo("cccccccc", "c"), todo("dddddddd", "d")] },
    );
    assert!(matches!(second, RetryStep::Retry));
    // The third try works on the snapshot of the second lost race.
    let titles: Vec<&str> = s.todos().iter().map(|t| t.title.as_str()).collect();
    assert_eq!(titles, vec!["c", "d"]);
    assert_eq!(s.parent().as_ref().map(|c| c.bytes.clone()), Some(vec![8]));
    let third = s.settle(&mut attempt, 2, CommitOutcome::Committed(CommitId { bytes: vec![9] }));
    assert!(matches!(third, RetryStep::Finished(2)));
    assert_eq!(attempt.tries, 2);
    assert_eq!(s.parent().as_ref().map(|c| c.bytes.clone()), Some(vec![9]));
}
