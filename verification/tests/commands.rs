use git_todo::commands::complete::ids;
use git_todo::commands::label::{labels_display, parse_edits, EditArgsError};
use git_todo::commands::list::{humanize_age, rows, rows_with_ages, truncate, Filter};
use git_todo::commands::new::{fields_from_args, fields_from_editor};
use git_todo::commands::show::{show_lines, show_lines_with};
use git_todo::editor::Composed;
use git_todo::todo::{LabelEdit, Timestamp, Todo};

fn todo(id: &str, title: &str, secs: i64) -> Todo {
    let mut t = Todo::new(title.into(), String::new(), "Ann <a@x>".into(), Timestamp::new(secs, 0).unwrap(), &[]);
    t.id = id.into();
    t
}

#[test]
fn humanize_age_units() {
    assert_eq!(humanize_age(-5), "0s");
    assert_eq!(humanize_age(0), "0s");
    assert_eq!(humanize_age(59), "59s");
    assert_eq!(humanize_age(60), "1m");
    assert_eq!(humanize_age(3599), "59m");
    assert_eq!(humanize_age(3600), "1h");
    assert_eq!(humanize_age(86399), "23h");
    assert_eq!(humanize_age(86400), "1d");
    assert_eq!(humanize_age(86400 * 30 - 1), "29d");
    assert_eq!(humanize_age(86400 * 30), "1mo");
    assert_eq!(humanize_age(86400 * 365 - 1), "12mo");
    assert_eq!(humanize_age(86400 * 365), "1y");
    assert_eq!(humanize_age(86400 * 365 * 123), "123y");
}

#[test]
fn truncate_counts_chars() {
    assert_eq!(truncate("hello", 5), "hello");
    assert_eq!(truncate("hello!", 5), "hell…");
    assert_eq!(truncate("héllo wörld", 4), "hél…");
    assert_eq!(truncate("ab", 0), "…");
    assert_eq!(truncate("", 0), "");
}

#[test]
fn list_rows_layout() {
    let mut ts = vec![todo("aaaaaaaa", "Buy milk", 1000), todo("bbbbbbbb", "Walk", 1000)];
    ts[1].mark_done("x".into(), Timestamp::new(2000, 0).unwrap());
    let now = Timestamp::new(1000 + 7200, 0).unwrap();
    assert_eq!(
        rows(&ts, Filter::All, &now),
        vec![
            "aaaaaaaa  [ ]  Buy milk      2h  Ann <a@x>".to_string(),
            "bbbbbbbb  [x]  Walk          2h  Ann <a@x>".to_string(),
        ]
    );
    assert_eq!(rows(&ts, Filter::Open, &now), vec!["aaaaaaaa  [ ]  Buy milk      2h  Ann <a@x>".to_string()]);
    assert_eq!(rows(&ts, Filter::Done, &now), vec!["bbbbbbbb  [x]  Walk      2h  Ann <a@x>".to_string()]);
    assert!(rows(&[], Filter::All, &now).is_empty());
}

#[test]
fn list_title_column_is_capped_at_sixty() {
    let long = "x".repeat(70);
    let ts = vec![todo("aaaaaaaa", &long, 0)];
    let now = Timestamp::new(0, 0).unwrap();
    let r = rows(&ts, Filter::All, &now);
    assert_eq!(r[0], format!("aaaaaaaa  [ ]  {}…      0s  Ann <a@x>", "x".repeat(59)));
}

#[test]
fn filter_from_flags() {
    assert!(matches!(Filter::from_flags(true, false), Filter::All));
    assert!(matches!(Filter::from_flags(true, true), Filter::All));
    assert!(matches!(Filter::from_flags(false, true), Filter::Done));
    assert!(matches!(Filter::from_flags(false, false), Filter::Open));
}

#[test]
fn completion_ids() {
    let mut ts = vec![todo("aaaaaaaa", "a", 0), todo("bbbbbbbb", "b", 0)];
    ts[0].mark_done("x".into(), Timestamp::new(1, 0).unwrap());
    assert_eq!(ids(&ts, false, false), vec!["aaaaaaaa", "bbbbbbbb"]);
    assert_eq!(ids(&ts, true, false), vec!["bbbbbbbb"]);
    assert_eq!(ids(&ts, true, true), vec!["aaaaaaaa", "bbbbbbbb"]);
}

#[test]
fn label_arguments() {
    assert!(matches!(parse_edits(&vec![]), Err(EditArgsError::Missing)));
    let r = parse_edits(&vec!["+chore".to_string(), "-urgent".to_string(), "shop".to_string()]);
    match r {
        Ok(v) => assert_eq!(
            v,
            vec![LabelEdit::Add("chore".into()), LabelEdit::Remove("urgent".into()), LabelEdit::Add("shop".into())]
        ),
        Err(_) => panic!("expected edits"),
    }
    match parse_edits(&vec!["+ok".to_string(), "+no way".to_string(), "".to_string()]) {
        Err(EditArgsError::Invalid(m)) => {
            assert_eq!(m, "invalid label `no way`: only alphanumerics, `-`, `_`, `/` allowed")
        }
        _ => panic!("expected the first bad token's message"),
    }
    assert_eq!(labels_display(&vec![]), "(none)");
    assert_eq!(labels_display(&vec!["chore".into(), "shop".into()]), "chore, shop");
}

#[test]
fn new_fields() {
    assert_eq!(
        fields_from_args(Some("T".into()), Some("D".into()), &vec!["ignored".into()]),
        Some(("T".to_string(), "D".to_string()))
    );
    assert_eq!(
        fields_from_args(None, None, &vec!["Buy".into(), "milk".into()]),
        Some(("Buy milk".to_string(), String::new()))
    );
    assert_eq!(fields_from_args(None, Some("D".into()), &vec![]), None);
    assert_eq!(
        fields_from_editor(Composed { title: String::new(), body: "b".into() }),
        Err("aborting: empty title".to_string())
    );
    assert_eq!(
        fields_from_editor(Composed { title: "t".into(), body: "b".into() }),
        Ok(("t".to_string(), "b".to_string()))
    );
}

#[test]
fn show_lines_layout() {
    let mut t = todo("abc12345", "Buy milk", 1776592800);
    t.body = "two litres\nfrom the shop\n".into();
    t.labels = vec!["chore".into(), "shop".into()];
    t.add_comment("Alice <a@x>".into(), "Whole or skim?".into(), Timestamp::new(1776596400, 0).unwrap());
    t.mark_done("Jeremy <j@x>".into(), Timestamp::new(1776600000, 0).unwrap());
    let expected = vec![
        "id:      abc12345",
        "title:   Buy milk",
        "status:  done",
        "created: 2026-04-19T10:00:00+00:00  by Ann <a@x>",
        "done:    2026-04-19T12:00:00+00:00  by Jeremy <j@x>",
        "labels:  chore, shop",
        "",
        "    two litres",
        "    from the shop",
        "",
        "--- 2026-04-19T11:00:00+00:00 by Alice <a@x>",
        "    Whole or skim?",
    ];
    assert_eq!(show_lines(&t), expected);
}

#[test]
fn show_lines_minimal() {
    let t = todo("abc12345", "X", 0);
    assert_eq!(
        show_lines(&t),
        vec!["id:      abc12345", "title:   X", "status:  open", "created: 1970-01-01T00:00:00+00:00  by Ann <a@x>"]
    );
}

#[test]
fn rows_with_given_ages() {
    let mut ts = vec![todo("aaaaaaaa", "Buy milk", 0), todo("bbbbbbbb", "Walk", 0), todo("cccccccc", "Sleep", 0)];
    ts[1].mark_done("x".into(), Timestamp::new(5, 0).unwrap());
    let ages = vec![-3, 90, 86400 * 400];
    assert_eq!(
        rows_with_ages(&ts, Filter::Open, &ages),
        vec![
            "aaaaaaaa  [ ]  Buy milk      0s  Ann <a@x>".to_string(),
            "cccccccc  [ ]  Sleep         1y  Ann <a@x>".to_string(),
        ]
    );
    assert_eq!(rows_with_ages(&ts, Filter::Done, &ages), vec!["bbbbbbbb  [x]  Walk      1m  Ann <a@x>".to_string()]);
}

#[test]
fn show_lines_with_given_times() {
    let mut t = todo("abc12345", "X", 0);
    t.add_comment("Bo <b@x>".into(), "first\nsecond".into(), Timestamp::new(1, 0).unwrap());
    let lines = show_lines_with(&t, &"C".to_string(), &"D".to_string(), &vec!["T1".to_string()]);
    assert_eq!(
        lines,
        vec![
            "id:      abc12345",
            "title:   X",
            "status:  open",
            "created: C  by Ann <a@x>",
            "",
            "--- T1 by Bo <b@x>",
            "    first",
            "    second",
        ]
    );
}
