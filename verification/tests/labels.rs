use git_todo::labels::sort_labels;
use git_todo::todo::{LabelEdit, Timestamp, Todo};

fn todo_with(labels: &[&str]) -> Todo {
    let mut t = Todo::new("t".into(), String::new(), "a".into(), Timestamp::new(0, 0).unwrap(), &[]);
    t.labels = labels.iter().map(|s| s.to_string()).collect();
    t
}

fn add(s: &str) -> LabelEdit {
    LabelEdit::Add(s.into())
}

fn rm(s: &str) -> LabelEdit {
    LabelEdit::Remove(s.into())
}

#[test]
fn labels_come_out_sorted() {
    let mut t = todo_with(&[]);
    let (added, removed) = t.apply_label_edits(&[add("shop"), add("chore"), add("b/x"), add("B")]);
    assert_eq!(added, vec!["shop", "chore", "b/x", "B"]);
    assert!(removed.is_empty());
    assert_eq!(t.labels, vec!["B", "b/x", "chore", "shop"]);
}

#[test]
fn remove_drops_every_copy() {
    let mut t = todo_with(&["x", "y", "x"]);
    let (added, removed) = t.apply_label_edits(&[rm("x")]);
    assert!(added.is_empty());
    assert_eq!(removed, vec!["x"]);
    assert_eq!(t.labels, vec!["y"]);
}

#[test]
fn last_edit_of_a_label_decides() {
    let mut t = todo_with(&["keep", "gone"]);
    let (added, removed) = t.apply_label_edits(&[add("new"), rm("new"), rm("gone"), add("gone"), add("z")]);
    assert_eq!(added, vec!["new", "gone", "z"]);
    assert_eq!(removed, vec!["new", "gone"]);
    assert_eq!(t.labels, vec!["gone", "keep", "z"]);
}

#[test]
fn applying_edits_twice_changes_labels_once() {
    let edits = [add("a"), rm("b"), add("c"), rm("c"), add("b")];
    let mut t = todo_with(&["b", "d", "d"]);
    t.apply_label_edits(&edits);
    let once = t.labels.clone();
    t.apply_label_edits(&edits);
    assert_eq!(t.labels, once);
    assert_eq!(once, vec!["a", "b", "d", "d"]);
}

#[test]
fn sort_labels_orders_by_code_point() {
    let v: Vec<String> = ["é", "z", "a", "ab", "", "Z", "a"].iter().map(|s| s.to_string()).collect();
    assert_eq!(sort_labels(&v), vec!["", "Z", "a", "a", "ab", "z", "é"]);
    let mut std_sorted = v.clone();
    std_sorted.sort();
    assert_eq!(sort_labels(&v), std_sorted);
}

#[test]
fn edits_never_double_a_label() {
    let mut t = todo_with(&["b", "a"]);
    t.apply_label_edits(&[add("a"), add("c"), add("c"), rm("b"), add("b"), add("a")]);
    assert_eq!(t.labels, vec!["a", "b", "c"]);
}
