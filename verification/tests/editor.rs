use git_todo::editor::{compose_comment, compose_new, parse_title_body, pick_editor, strip_comments};
use git_todo::text::char_is_whitespace;

#[test]
fn parse_title_body_strips_comments_and_splits() {
    let raw = "# help\nBuy milk\n\nTwo litres\nAt the corner shop\n# trailing\n";
    let c = parse_title_body(raw);
    assert_eq!(c.title, "Buy milk");
    assert_eq!(c.body, "Two litres\nAt the corner shop");
}

#[test]
fn parse_title_body_empty() {
    let c = parse_title_body("# only comments\n\n");
    assert!(c.title.is_empty());
    assert!(c.body.is_empty());
}

#[test]
fn parse_title_body_title_only() {
    let c = parse_title_body("Solo\n# nope\n");
    assert_eq!(c.title, "Solo");
    assert!(c.body.is_empty());
}

#[test]
fn strip_comments_keeps_body_only() {
    let raw = "# help\nLine one\nLine two\n# tail\n";
    assert_eq!(strip_comments(raw), "Line one\nLine two");
}

#[test]
fn parse_title_body_trims_title_and_skips_leading_blank_lines() {
    let c = parse_title_body("\n   \n  Title here  \n\n\n  body line\n\tsecond\n\n");
    assert_eq!(c.title, "Title here");
    assert_eq!(c.body, "  body line\n\tsecond");
}

#[test]
fn parse_title_body_handles_crlf_and_indented_comments() {
    let c = parse_title_body("Title\r\n   # indented comment\r\n\r\nBody\r\n");
    assert_eq!(c.title, "Title");
    assert_eq!(c.body, "Body");
}

#[test]
fn parse_title_body_keeps_hash_inside_lines() {
    let c = parse_title_body("Fix #12\n\nsee issue #12");
    assert_eq!(c.title, "Fix #12");
    assert_eq!(c.body, "see issue #12");
}

#[test]
fn parse_title_body_unicode_whitespace_is_trimmed() {
    let c = parse_title_body("\u{3000}Title\u{a0}\n");
    assert_eq!(c.title, "Title");
}

#[test]
fn strip_comments_of_empty_text_is_empty() {
    assert_eq!(strip_comments(""), "");
    assert_eq!(strip_comments("#a\n#b"), "");
}

#[test]
fn compose_new_reads_title_and_body() {
    let c = compose_new("\n\n# Enter the todo title\nPaint fence\n\nwhite\n");
    assert_eq!(c.title, "Paint fence");
    assert_eq!(c.body, "white");
}

#[test]
fn compose_comment_trims() {
    assert_eq!(compose_comment("\n\n  Looks good  \n# Enter your comment.\n"), "Looks good");
}

#[test]
fn pick_editor_prefers_git_editor_then_visual_then_editor() {
    assert_eq!(
        pick_editor(Some("nano".into()), Some("code".into()), Some("ed".into())),
        "nano"
    );
    assert_eq!(pick_editor(Some(String::new()), Some("code".into()), None), "code");
    assert_eq!(pick_editor(None, None, Some("ed".into())), "ed");
    assert_eq!(pick_editor(None, Some(String::new()), None), "vi");
}

#[test]
fn whitespace_test_agrees_with_std() {
    for u in 0u32..=0x10FFFF {
        if let Some(c) = char::from_u32(u) {
            assert_eq!(char_is_whitespace(c), c.is_whitespace(), "U+{u:04X}");
        }
    }
}
