//! Highlighter behavior: per-character categories, the carried
//! block-comment state across lines, and search emphasis.

use hecto::highlighting::HlKind;
use hecto::Document;

fn rust_doc(text: &str) -> Document {
    Document::from_text(text, Some("sample.rs".to_string()))
}

fn kinds(d: &Document, y: usize) -> Vec<HlKind> {
    d.row(y).expect("row exists").highlighting().clone()
}

#[test]
fn comment_state_carries_to_next_line() {
    let mut d = rust_doc("/* start\nmiddle\nend */ x\nplain");
    d.highlight(&None, None);
    assert!(kinds(&d, 0).iter().all(|k| *k == HlKind::MultilineComment));
    assert!(kinds(&d, 1).iter().all(|k| *k == HlKind::MultilineComment));
    let third = kinds(&d, 2);
    assert!(third[..6].iter().all(|k| *k == HlKind::MultilineComment));
    assert_eq!(third[7], HlKind::Plain);
    assert!(kinds(&d, 3).iter().all(|k| *k == HlKind::Plain));
}

#[test]
fn highlight_bound_leaves_later_rows_stale() {
    let mut d = rust_doc("a\nb\nc\nd");
    d.highlight(&None, Some(2));
    assert!(d.row(0).unwrap().is_highlighted());
    assert!(d.row(1).unwrap().is_highlighted());
    assert!(!d.row(2).unwrap().is_highlighted());
    assert!(!d.row(3).unwrap().is_highlighted());
}

#[test]
fn highlight_bound_zero_touches_nothing() {
    let mut d = rust_doc("a\nb");
    d.highlight(&None, Some(0));
    assert!(!d.row(0).unwrap().is_highlighted());
    assert!(!d.row(1).unwrap().is_highlighted());
}

#[test]
fn numbers_and_strings() {
    let mut d = rust_doc("x = 42 \"hi\" 'c'");
    d.highlight(&None, None);
    let k = kinds(&d, 0);
    assert_eq!(k[0], HlKind::Plain);
    assert_eq!(k[4], HlKind::Number);
    assert_eq!(k[5], HlKind::Number);
    assert_eq!(k[7], HlKind::StringLit);
    assert_eq!(k[8], HlKind::StringLit);
    assert_eq!(k[10], HlKind::StringLit);
    assert_eq!(k[12], HlKind::CharLit);
    assert_eq!(k[14], HlKind::CharLit);
}

#[test]
fn number_with_one_interior_dot() {
    let mut d = rust_doc("v 1.25 1.2.3");
    d.highlight(&None, None);
    let k = kinds(&d, 0);
    for i in 2..6 {
        assert_eq!(k[i], HlKind::Number, "index {}", i);
    }
    assert_eq!(k[7], HlKind::Number);
    assert_eq!(k[8], HlKind::Number);
    assert_eq!(k[9], HlKind::Number);
    assert_eq!(k[10], HlKind::Plain);
}

#[test]
fn digits_inside_identifiers_stay_plain() {
    let mut d = rust_doc("abc123");
    d.highlight(&None, None);
    assert!(kinds(&d, 0).iter().all(|k| *k == HlKind::Plain));
}

#[test]
fn line_comment_runs_to_end() {
    let mut d = rust_doc("x // note 42");
    d.highlight(&None, None);
    let k = kinds(&d, 0);
    assert_eq!(k[0], HlKind::Plain);
    for i in 2..12 {
        assert_eq!(k[i], HlKind::Comment, "index {}", i);
    }
}

#[test]
fn keywords_need_word_boundaries() {
    let mut d = rust_doc("fn sfn usize x");
    d.highlight(&None, None);
    let k = kinds(&d, 0);
    assert_eq!(k[0], HlKind::PrimaryKeyword);
    assert_eq!(k[1], HlKind::PrimaryKeyword);
    assert_eq!(k[3], HlKind::Plain);
    assert_eq!(k[4], HlKind::Plain);
    assert_eq!(k[5], HlKind::Plain);
    for i in 7..12 {
        assert_eq!(k[i], HlKind::SecondaryKeyword, "index {}", i);
    }
    assert_eq!(k[13], HlKind::Plain);
}

#[test]
fn string_escapes_do_not_close_the_literal() {
    let mut d = rust_doc("\"a\\\"b\" x");
    d.highlight(&None, None);
    let k = kinds(&d, 0);
    for i in 0..6 {
        assert_eq!(k[i], HlKind::StringLit, "index {}", i);
    }
    assert_eq!(k[7], HlKind::Plain);
}

#[test]
fn search_word_marks_unclaimed_spans() {
    let mut d = rust_doc("mat match1 42");
    d.highlight(&Some("mat".to_string()), None);
    let k = kinds(&d, 0);
    assert_eq!(k[0], HlKind::SearchMatch);
    assert_eq!(k[1], HlKind::SearchMatch);
    assert_eq!(k[2], HlKind::SearchMatch);
    assert_eq!(k[4], HlKind::SearchMatch);
    assert_eq!(k[5], HlKind::SearchMatch);
    assert_eq!(k[6], HlKind::SearchMatch);
    assert_eq!(k[11], HlKind::Number);
    assert_eq!(k[12], HlKind::Number);
}

#[test]
fn plain_profile_highlights_nothing() {
    let mut d = Document::from_text("// not a comment 42 \"s\"", Some("notes.txt".to_string()));
    d.highlight(&None, None);
    assert!(kinds(&d, 0).iter().all(|k| *k == HlKind::Plain));
}

#[test]
fn edits_mark_following_rows_stale() {
    let mut d = rust_doc("a\nb\nc");
    d.highlight(&None, None);
    assert!(d.row(2).unwrap().is_highlighted());
    d.insert(&hecto::Position { x: 0, y: 1 }, 'z');
    assert!(!d.row(0).unwrap().is_highlighted());
    assert!(!d.row(1).unwrap().is_highlighted());
    assert!(!d.row(2).unwrap().is_highlighted());
}
