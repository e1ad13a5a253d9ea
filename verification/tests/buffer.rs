//! Buffer-level behavior: grapheme edits, splits and merges, the
//! open/save round trip, and directional search.

use hecto::Document;
use hecto::Position;
use hecto::Row;
use hecto::SearchDirection;

fn doc(text: &str) -> Document {
    Document::from_text(text, None)
}

fn line(d: &Document, y: usize) -> String {
    d.row(y).expect("row exists").contents()
}

#[test]
fn insert_grows_line() {
    let mut d = doc("abc\ndef");
    d.insert(&Position { x: 0, y: 0 }, 'X');
    assert_eq!(line(&d, 0), "Xabc");
    assert_eq!(d.len(), 2);
    assert!(d.is_dirty());
}

#[test]
fn newline_splits_line() {
    let mut d = doc("abc\ndef");
    d.insert(&Position { x: 0, y: 0 }, 'X');
    d.insert(&Position { x: 1, y: 0 }, '\n');
    assert_eq!(d.len(), 3);
    assert_eq!(line(&d, 0), "X");
    assert_eq!(line(&d, 1), "abc");
    assert_eq!(line(&d, 2), "def");
}

#[test]
fn delete_at_line_end_merges() {
    let mut d = doc("abc\ndef");
    d.insert(&Position { x: 0, y: 0 }, 'X');
    d.insert(&Position { x: 1, y: 0 }, '\n');
    let removed = d.delete(&Position { x: 1, y: 0 });
    assert_eq!(removed, 0);
    assert_eq!(d.len(), 2);
    assert_eq!(line(&d, 0), "Xabc");
    assert_eq!(line(&d, 1), "def");
}

#[test]
fn delete_inside_line_removes_one_grapheme() {
    let mut d = doc("abc");
    let removed = d.delete(&Position { x: 1, y: 0 });
    assert_eq!(removed, 1);
    assert_eq!(line(&d, 0), "ac");
    assert_eq!(d.len(), 1);
}

#[test]
fn edits_past_the_buffer_are_ignored() {
    let mut d = doc("abc");
    d.insert(&Position { x: 0, y: 5 }, 'X');
    assert_eq!(d.delete(&Position { x: 0, y: 9 }), 0);
    d.delete_line(7);
    assert_eq!(d.len(), 1);
    assert_eq!(line(&d, 0), "abc");
    assert!(!d.is_dirty());
}

#[test]
fn append_at_length_makes_a_new_line() {
    let mut d = doc("abc");
    d.insert(&Position { x: 0, y: 1 }, 'z');
    assert_eq!(d.len(), 2);
    assert_eq!(line(&d, 1), "z");
}

#[test]
fn insert_and_delete_line() {
    let mut d = doc("a\nb");
    d.insert_line(1, "between");
    assert_eq!(d.len(), 3);
    assert_eq!(line(&d, 1), "between");
    d.delete_line(0);
    assert_eq!(d.len(), 2);
    assert_eq!(line(&d, 0), "between");
}

#[test]
fn replace_substitutes_one_grapheme() {
    let mut d = doc("abc");
    d.replace(&Position { x: 1, y: 0 }, 'X');
    assert_eq!(line(&d, 0), "aXc");
}

#[test]
fn lines_changed_counts_mutations() {
    let mut d = doc("abc");
    assert_eq!(d.lines_changed(), 0);
    d.insert(&Position { x: 0, y: 0 }, 'x');
    d.delete(&Position { x: 0, y: 0 });
    assert_eq!(d.lines_changed(), 2);
}

#[test]
fn save_reproduces_opened_text() {
    let d = doc("alpha\nbeta\ngamma");
    assert_eq!(d.save_content(), "alpha\nbeta\ngamma\n");
}

#[test]
fn save_normalizes_crlf_and_final_newline() {
    assert_eq!(doc("a\r\nb").save_content(), "a\nb\n");
    assert_eq!(doc("a\nb\n").save_content(), "a\nb\n");
    assert_eq!(doc("").save_content(), "");
    assert_eq!(doc("x").save_content(), "x\n");
    assert_eq!(doc("\n\n").save_content(), "\n\n");
}

#[test]
fn lone_carriage_return_is_kept() {
    assert_eq!(doc("a\rb").save_content(), "a\rb\n");
}

#[test]
fn find_forward_and_backward_agree_on_lone_occurrence() {
    let d = doc("say hello world today");
    let fwd = d.find("world", &Position { x: 0, y: 0 }, SearchDirection::Forward);
    assert_eq!(fwd, Some(Position { x: 10, y: 0 }));
    let back = d.find("world", &Position { x: 21, y: 0 }, SearchDirection::Backward);
    assert_eq!(back, Some(Position { x: 10, y: 0 }));
}

#[test]
fn find_scans_lines_in_direction() {
    let d = doc("one\ntwo\nthree");
    let fwd = d.find("t", &Position { x: 0, y: 0 }, SearchDirection::Forward);
    assert_eq!(fwd, Some(Position { x: 0, y: 1 }));
    let next = d.find("t", &Position { x: 1, y: 1 }, SearchDirection::Forward);
    assert_eq!(next, Some(Position { x: 0, y: 2 }));
    let back = d.find("o", &Position { x: 0, y: 2 }, SearchDirection::Backward);
    assert_eq!(back, Some(Position { x: 2, y: 1 }));
    assert_eq!(d.find("zebra", &Position { x: 0, y: 0 }, SearchDirection::Forward), None);
}

#[test]
fn empty_query_finds_nothing() {
    let d = doc("anything");
    assert_eq!(d.find("", &Position { x: 0, y: 0 }, SearchDirection::Forward), None);
    assert_eq!(d.find("", &Position { x: 3, y: 0 }, SearchDirection::Backward), None);
    let r = Row::from("abc");
    assert_eq!(r.find("", 0, SearchDirection::Forward), None);
}

#[test]
fn find_does_not_wrap() {
    let d = doc("needle\nplain");
    assert_eq!(d.find("needle", &Position { x: 0, y: 1 }, SearchDirection::Forward), None);
}

#[test]
fn rows_index_by_grapheme_not_byte() {
    let r = Row::from("a\u{310}e");
    assert_eq!(r.len(), 2);
    let mut r2 = Row::from("ne\u{301}e");
    assert_eq!(r2.len(), 3);
    assert_eq!(r2.delete(1), 1);
    assert_eq!(r2.contents(), "ne");
}

#[test]
fn row_split_and_append() {
    let mut r = Row::from("abcdef");
    let rest = r.split(2);
    assert_eq!(r.contents(), "ab");
    assert_eq!(rest.contents(), "cdef");
    let other = Row::from("xy");
    r.append(&other);
    assert_eq!(r.contents(), "abxy");
}

#[test]
fn row_render_expands_tabs_to_four_column_stops() {
    let r = Row::from("a\tb");
    assert_eq!(r.render(0, 3), "a   b");
    let r2 = Row::from("\tx");
    assert_eq!(r2.render(0, 2), "    x");
    assert_eq!(r.render(1, 2), "    ");
}

#[test]
fn row_indentation_and_trim() {
    let r = Row::from("   lead");
    assert_eq!(r.indentation(), 3);
    let r2 = Row::from("  spaced out  ");
    assert_eq!(r2.trimmed_contents(), "spaced out");
    assert_eq!(Row::from("").indentation(), 0);
}

#[test]
fn row_find_directions() {
    let r = Row::from("abcabc");
    assert_eq!(r.find("bc", 0, SearchDirection::Forward), Some(1));
    assert_eq!(r.find("bc", 2, SearchDirection::Forward), Some(4));
    assert_eq!(r.find("bc", 6, SearchDirection::Backward), Some(4));
    assert_eq!(r.find("bc", 4, SearchDirection::Backward), Some(1));
    assert_eq!(r.find("zz", 0, SearchDirection::Forward), None);
}

#[test]
fn filetype_detection() {
    let rust = doc_with_name("fn main", "main.rs");
    assert_eq!(rust.file_type(), "Rust");
    let plain = doc_with_name("fn main", "notes.txt");
    assert_eq!(plain.file_type(), "No filetype");
}

fn doc_with_name(text: &str, name: &str) -> Document {
    Document::from_text(text, Some(name.to_string()))
}
