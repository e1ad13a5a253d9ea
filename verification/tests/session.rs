//! Editor state machine: modes, the command grammar, the undo/redo
//! history and prompts, driven through abstracted key events.

use hecto::editor::Action;
use hecto::editor::Key;
use hecto::editor::Mode;
use hecto::editor::MouseAction;
use hecto::Document;
use hecto::Editor;

fn session(text: &str) -> Editor {
    let mut e = Editor::new(Document::from_text(text, None), String::new());
    e.set_size(80, 24);
    e
}

fn keys(e: &mut Editor, input: &str) {
    for c in input.chars() {
        e.process_keypress(Key::Char(c));
    }
}

fn line(e: &Editor, y: usize) -> String {
    e.document().row(y).expect("row exists").contents()
}

#[test]
fn starts_in_normal_mode() {
    let e = session("hello");
    assert_eq!(e.mode(), Mode::Normal);
    assert!(!e.should_quit());
}

#[test]
fn hjkl_move_the_cursor() {
    let mut e = session("abcd\nefgh");
    keys(&mut e, "ll");
    assert_eq!(e.cursor().x, 2);
    keys(&mut e, "j");
    assert_eq!(e.cursor().y, 1);
    keys(&mut e, "h");
    assert_eq!(e.cursor().x, 1);
    keys(&mut e, "k");
    assert_eq!(e.cursor().y, 0);
}

#[test]
fn normal_mode_cursor_rests_before_line_end() {
    let mut e = session("abc");
    keys(&mut e, "llllll");
    assert_eq!(e.cursor().x, 2);
}

#[test]
fn sticky_column_survives_vertical_motion() {
    let mut e = session("abcdef\nx\nabcdef");
    keys(&mut e, "llll");
    assert_eq!(e.cursor().x, 4);
    keys(&mut e, "j");
    assert_eq!(e.cursor().x, 0);
    keys(&mut e, "j");
    assert_eq!(e.cursor().x, 4);
}

#[test]
fn insert_mode_types_text() {
    let mut e = session("world");
    keys(&mut e, "i");
    assert_eq!(e.mode(), Mode::Insert);
    keys(&mut e, "hi ");
    assert_eq!(line(&e, 0), "hi world");
    e.process_keypress(Key::Esc);
    assert_eq!(e.mode(), Mode::Normal);
}

#[test]
fn x_deletes_under_cursor() {
    let mut e = session("hello");
    keys(&mut e, "x");
    assert_eq!(line(&e, 0), "ello");
}

#[test]
fn undo_restores_content_and_cursor_then_redo_restores_edit() {
    let mut e = session("hello");
    keys(&mut e, "llx");
    assert_eq!(line(&e, 0), "helo");
    keys(&mut e, "u");
    assert_eq!(line(&e, 0), "hello");
    assert_eq!(e.cursor().x, 2);
    e.process_keypress(Key::Ctrl('r'));
    assert_eq!(line(&e, 0), "helo");
}

#[test]
fn undo_at_oldest_reports_it() {
    let mut e = session("hello");
    keys(&mut e, "u");
    assert_eq!(e.status().0, "Already at oldest change");
    assert_eq!(line(&e, 0), "hello");
}

#[test]
fn new_edit_after_undo_discards_redo_branch() {
    let mut e = session("abc");
    keys(&mut e, "x");
    assert_eq!(line(&e, 0), "bc");
    keys(&mut e, "u");
    assert_eq!(line(&e, 0), "abc");
    keys(&mut e, "lx");
    assert_eq!(line(&e, 0), "ac");
    e.process_keypress(Key::Ctrl('r'));
    assert_eq!(e.status().0, "Already at newest change");
    assert_eq!(line(&e, 0), "ac");
}

#[test]
fn insert_batch_undoes_as_one_version() {
    let mut e = session("x");
    keys(&mut e, "i");
    keys(&mut e, "abc");
    e.process_keypress(Key::Esc);
    assert_eq!(line(&e, 0), "abcx");
    keys(&mut e, "u");
    assert_eq!(line(&e, 0), "x");
}

#[test]
fn undo_report_counts_changes() {
    let mut e = session("hello");
    keys(&mut e, "xu");
    assert!(e.status().0.starts_with("1 change; before #1"), "got: {}", e.status().0);
}

#[test]
fn dd_yanks_trimmed_line_and_deletes_it() {
    let mut e = session("  first  \nsecond");
    keys(&mut e, "d");
    assert_eq!(e.document().len(), 1);
    assert_eq!(line(&e, 0), "second");
    keys(&mut e, "p");
    assert_eq!(e.document().len(), 2);
    assert_eq!(line(&e, 0), "first");
    assert_eq!(e.cursor().y, 1);
}

#[test]
fn y_yanks_without_deleting() {
    let mut e = session("keep\nnext");
    keys(&mut e, "y");
    assert_eq!(e.document().len(), 2);
    keys(&mut e, "jp");
    assert_eq!(line(&e, 1), "keep");
}

#[test]
fn replace_command_awaits_one_character() {
    let mut e = session("abc");
    keys(&mut e, "r");
    keys(&mut e, "Z");
    assert_eq!(line(&e, 0), "Zbc");
    assert_eq!(e.mode(), Mode::Normal);
}

#[test]
fn replace_mode_overtypes() {
    let mut e = session("abcd");
    keys(&mut e, "R");
    assert_eq!(e.mode(), Mode::Replace);
    keys(&mut e, "xy");
    assert_eq!(line(&e, 0), "xycd");
    assert_eq!(e.cursor().x, 2);
}

#[test]
fn replace_mode_wraps_at_the_last_column() {
    let mut e = session("ab\ncd");
    keys(&mut e, "R");
    keys(&mut e, "xy");
    assert_eq!(line(&e, 0), "xy");
    assert_eq!(e.cursor().y, 1);
    assert_eq!(e.cursor().x, 0);
}

#[test]
fn highlight_visible_stops_at_the_window() {
    let mut e = session("a\nb\nc\nd");
    e.set_size(10, 2);
    e.highlight_visible();
    assert!(e.document().row(0).unwrap().is_highlighted());
    assert!(e.document().row(1).unwrap().is_highlighted());
    assert!(!e.document().row(2).unwrap().is_highlighted());
    assert!(!e.document().row(3).unwrap().is_highlighted());
}

#[test]
fn count_prefix_repeats_a_command() {
    let mut e = session("abcdef");
    keys(&mut e, "3x");
    assert_eq!(line(&e, 0), "def");
}

#[test]
fn count_prefix_cancelled_by_r() {
    let mut e = session("abcdef");
    keys(&mut e, "3r");
    assert_eq!(line(&e, 0), "abcdef");
    keys(&mut e, "x");
    assert_eq!(line(&e, 0), "bcdef");
}

#[test]
fn g_and_shift_g_jump() {
    let mut e = session("a\nb\nc");
    keys(&mut e, "G");
    assert_eq!(e.cursor().y, 3);
    keys(&mut e, "g");
    assert_eq!(e.cursor().y, 0);
}

#[test]
fn open_line_below_enters_insert() {
    let mut e = session("top");
    keys(&mut e, "o");
    assert_eq!(e.mode(), Mode::Insert);
    assert_eq!(e.document().len(), 2);
    assert_eq!(line(&e, 1), "");
}

#[test]
fn tab_inserts_spaces_to_next_stop() {
    let mut e = session("x");
    keys(&mut e, "i\t");
    assert_eq!(line(&e, 0), "    x");
    assert_eq!(e.cursor().x, 4);
}

#[test]
fn newline_auto_indents() {
    let mut e = session("  ab");
    keys(&mut e, "lli");
    assert_eq!(e.cursor().x, 2);
    keys(&mut e, "\n");
    assert_eq!(line(&e, 0), "  ");
    assert_eq!(line(&e, 1), "ab");
    assert_eq!(e.cursor().y, 1);
    assert_eq!(e.cursor().x, 0);
}

#[test]
fn brackets_bring_their_closers() {
    let mut e = session("");
    keys(&mut e, "i(");
    assert_eq!(line(&e, 0), "()");
    assert_eq!(e.cursor().x, 1);
    keys(&mut e, "[");
    assert_eq!(line(&e, 0), "([])");
}

#[test]
fn rust_profile_suppresses_quote_doubling() {
    let mut e = Editor::new(
        Document::from_text("", Some("c.rs".to_string())),
        String::new(),
    );
    e.set_size(80, 24);
    keys(&mut e, "i'");
    assert_eq!(line(&e, 0), "'");
    keys(&mut e, "\"");
    assert_eq!(line(&e, 0), "'\"\"");
}

#[test]
fn backspace_joins_lines_in_insert_mode() {
    let mut e = session("ab\ncd");
    keys(&mut e, "ji");
    e.process_keypress(Key::Backspace);
    assert_eq!(e.document().len(), 1);
    assert_eq!(line(&e, 0), "abcd");
}

#[test]
fn colon_line_number_jumps() {
    let mut e = session("a\nb\nc\nd\ne");
    keys(&mut e, ":3\n");
    assert_eq!(e.cursor().y, 2);
    keys(&mut e, ":+2\n");
    assert_eq!(e.cursor().y, 4);
    keys(&mut e, ":-10\n");
    assert_eq!(e.cursor().y, 0);
}

#[test]
fn colon_q_quits_clean_buffer() {
    let mut e = session("text");
    keys(&mut e, ":q\n");
    assert!(e.should_quit());
}

#[test]
fn colon_q_refuses_unsaved_changes_unless_forced() {
    let mut e = session("text");
    keys(&mut e, "x");
    keys(&mut e, ":q\n");
    assert!(!e.should_quit());
    assert_eq!(e.status().0, "WARNING! File has unsaved changes: add ! to override.");
    keys(&mut e, ":q!\n");
    assert!(e.should_quit());
}

#[test]
fn colon_w_without_changes_reports_nothing_to_write() {
    let mut e = session("text");
    let acts = keys_collect(&mut e, ":w\n");
    assert!(acts.is_empty());
    assert_eq!(e.status().0, "No changes to write.");
}

#[test]
fn colon_w_with_name_asks_for_a_write() {
    let mut e = Editor::new(
        Document::from_text("text", Some("f.txt".to_string())),
        String::new(),
    );
    e.set_size(80, 24);
    keys(&mut e, "x");
    let acts = keys_collect(&mut e, ":w\n");
    assert_eq!(acts, vec![Action::WriteFile]);
    e.finish_save(Some(5));
    assert_eq!(e.status().0, "File saved successfully: 5 bytes written.");
    assert!(!e.document().is_dirty());
}

#[test]
fn save_without_name_prompts_then_writes() {
    let mut e = session("text");
    keys(&mut e, "x");
    let acts = keys_collect(&mut e, ":w\n");
    assert!(acts.is_empty());
    let acts = keys_collect(&mut e, "name.txt\n");
    assert_eq!(acts, vec![Action::WriteFile]);
    assert_eq!(e.document().file_name().clone(), Some("name.txt".to_string()));
}

#[test]
fn save_abort_reports_it() {
    let mut e = session("text");
    keys(&mut e, "x:w\n");
    e.process_keypress(Key::Esc);
    assert_eq!(e.status().0, "Save aborted.");
}

#[test]
fn colon_e_returns_an_open_action() {
    let mut e = session("text");
    let acts = keys_collect(&mut e, ":e other.txt\n");
    assert_eq!(acts, vec![Action::OpenFile("other.txt".to_string())]);
    e.finish_open("other.txt".to_string(), Some("new text"));
    assert_eq!(line(&e, 0), "new text");
    assert_eq!(e.cursor().y, 0);
}

#[test]
fn failed_open_keeps_the_buffer() {
    let mut e = session("keep");
    e.finish_open("gone.txt".to_string(), None);
    assert_eq!(line(&e, 0), "keep");
    assert_eq!(e.status().0, "ERR: Could not open file: gone.txt");
}

#[test]
fn unknown_command_is_reported() {
    let mut e = session("text");
    keys(&mut e, ":z\n");
    assert_eq!(e.status().0, "Command not found: z");
}

#[test]
fn search_jumps_and_repeats() {
    let mut e = session("one two one two");
    keys(&mut e, "/two\n");
    assert_eq!(e.cursor().x, 4);
    keys(&mut e, "n");
    assert_eq!(e.cursor().x, 12);
    keys(&mut e, "N");
    assert_eq!(e.cursor().x, 4);
}

#[test]
fn search_cancel_restores_cursor() {
    let mut e = session("alpha beta");
    keys(&mut e, "ll");
    keys(&mut e, "/beta");
    e.process_keypress(Key::Esc);
    assert_eq!(e.cursor().x, 2);
    assert_eq!(e.cursor().y, 0);
}

#[test]
fn visual_mode_delegates_one_motion() {
    let mut e = session("abc\ndef");
    keys(&mut e, "v");
    assert_eq!(e.mode(), Mode::Visual);
    keys(&mut e, "j");
    assert_eq!(e.mode(), Mode::Visual);
    assert_eq!(e.cursor().y, 1);
    e.process_keypress(Key::Esc);
    assert_eq!(e.mode(), Mode::Normal);
}

#[test]
fn wheel_scrolls_cursor() {
    let mut e = session("a\nb\nc");
    e.process_mouse_event(MouseAction::WheelDown);
    assert_eq!(e.cursor().y, 1);
    e.process_mouse_event(MouseAction::WheelUp);
    assert_eq!(e.cursor().y, 0);
}

#[test]
fn pasted_text_comes_out_in_order() {
    let mut e = session("end");
    e.paste_text("ab");
    assert_eq!(line(&e, 0), "abend");
    assert_eq!(e.cursor().x, 2);
    assert_eq!(e.mode(), Mode::Insert);
}

#[test]
fn pasted_newlines_split_lines() {
    let mut e = session("xy");
    keys(&mut e, "l");
    e.paste_text("a
b");
    assert_eq!(e.document().len(), 2);
    assert_eq!(line(&e, 0), "xa");
    assert_eq!(line(&e, 1), "by");
}

#[test]
fn command_scan_continues_past_unknown_characters() {
    let mut e = session("text");
    keys(&mut e, ":zq\n");
    assert!(e.should_quit());
    assert_eq!(e.status().0, "Command not found: z");
}

#[test]
fn write_then_quit_waits_for_the_write() {
    let mut e = Editor::new(
        Document::from_text("text", Some("f.txt".to_string())),
        String::new(),
    );
    e.set_size(80, 24);
    keys(&mut e, "x");
    let acts = keys_collect(&mut e, ":wq\n");
    assert_eq!(acts, vec![Action::WriteFile]);
    assert!(!e.should_quit());
    e.finish_save(Some(4));
    keys(&mut e, ":q\n");
    assert!(e.should_quit());
}

#[test]
fn narrow_viewport_keeps_cursor_visible() {
    let mut e = session("abcdefghij");
    e.set_size(4, 3);
    keys(&mut e, "lllllll");
    let c = e.cursor();
    let off = e.viewport_offset();
    assert!(off.x <= c.x && c.x < off.x + 4, "cursor {} offset {}", c.x, off.x);
}

#[test]
fn middle_click_requests_clipboard() {
    let mut e = session("x");
    let acts = e.process_mouse_event(MouseAction::RequestPaste);
    assert_eq!(acts, vec![Action::FetchClipboard]);
    assert_eq!(e.mode(), Mode::Insert);
}

#[test]
fn viewport_follows_cursor_down() {
    let mut e = session("a\nb\nc\nd\ne\nf\ng\nh\ni\nj\nk\nl");
    e.set_size(10, 5);
    keys(&mut e, "jjjjjjjj");
    assert!(e.viewport_offset().y > 0);
}

#[test]
fn status_bar_shows_mode_and_name() {
    let mut e = Editor::new(
        Document::from_text("a\nb", Some("file.rs".to_string())),
        String::new(),
    );
    e.set_size(80, 24);
    let bar = e.status_bar_text();
    assert!(bar.contains("NORMAL MODE"), "got: {}", bar);
    assert!(bar.contains("file.rs"), "got: {}", bar);
    assert!(bar.contains("2 lines"), "got: {}", bar);
    assert!(bar.contains("Rust"), "got: {}", bar);
    assert!(bar.contains("Top"), "got: {}", bar);
}

#[test]
fn cwd_reports() {
    let mut e = session("x");
    e.report_cwd(Some("/tmp/work".to_string()));
    assert_eq!(e.status().0, "CWD is /tmp/work");
    e.report_cwd(None);
    assert_eq!(e.status().0, "ERR: CWD does not exist");
    e.report_path_error("nowhere");
    assert_eq!(e.status().0, "ERR: Path does not exist: nowhere");
}

fn keys_collect(e: &mut Editor, input: &str) -> Vec<Action> {
    let mut acts = Vec::new();
    for c in input.chars() {
        acts.extend(e.process_keypress(Key::Char(c)));
    }
    acts
}
