//! The modal state machine at the heart of the editor: modes, cursor and
//! viewport, the key-to-command tables, prompts, the clipboard register
//! and the linear undo/redo version history.
//!
//! The editor consumes abstracted key and mouse events and plain values
//! (terminal size, clock readings, file contents) and answers with state
//! changes plus, where outside work is needed, an [`Action`] for its
//! caller to perform.

use vstd::prelude::*;

verus! {

/// Which way a search walks the buffer.
#[derive(PartialEq, Eq, Copy, Clone, Structural, Debug)]
pub enum SearchDirection {
    Forward,
    Backward,
}

/// A position in the buffer: `x` is a grapheme offset, `y` a line index.
#[derive(Default, Copy, Clone, PartialEq, Eq, Structural, Debug)]
pub struct Position {
    pub x: usize,
    pub y: usize,
}

/// The terminal's text area, in cells.
#[derive(Copy, Clone, PartialEq, Eq, Structural, Debug)]
pub struct Size {
    pub width: u16,
    pub height: u16,
}

/// The editor's modes.
#[derive(PartialEq, Eq, Copy, Clone, Structural, Debug)]
pub enum Mode {
    Insert,
    Normal,
    Replace,
    Visual,
}

/// The cursor: a buffer position plus the sticky column that vertical
/// motion aims for.
#[derive(Default, Copy, Clone, PartialEq, Eq, Structural, Debug)]
pub struct CursorPosition {
    pub x: usize,
    pub y: usize,
    pub max_x: usize,
}

/// An abstracted key event, as the editor consumes it.
#[derive(Copy, Clone, PartialEq, Eq, Structural, Debug)]
pub enum Key {
    Char(char),
    Ctrl(char),
    Up,
    Down,
    Left,
    Right,
    PageUp,
    PageDown,
    Home,
    End,
    Backspace,
    Delete,
    Esc,
}

/// An abstracted mouse event.
#[derive(Copy, Clone, PartialEq, Eq, Structural, Debug)]
pub enum MouseAction {
    /// A left press at one-based screen cell `(x, y)`.
    PressLeft(u16, u16),
    /// A right or middle press: paste from the system clipboard.
    RequestPaste,
    WheelUp,
    WheelDown,
}

/// Outside work the editor asks its caller to perform after a step.
#[derive(PartialEq, Eq, Debug)]
pub enum Action {
    /// Write the buffer to its file, then report back through
    /// [`Editor::finish_save`].
    WriteFile,
    /// Read the named file, then report back through
    /// [`Editor::finish_open`].
    OpenFile(String),
    /// Change the working directory, then report back through
    /// [`Editor::report_cwd`].
    ChangeDir(String),
    /// Look up the working directory, then report back through
    /// [`Editor::report_cwd`].
    ShowCwd,
    /// Read the system clipboard, then hand its text to
    /// [`Editor::paste_text`].
    FetchClipboard,
}

/// A transient status-line message and when it was set.
pub struct StatusMessage {
    pub time: i64,
    pub text: String,
}

/// Relies on `chrono`'s `Local::now`: the current local time, as
/// seconds since the epoch.
#[verifier::external_body]
pub(crate) fn now_seconds() -> i64 {
    chrono::offset::Local::now().timestamp()
}

/// Relies on `chrono`'s timestamp formatting: the clock time of the
/// given second in the local time zone, as `hours:minutes:seconds`. The
/// result depends on the machine's time zone, so nothing more is
/// promised of it.
#[verifier::external_body]
fn format_clock_time(secs: i64) -> String {
    match chrono::DateTime::from_timestamp(secs, 0) {
        Option::Some(t) => t.with_timezone(&chrono::Local).format("%H:%M:%S").to_string(),
        Option::None => String::new(),
    }
}

impl StatusMessage {
    /// A message stamped with the current clock reading.
    pub fn from(message: String) -> (r: StatusMessage)
        ensures
            r.text == message,
    {
        StatusMessage { time: now_seconds(), text: message }
    }
}

/// One undo/redo snapshot: the whole buffer, the cursor it belongs to,
/// and when it was committed.
pub struct Version {
    pub document: crate::document::Document,
    pub position: CursorPosition,
    pub timestamp: i64,
}

/// What a count prefix in normal mode has accumulated so far.
#[derive(Copy, Clone, PartialEq, Eq, Structural, Debug)]
pub struct CountState {
    /// The value accumulated from the digits typed so far.
    pub value: u64,
    /// Whether the digits overflowed the repeat limit; an overflowed
    /// count executes nothing.
    pub overflowed: bool,
}

/// Which prompt is reading keys.
#[derive(Copy, Clone, PartialEq, Eq, Structural, Debug)]
pub enum PromptKind {
    SaveAs,
    Search,
    Command,
}

/// An in-progress prompt at the bottom of the screen.
pub struct PromptState {
    pub kind: PromptKind,
    /// The characters typed so far.
    pub text: Vec<char>,
    /// The cursor to restore when a search is cancelled.
    pub return_to: CursorPosition,
    /// The direction the search last moved.
    pub direction: SearchDirection,
}

/// The largest count prefix a normal-mode command repeats.
pub const MAX_REPEAT: u64 = 0x7fffffff;

/// The modal editor: buffer, cursor, viewport, clipboard register,
/// version history and prompt state.
pub struct Editor {
    pub(crate) should_quit: bool,
    pub(crate) size: Size,
    pub(crate) cursor_position: CursorPosition,
    pub(crate) selection_start: Position,
    pub(crate) offset: Position,
    pub(crate) document: crate::document::Document,
    pub(crate) status_message: StatusMessage,
    pub(crate) highlighted_word: Option<String>,
    pub(crate) clipboard: Option<String>,
    pub(crate) mode: Mode,
    pub(crate) versions: Vec<Version>,
    pub(crate) version_index: usize,
    pub(crate) has_saved: bool,
    pub(crate) query: Option<String>,
    pub(crate) pending_count: Option<CountState>,
    pub(crate) pending_replace: bool,
    pub(crate) prompt: Option<PromptState>,
}

/// The grapheme width a cursor may rest inside on row `y`: the row's
/// length, less one in normal and replace mode, and zero beyond the
/// buffer.
pub open spec fn spec_row_width(lens: Seq<int>, y: int, mode: Mode) -> int {
    let w = if 0 <= y < lens.len() {
        lens[y]
    } else {
        0
    };
    if (mode == Mode::Normal || mode == Mode::Replace) && w > 0 {
        w - 1
    } else {
        w
    }
}

/// Where a cursor comes to rest after one motion key: vertical motion
/// keeps the sticky column, horizontal motion retargets it, and the
/// result is clamped to the destination row's width for the mode.
pub open spec fn spec_move_cursor(
    c: CursorPosition,
    mode: Mode,
    lens: Seq<int>,
    height: int,
    key: Key,
) -> CursorPosition {
    let doclen = lens.len() as int;
    let width = spec_row_width(lens, c.y as int, mode);
    let stepped = match key {
        Key::Up => CursorPosition {
            y: if c.y > 0 {
                (c.y - 1) as usize
            } else {
                0
            },
            ..c
        },
        Key::Down => CursorPosition {
            y: if (c.y as int) < doclen {
                (c.y + 1) as usize
            } else {
                c.y
            },
            ..c
        },
        Key::Left => {
            if c.x > 0 {
                CursorPosition { x: (c.x - 1) as usize, y: c.y, max_x: (c.x - 1) as usize }
            } else if mode != Mode::Normal && c.y > 0 {
                let nx = spec_row_width(lens, c.y - 1, Mode::Insert);
                CursorPosition { x: nx as usize, y: (c.y - 1) as usize, max_x: nx as usize }
            } else {
                CursorPosition { x: c.x, y: c.y, max_x: c.x }
            }
        },
        Key::Right => {
            if (c.x as int) < width {
                CursorPosition { x: (c.x + 1) as usize, y: c.y, max_x: (c.x + 1) as usize }
            } else if mode != Mode::Normal && (c.y as int) < doclen {
                CursorPosition { x: 0, y: (c.y + 1) as usize, max_x: 0 }
            } else {
                CursorPosition { x: c.x, y: c.y, max_x: c.x }
            }
        },
        Key::PageUp => CursorPosition {
            y: if c.y as int > height {
                (c.y as int - height) as usize
            } else {
                0
            },
            ..c
        },
        Key::PageDown => CursorPosition {
            y: if c.y as int + height < doclen {
                (c.y as int + height) as usize
            } else {
                doclen as usize
            },
            ..c
        },
        Key::Home => CursorPosition { x: 0, y: c.y, max_x: 0 },
        Key::End => CursorPosition { x: width as usize, y: c.y, max_x: width as usize },
        _ => c,
    };
    let width2 = spec_row_width(lens, stepped.y as int, mode);
    let fx = if stepped.max_x as int > width2 {
        width2 as usize
    } else {
        stepped.max_x
    };
    CursorPosition { x: fx, y: stepped.y, max_x: stepped.max_x }
}

/// Where a cursor lands after being clamped to the buffer: the row
/// index is clamped to the line count, the column to the row's last
/// character, and the sticky column follows the clamped column.
pub open spec fn spec_readjust(c: CursorPosition, lens: Seq<int>) -> CursorPosition {
    let doclen = lens.len() as int;
    let y = if c.y as int > doclen {
        doclen as usize
    } else {
        c.y
    };
    let x = if 0 <= (y as int) < lens.len() {
        let limit = if lens[y as int] > 0 {
            lens[y as int] - 1
        } else {
            0
        };
        if c.x as int > limit {
            limit as usize
        } else {
            c.x
        }
    } else {
        0
    };
    CursorPosition { x, y, max_x: x }
}

/// Saturating subtraction on viewport arithmetic.
pub open spec fn spec_sat_sub(a: int, b: int) -> int {
    if a > b {
        a - b
    } else {
        0
    }
}

/// Saturating addition on viewport arithmetic.
pub open spec fn spec_sat_add(a: int, b: int) -> int {
    if a + b > usize::MAX {
        usize::MAX as int
    } else {
        a + b
    }
}

/// One axis of the viewport rule: the offset moves by the least amount
/// that brings the cursor back inside the margin at either edge; a jump
/// past the far edge rebounds by `bump` extra cells.
pub open spec fn spec_scroll_axis(pos: int, off: int, extent: int, margin: int, bump: int) -> int {
    let screen = spec_sat_sub(pos, off);
    if pos < off {
        spec_sat_sub(pos, margin)
    } else if screen < margin {
        spec_sat_sub(off, margin - screen)
    } else if pos >= spec_sat_add(off, extent) {
        spec_sat_add(spec_sat_sub(pos, extent), bump)
    } else if screen >= extent - margin {
        spec_sat_add(off, screen - (extent - margin))
    } else {
        off
    }
}

/// One scrolled axis always brings the position back inside the
/// visible extent.
pub proof fn lemma_scroll_axis_visible(pos: int, off: int, extent: int, margin: int, bump: int)
    requires
        1 <= extent <= usize::MAX,
        0 <= margin < extent,
        bump == margin + 1,
        0 <= pos <= usize::MAX,
        0 <= off <= usize::MAX,
    ensures
        spec_scroll_axis(pos, off, extent, margin, bump) <= pos,
        pos < spec_scroll_axis(pos, off, extent, margin, bump) + extent,
{
    let screen = spec_sat_sub(pos, off);
    if pos < off {
    } else if screen < margin {
    } else if pos >= spec_sat_add(off, extent) {
        assert(pos >= extent);
    } else if screen >= extent - margin {
        assert(margin > 0) by {
            if margin == 0 {
                assert(pos - off >= extent);
                assert(off + extent <= pos <= usize::MAX);
                assert(pos >= spec_sat_add(off, extent));
            }
        }
    } else {
    }
}

/// After a scroll, the cursor lies inside the visible rectangle: the
/// viewport rule never leaves it off screen.
pub proof fn lemma_scroll_keeps_cursor_visible(cursor: CursorPosition, off: Position, size: Size)
    requires
        size.width >= 1,
        size.height >= 1,
    ensures
        spec_scroll(cursor, off, size).x <= cursor.x,
        (cursor.x as int) < spec_scroll(cursor, off, size).x + size.width,
        spec_scroll(cursor, off, size).y <= cursor.y,
        (cursor.y as int) < spec_scroll(cursor, off, size).y + size.height,
{
    let width = size.width as int;
    let height = size.height as int;
    lemma_scroll_axis_visible(cursor.x as int, off.x as int, width, width / 8, width / 8 + 1);
    lemma_scroll_axis_visible(cursor.y as int, off.y as int, height, height / 5, height / 5 + 1);
}

/// The viewport offset after a cursor move: each axis keeps the cursor
/// within its edge margin — an eighth of the width, a fifth of the
/// height.
pub open spec fn spec_scroll(cursor: CursorPosition, off: Position, size: Size) -> Position {
    let width = size.width as int;
    let height = size.height as int;
    Position {
        x: spec_scroll_axis(
            cursor.x as int,
            off.x as int,
            width,
            width / 8,
            width / 8 + 1,
        ) as usize,
        y: spec_scroll_axis(
            cursor.y as int,
            off.y as int,
            height,
            height / 5,
            height / 5 + 1,
        ) as usize,
    }
}

impl Editor {
    /// The cursor, in specifications.
    pub closed spec fn spec_cursor(&self) -> CursorPosition {
        self.cursor_position
    }

    /// The buffer, in specifications.
    pub closed spec fn spec_doc(&self) -> crate::document::Document {
        self.document
    }

    /// The mode, in specifications.
    pub closed spec fn spec_mode(&self) -> Mode {
        self.mode
    }

    /// The viewport offset, in specifications.
    pub closed spec fn spec_offset(&self) -> Position {
        self.offset
    }

    /// The terminal size, in specifications.
    pub closed spec fn spec_size(&self) -> Size {
        self.size
    }

    /// The version history, in specifications.
    pub closed spec fn spec_versions(&self) -> Seq<Version> {
        self.versions@
    }

    /// The cursor into the version history, in specifications.
    pub closed spec fn spec_version_index(&self) -> int {
        self.version_index as int
    }

    /// Whether a save already wrote the current state, in
    /// specifications.
    pub closed spec fn spec_has_saved(&self) -> bool {
        self.has_saved
    }

    /// Whether the editor was asked to quit, in specifications.
    pub closed spec fn spec_should_quit(&self) -> bool {
        self.should_quit
    }

    /// The clipboard register, in specifications.
    pub closed spec fn spec_clipboard(&self) -> Option<String> {
        self.clipboard
    }

    /// The last search query, in specifications.
    pub closed spec fn spec_query(&self) -> Option<String> {
        self.query
    }

    /// The status message's text, in specifications.
    pub closed spec fn spec_status_text(&self) -> Seq<char> {
        self.status_message.text@
    }

    /// The pending count prefix, in specifications.
    pub closed spec fn spec_pending_count(&self) -> Option<CountState> {
        self.pending_count
    }

    /// Whether a replace command awaits its character, in
    /// specifications.
    pub closed spec fn spec_pending_replace(&self) -> bool {
        self.pending_replace
    }

    /// Whether a prompt is reading keys, in specifications.
    pub closed spec fn spec_prompt_active(&self) -> bool {
        self.prompt is Some
    }

    /// The selection anchor, in specifications.
    pub closed spec fn spec_selection(&self) -> Position {
        self.selection_start
    }

    /// The prompt state, in specifications.
    pub closed spec fn spec_prompt(&self) -> Option<PromptState> {
        self.prompt
    }

    /// The word currently emphasized by the highlighter, in
    /// specifications.
    pub closed spec fn spec_highlighted_word(&self) -> Option<String> {
        self.highlighted_word
    }

    /// The editor with another cursor, all else equal.
    pub closed spec fn with_cursor(self, c: CursorPosition) -> Editor {
        Editor { cursor_position: c, ..self }
    }

    /// The editor with another viewport offset, all else equal.
    pub closed spec fn with_offset(self, o: Position) -> Editor {
        Editor { offset: o, ..self }
    }

    /// A well-formed editor always has at least one version, and its
    /// version cursor points at one of them.
    pub open spec fn wf(&self) -> bool {
        &&& self.spec_versions().len() >= 1
        &&& 0 <= self.spec_version_index() < self.spec_versions().len()
        &&& self.spec_doc().wf()
        &&& forall|i: int|
            0 <= i < self.spec_versions().len() ==> (#[trigger] self.spec_versions()[i]).document.wf()
        &&& match self.spec_query() {
            Option::Some(q) => q@.len() >= 1,
            Option::None => true,
        }
    }

    /// A fresh editor over the given buffer, in normal mode, with one
    /// version holding that buffer.
    pub fn new(document: crate::document::Document, initial_status: String) -> (e: Editor)
        requires
            document.wf(),
        ensures
            e.wf(),
            e.spec_doc() == document,
            e.spec_mode() == Mode::Normal,
            e.spec_cursor() == (CursorPosition { x: 0, y: 0, max_x: 0 }),
            e.spec_versions().len() == 1,
            e.spec_versions()[0].document.content() == document.content(),
            e.spec_version_index() == 0,
            !e.spec_should_quit(),
            e.spec_status_text() == initial_status@,
    {
        let snapshot = document.clone();
        let mut versions: Vec<Version> = Vec::new();
        versions.push(
            Version {
                document: snapshot,
                position: CursorPosition { x: 0, y: 0, max_x: 0 },
                timestamp: now_seconds(),
            },
        );
        Editor {
            should_quit: false,
            size: Size { width: 80, height: 24 },
            cursor_position: CursorPosition { x: 0, y: 0, max_x: 0 },
            selection_start: Position { x: 0, y: 0 },
            offset: Position { x: 0, y: 0 },
            document,
            status_message: StatusMessage::from(initial_status),
            highlighted_word: Option::None,
            clipboard: Option::None,
            mode: Mode::Normal,
            versions,
            version_index: 0,
            has_saved: false,
            query: Option::None,
            pending_count: Option::None,
            pending_replace: false,
            prompt: Option::None,
        }
    }

    /// Tell the editor the terminal's current text area.
    pub fn set_size(&mut self, width: u16, height: u16)
        ensures
            final(self).spec_size() == (Size { width, height }),
            *final(self) == old(self).spec_with_size(Size { width, height }),
    {
        self.size = Size { width, height };
    }

    /// The editor with another terminal size, all else equal.
    pub closed spec fn spec_with_size(self, s: Size) -> Editor {
        Editor { size: s, ..self }
    }

    /// Whether the editor was asked to quit.
    pub fn should_quit(&self) -> (r: bool)
        ensures
            r == self.spec_should_quit(),
    {
        self.should_quit
    }

    /// The buffer, for rendering and saving.
    pub fn document(&self) -> (r: &crate::document::Document)
        ensures
            *r == self.spec_doc(),
    {
        &self.document
    }

    /// The cursor position.
    pub fn cursor(&self) -> (r: CursorPosition)
        ensures
            r == self.spec_cursor(),
    {
        self.cursor_position
    }

    /// The viewport offset.
    pub fn viewport_offset(&self) -> (r: Position)
        ensures
            r == self.spec_offset(),
    {
        self.offset
    }

    /// The terminal's text area as last reported.
    pub fn size(&self) -> (r: Size)
        ensures
            r == self.spec_size(),
    {
        self.size
    }

    /// The current mode.
    pub fn mode(&self) -> (r: Mode)
        ensures
            r == self.spec_mode(),
    {
        self.mode
    }

    /// The status message's text and the clock second it was set.
    pub fn status(&self) -> (r: (&String, i64))
        ensures
            r.0@ == self.spec_status_text(),
    {
        (&self.status_message.text, self.status_message.time)
    }

    /// The prompt's text, when one is reading keys: what the status
    /// line shows after the prompt's label.
    pub fn prompt_text(&self) -> (r: Option<String>)
        ensures
            (r is Some) == self.spec_prompt_active(),
    {
        match &self.prompt {
            Option::Some(p) => Option::Some(crate::text::chars_to_string(&p.text)),
            Option::None => Option::None,
        }
    }

    /// Re-highlight the rows that are visible in the current viewport,
    /// carrying the comment state up from row 0.
    pub fn highlight_visible(&mut self)
        ensures
            final(self).spec_doc().content() == old(self).spec_doc().content(),
            final(self).spec_versions() == old(self).spec_versions(),
            final(self).spec_version_index() == old(self).spec_version_index(),
            final(self).spec_cursor() == old(self).spec_cursor(),
            ({
                let opts = old(self).spec_doc().spec_file_type().spec_options();
                let lines = old(self).spec_doc().lines();
                let wv = crate::highlighting::word_view(old(self).spec_highlighted_word());
                let bound = crate::document::highlight_bound(
                    Option::Some(
                        (spec_sat_add(
                            old(self).spec_offset().y as int,
                            old(self).spec_size().height as int,
                        )) as usize,
                    ),
                    old(self).spec_doc().spec_rows().len() as int,
                );
                &&& (forall|i: int|
                    0 <= i < bound ==> (#[trigger] final(self).spec_doc().spec_rows()[i]).hl()
                        == crate::highlighting::line_highlight(
                        lines[i],
                        opts,
                        wv,
                        crate::document::carry_states(lines, opts, i),
                    ) && final(self).spec_doc().spec_rows()[i].spec_highlighted())
                &&& (forall|i: int|
                    bound <= i < old(self).spec_doc().spec_rows().len() ==> final(self).spec_doc().spec_rows()[i] == old(self).spec_doc().spec_rows()[i])
            }),
            old(self).wf() ==> final(self).wf(),
    {
        let until = self.offset.y.saturating_add(self.size.height as usize);
        let word = match &self.highlighted_word {
            Option::Some(w) => Option::Some(w.clone()),
            Option::None => Option::None,
        };
        self.document.highlight(&word, Option::Some(until));
        proof {
            assert(crate::highlighting::word_view(word)
                == crate::highlighting::word_view(old(self).spec_highlighted_word()));
        }
    }

    /// Clamp the cursor to the buffer after a structural change.
    fn readjust_cursor(&mut self)
        ensures
            *final(self) == old(self).with_cursor(
                spec_readjust(old(self).spec_cursor(), old(self).spec_doc().line_lens()),
            ),
    {
        let doc_len = self.document.len();
        let mut y = self.cursor_position.y;
        let mut x = self.cursor_position.x;
        if y > doc_len {
            y = doc_len;
        }
        x = match self.document.row(y) {
            Option::Some(row) => {
                let row_len = row.len();
                let limit = if row_len > 0 {
                    row_len - 1
                } else {
                    0
                };
                proof {
                    assert(self.spec_doc().line_lens()[y as int] == self.spec_doc().content()[
                        y as int].len());
                }
                if x > limit {
                    limit
                } else {
                    x
                }
            },
            Option::None => 0,
        };
        self.cursor_position = CursorPosition { x, y, max_x: x };
    }

    /// Move the cursor by one motion key, with the sticky-column rule
    /// and the mode's clamping rule.
    pub fn move_cursor(&mut self, key: Key)
        ensures
            *final(self) == old(self).with_cursor(
                spec_move_cursor(
                    old(self).spec_cursor(),
                    old(self).spec_mode(),
                    old(self).spec_doc().line_lens(),
                    old(self).spec_size().height as int,
                    key,
                ),
            ),
    {
        let terminal_height = self.size.height as usize;
        let doclen = self.document.len();
        let c = self.cursor_position;
        let mut x = c.x;
        let mut y = c.y;
        let mut max_x = c.max_x;
        let width = self.mode_width(c.y);
        match key {
            Key::Up => {
                if y > 0 {
                    y = y - 1;
                }
            },
            Key::Down => {
                if y < doclen {
                    y = y + 1;
                }
            },
            Key::Left => {
                if x > 0 {
                    x = x - 1;
                } else if self.mode != Mode::Normal && y > 0 {
                    y = y - 1;
                    x = match self.document.row(y) {
                        Option::Some(row) => row.len(),
                        Option::None => 0,
                    };
                    proof {
                        let lens = self.spec_doc().line_lens();
                        if (y as int) < lens.len() {
                            assert(lens[y as int] == self.spec_doc().content()[y as int].len());
                        }
                        assert(x as int == spec_row_width(lens, y as int, Mode::Insert));
                    }
                }
                max_x = x;
            },
            Key::Right => {
                if x < width {
                    x = x + 1;
                } else if self.mode != Mode::Normal && y < doclen {
                    y = y + 1;
                    x = 0;
                }
                max_x = x;
            },
            Key::PageUp => {
                y = if y > terminal_height {
                    y - terminal_height
                } else {
                    0
                };
            },
            Key::PageDown => {
                y = if terminal_height <= usize::MAX - y && y + terminal_height < doclen {
                    y + terminal_height
                } else {
                    doclen
                };
            },
            Key::Home => {
                x = 0;
                max_x = 0;
            },
            Key::End => {
                x = width;
                max_x = x;
            },
            _ => {},
        }
        let width2 = self.mode_width(y);
        x = max_x;
        if x > width2 {
            x = width2;
        }
        self.cursor_position = CursorPosition { x, y, max_x };
    }

    /// The widest column the cursor may rest in on row `y`, for the
    /// current mode.
    fn mode_width(&self, y: usize) -> (w: usize)
        ensures
            w as int == spec_row_width(self.spec_doc().line_lens(), y as int, self.spec_mode()),
    {
        let mut width = match self.document.row(y) {
            Option::Some(row) => row.len(),
            Option::None => 0,
        };
        proof {
            if (y as int) < self.spec_doc().line_lens().len() {
                assert(self.spec_doc().line_lens()[y as int] == self.spec_doc().content()[
                    y as int].len());
            }
        }
        if (matches!(self.mode, Mode::Normal) || matches!(self.mode, Mode::Replace)) && width > 0 {
            width = width - 1;
        }
        width
    }

    /// Keep the cursor inside the viewport's edge margins, moving the
    /// offset by the least amount that restores them.
    pub fn scroll(&mut self)
        ensures
            *final(self) == old(self).with_offset(
                spec_scroll(old(self).spec_cursor(), old(self).spec_offset(), old(self).spec_size()),
            ),
    {
        let x = self.cursor_position.x;
        let y = self.cursor_position.y;
        let width = self.size.width as usize;
        let height = self.size.height as usize;
        let width_edge = width / 8;
        let height_edge = height / 5;
        let mut off_x = self.offset.x;
        let mut off_y = self.offset.y;
        let screen_x = x.saturating_sub(off_x);
        let screen_y = y.saturating_sub(off_y);
        if y < off_y {
            off_y = y.saturating_sub(height_edge);
        } else if screen_y < height_edge {
            off_y = off_y.saturating_sub(height_edge - screen_y);
        } else if y >= off_y.saturating_add(height) {
            off_y = y.saturating_sub(height).saturating_add(height_edge + 1);
        } else if screen_y >= height - height_edge {
            off_y = off_y.saturating_add(screen_y - (height - height_edge));
        }
        if x < off_x {
            off_x = x.saturating_sub(width_edge);
        } else if screen_x < width_edge {
            off_x = off_x.saturating_sub(width_edge - screen_x);
        } else if x >= off_x.saturating_add(width) {
            off_x = x.saturating_sub(width).saturating_add(width_edge + 1);
        } else if screen_x >= width - width_edge {
            off_x = off_x.saturating_add(screen_x - (width - width_edge));
        }
        self.offset = Position { x: off_x, y: off_y };
    }
}

impl Version {
    /// Move the stored cursor checkpoint and its clock stamp.
    pub(crate) fn set_checkpoint(&mut self, p: CursorPosition, t: i64)
        ensures
            final(self).document == old(self).document,
            final(self).position == p,
            final(self).timestamp == t,
    {
        self.position = p;
        self.timestamp = t;
    }
}

/// The "n seconds/minutes ago" part of an undo/redo report, or the
/// clock time for anything ten minutes old or older.
pub open spec fn time_part_spec(diff: int, clock: Seq<char>) -> Seq<char> {
    if diff < 60 {
        crate::text::spec_decimal(diff as nat) + (if diff == 1 {
            " second ago"@
        } else {
            " seconds ago"@
        })
    } else if diff / 60 < 10 {
        crate::text::spec_decimal((diff / 60) as nat) + (if diff / 60 == 1 {
            " minute ago"@
        } else {
            " minutes ago"@
        })
    } else {
        clock
    }
}

/// The delta part of an undo/redo report: lines added or removed, or
/// the mutation count when the line count is unchanged.
pub open spec fn change_part_spec(
    old_len: int,
    new_len: int,
    old_changes: int,
    new_changes: int,
    redo: bool,
) -> Seq<char> {
    let added = new_len - old_len;
    if added == -1 {
        crate::text::spec_decimal(1) + " line less"@
    } else if added != 0 {
        let abs = if added >= 0 {
            added
        } else {
            -added
        };
        crate::text::spec_decimal(abs as nat) + (if added > 0 || redo {
            " more"@
        } else {
            " fewer"@
        }) + (if abs == 1 {
            " line"@
        } else {
            " lines"@
        })
    } else {
        let ch = if new_changes >= old_changes {
            new_changes - old_changes
        } else {
            old_changes - new_changes
        };
        crate::text::spec_decimal(ch as nat) + (if ch == 1 {
            " change"@
        } else {
            " changes"@
        })
    }
}

/// The whole undo/redo report.
pub open spec fn version_msg_spec(
    old_len: int,
    new_len: int,
    old_changes: int,
    new_changes: int,
    index: int,
    diff: int,
    clock: Seq<char>,
    redo: bool,
) -> Seq<char> {
    change_part_spec(old_len, new_len, old_changes, new_changes, redo) + "; before #"@
        + crate::text::spec_decimal(index as nat) + "  "@ + time_part_spec(diff, clock)
}

/// The untouched auxiliary state across an undo or a redo.
pub open spec fn aux_frame_but_offset(pre: Editor, post: Editor) -> bool {
    &&& post.spec_size() == pre.spec_size()
    &&& post.spec_offset() == pre.spec_offset()
    &&& post.spec_selection() == pre.spec_selection()
    &&& post.spec_query() == pre.spec_query()
    &&& post.spec_pending_count() == pre.spec_pending_count()
    &&& post.spec_pending_replace() == pre.spec_pending_replace()
    &&& post.spec_prompt() == pre.spec_prompt()
    &&& post.spec_highlighted_word() == pre.spec_highlighted_word()
}

/// What `undo` does when a previous version exists: the version cursor
/// steps back one, that snapshot's content and file identity replace
/// the buffer without counting as unsaved changes, and the cursor is
/// restored to the snapshot's clamped position.
pub open spec fn undo_rel(pre: Editor, post: Editor) -> bool {
    let idx = pre.spec_version_index();
    let target = pre.spec_versions()[idx - 1];
    &&& aux_frame_but_offset(pre, post)
    &&& post.spec_version_index() == idx - 1
    &&& post.spec_versions() == pre.spec_versions()
    &&& post.spec_doc().content() == target.document.content()
    &&& !post.spec_doc().spec_dirty()
    &&& post.spec_doc().spec_file_name() == target.document.spec_file_name()
    &&& post.spec_cursor() == spec_readjust(target.position, post.spec_doc().line_lens())
    &&& post.spec_mode() == pre.spec_mode()
    &&& post.spec_clipboard() == pre.spec_clipboard()
    &&& post.spec_has_saved() == pre.spec_has_saved()
    &&& post.spec_should_quit() == pre.spec_should_quit()
}

/// What `redo` does when a later version exists: the mirror image of
/// [`undo_rel`], stepping the version cursor forward and restoring the
/// cursor checkpoint of the version being left.
pub open spec fn redo_rel(pre: Editor, post: Editor) -> bool {
    let idx = pre.spec_version_index();
    &&& aux_frame_but_offset(pre, post)
    &&& post.spec_version_index() == idx + 1
    &&& post.spec_versions() == pre.spec_versions()
    &&& post.spec_doc().content() == pre.spec_versions()[idx + 1].document.content()
    &&& !post.spec_doc().spec_dirty()
    &&& post.spec_cursor() == spec_readjust(
        pre.spec_versions()[idx].position,
        post.spec_doc().line_lens(),
    )
    &&& post.spec_mode() == pre.spec_mode()
    &&& post.spec_clipboard() == pre.spec_clipboard()
    &&& post.spec_has_saved() == pre.spec_has_saved()
    &&& post.spec_should_quit() == pre.spec_should_quit()
}

/// What committing a version does: every version after the current one
/// is discarded — the redo branch is linear, not a tree — and a
/// snapshot of the buffer is appended and becomes current, carrying the
/// checkpointed cursor of the version it grew out of.
pub open spec fn commit_rel(pre: Editor, post: Editor) -> bool {
    let idx = pre.spec_version_index();
    &&& post.spec_versions().len() == idx + 2
    &&& post.spec_versions() == pre.spec_versions().take(idx + 1).push(
        post.spec_versions().last(),
    )
    &&& post.spec_versions().last().document.content() == pre.spec_doc().content()
    &&& !post.spec_versions().last().document.spec_dirty()
    &&& post.spec_versions().last().position == pre.spec_versions()[idx].position
    &&& post.spec_version_index() == idx + 1
    &&& !post.spec_has_saved()
    &&& post.spec_doc().content() == pre.spec_doc().content()
    &&& !post.spec_doc().spec_dirty()
    &&& post.spec_cursor() == pre.spec_cursor()
    &&& post.spec_mode() == pre.spec_mode()
    &&& post.spec_clipboard() == pre.spec_clipboard()
}

impl Editor {
    /// The status message, in specifications.
    pub closed spec fn spec_status(&self) -> StatusMessage {
        self.status_message
    }

    /// The editor with another status message, all else equal.
    pub closed spec fn spec_with_status(self, st: StatusMessage) -> Editor {
        Editor { status_message: st, ..self }
    }

    /// Show a message in the status line.
    fn set_status(&mut self, text: String)
        ensures
            *final(self) == old(self).spec_with_status(final(self).spec_status()),
            final(self).spec_status_text() == text@,
    {
        self.status_message = StatusMessage::from(text);
    }

    /// Whether the buffer differs from what the file last held: at
    /// least one version was committed, the history cursor is not at
    /// the origin, and no save has written the current state.
    pub fn contains_changes(&self) -> (r: bool)
        ensures
            r == (self.spec_versions().len() != 1 && self.spec_version_index() != 0
                && !self.spec_has_saved()),
    {
        self.versions.len() != 1 && self.version_index != 0 && !self.has_saved
    }

    /// Checkpoint the cursor (and the clock) into the current version
    /// before an edit, so that undo can restore where the edit began.
    fn save_prev_cursor_position(&mut self)
        requires
            old(self).wf(),
        ensures
            final(self).wf(),
            final(self).spec_versions().len() == old(self).spec_versions().len(),
            forall|j: int|
                0 <= j < old(self).spec_versions().len() && j != old(self).spec_version_index()
                    ==> final(self).spec_versions()[j] == old(self).spec_versions()[j],
            final(self).spec_versions()[old(self).spec_version_index()].document == old(self).spec_versions()[old(self).spec_version_index()].document,
            final(self).spec_versions()[old(self).spec_version_index()].position == old(self).spec_cursor(),
            final(self).spec_version_index() == old(self).spec_version_index(),
            final(self).spec_doc() == old(self).spec_doc(),
            final(self).spec_cursor() == old(self).spec_cursor(),
            final(self).spec_mode() == old(self).spec_mode(),
            final(self).spec_clipboard() == old(self).spec_clipboard(),
            final(self).spec_has_saved() == old(self).spec_has_saved(),
            final(self).spec_should_quit() == old(self).spec_should_quit(),
            final(self).spec_status() == old(self).spec_status(),
            aux_frame(*old(self), *final(self)),
            final(self).spec_highlighted_word() == old(self).spec_highlighted_word(),
    {
        let now = now_seconds();
        let pos = self.cursor_position;
        let i = self.version_index;
        self.versions[i].set_checkpoint(pos, now);
    }

    /// Commit the buffer as a new version: discard any redo branch,
    /// append a snapshot, and make it current.
    fn add_version(&mut self)
        requires
            old(self).wf(),
        ensures
            final(self).wf(),
            commit_rel(*old(self), *final(self)),
            final(self).spec_status() == old(self).spec_status(),
            final(self).spec_should_quit() == old(self).spec_should_quit(),
            final(self).spec_query() == old(self).spec_query(),
            final(self).spec_doc().spec_file_name() == old(self).spec_doc().spec_file_name(),
            final(self).spec_doc().spec_lines_changed() == old(self).spec_doc().spec_lines_changed(),
            final(self).spec_doc().spec_file_type() == old(self).spec_doc().spec_file_type(),
            aux_frame(*old(self), *final(self)),
    {
        if self.version_index != self.versions.len() - 1 {
            self.versions.truncate(self.version_index + 1);
        }
        let pos = self.versions[self.version_index].position;
        let ts = self.versions[self.version_index].timestamp;
        let snapshot = self.document.clone();
        self.versions.push(Version { document: snapshot, position: pos, timestamp: ts });
        self.document.clear_dirty();
        self.version_index = self.versions.len() - 1;
        self.has_saved = false;
        proof {
            assert(self.spec_versions() =~= old(self).spec_versions().take(
                old(self).spec_version_index() + 1,
            ).push(self.spec_versions().last()));
        }
    }

    /// The human-readable report shown after an undo or a redo: the
    /// size of the change, the version number returned to, and how long
    /// ago that version was checkpointed.
    fn version_status_message(
        &self,
        old_len: usize,
        old_changes: u64,
        index: usize,
        timestamp: i64,
        redo: bool,
    ) -> (r: String)
        ensures
            exists|diff: int, clock: Seq<char>|
                diff >= 0 && r@ == #[trigger] version_msg_spec(
                    old_len as int,
                    self.spec_doc().content().len() as int,
                    old_changes as int,
                    self.spec_doc().spec_lines_changed() as int,
                    index as int,
                    diff,
                    clock,
                    redo,
                ),
    {
        let now = now_seconds();
        let diffu: u64 = if now >= timestamp {
            let d: i128 = (now as i128) - (timestamp as i128);
            if d > u64::MAX as i128 {
                u64::MAX
            } else {
                d as u64
            }
        } else {
            0
        };
        let mut out: Vec<char> = Vec::new();
        let new_len = self.document.len();
        let new_changes = self.document.lines_changed();
        if new_len < old_len && old_len - new_len == 1 {
            crate::text::push_decimal(&mut out, 1);
            crate::text::push_str_chars(&mut out, " line less");
        } else if new_len != old_len {
            let abs: usize = if new_len > old_len {
                new_len - old_len
            } else {
                old_len - new_len
            };
            crate::text::push_decimal(&mut out, abs as u64);
            if new_len > old_len || redo {
                crate::text::push_str_chars(&mut out, " more");
            } else {
                crate::text::push_str_chars(&mut out, " fewer");
            }
            if abs == 1 {
                crate::text::push_str_chars(&mut out, " line");
            } else {
                crate::text::push_str_chars(&mut out, " lines");
            }
        } else {
            let ch: u64 = if new_changes >= old_changes {
                new_changes - old_changes
            } else {
                old_changes - new_changes
            };
            crate::text::push_decimal(&mut out, ch);
            if ch == 1 {
                crate::text::push_str_chars(&mut out, " change");
            } else {
                crate::text::push_str_chars(&mut out, " changes");
            }
        }
        crate::text::push_str_chars(&mut out, "; before #");
        crate::text::push_decimal(&mut out, index as u64);
        crate::text::push_str_chars(&mut out, "  ");
        let clock = format_clock_time(timestamp);
        if diffu < 60 {
            crate::text::push_decimal(&mut out, diffu);
            if diffu == 1 {
                crate::text::push_str_chars(&mut out, " second ago");
            } else {
                crate::text::push_str_chars(&mut out, " seconds ago");
            }
        } else if diffu / 60 < 10 {
            crate::text::push_decimal(&mut out, diffu / 60);
            if diffu / 60 == 1 {
                crate::text::push_str_chars(&mut out, " minute ago");
            } else {
                crate::text::push_str_chars(&mut out, " minutes ago");
            }
        } else {
            crate::text::push_str_chars(&mut out, clock.as_str());
        }
        let r = crate::text::chars_to_string(&out);
        proof {
            assert(r@ == version_msg_spec(
                old_len as int,
                self.spec_doc().content().len() as int,
                old_changes as int,
                self.spec_doc().spec_lines_changed() as int,
                index as int,
                diffu as int,
                clock@,
                redo,
            ));
        }
        r
    }

    /// Step one version back: restore the previous snapshot's buffer
    /// and cursor and report the delta, or report that the history is
    /// already at its oldest point.
    pub fn undo(&mut self)
        requires
            old(self).wf(),
        ensures
            final(self).wf(),
            old(self).spec_version_index() == 0 ==> *final(self) == old(self).spec_with_status(
                final(self).spec_status(),
            ) && final(self).spec_status_text() == "Already at oldest change"@,
            old(self).spec_version_index() > 0 ==> undo_rel(*old(self), *final(self)),
    {
        if self.version_index == 0 {
            self.set_status(String::from_str("Already at oldest change"));
            return;
        }
        let prev_len = self.versions[self.version_index].document.len();
        let prev_changes = self.versions[self.version_index].document.lines_changed();
        self.version_index = self.version_index - 1;
        let doc = self.versions[self.version_index].document.clone();
        let pos = self.versions[self.version_index].position;
        let ts = self.versions[self.version_index].timestamp;
        self.document = doc;
        self.cursor_position = pos;
        let msg = self.version_status_message(
            prev_len,
            prev_changes,
            self.version_index + 1,
            ts,
            false,
        );
        self.set_status(msg);
        self.readjust_cursor();
    }

    /// Step one version forward again after an undo, or report that the
    /// history is already at its newest point.
    pub fn redo(&mut self)
        requires
            old(self).wf(),
        ensures
            final(self).wf(),
            old(self).spec_version_index() == old(self).spec_versions().len() - 1 ==> *final(self)
                == old(self).spec_with_status(final(self).spec_status()) && final(self).spec_status_text() == "Already at newest change"@,
            old(self).spec_version_index() < old(self).spec_versions().len() - 1 ==> redo_rel(
                *old(self),
                *final(self),
            ),
    {
        if self.version_index == self.versions.len() - 1 {
            self.set_status(String::from_str("Already at newest change"));
            return;
        }
        let prev_len = self.versions[self.version_index].document.len();
        let prev_changes = self.versions[self.version_index].document.lines_changed();
        let pos = self.versions[self.version_index].position;
        self.version_index = self.version_index + 1;
        let doc = self.versions[self.version_index].document.clone();
        let ts = self.versions[self.version_index].timestamp;
        self.document = doc;
        self.cursor_position = pos;
        let msg = self.version_status_message(prev_len, prev_changes, self.version_index, ts, true);
        self.set_status(msg);
        self.readjust_cursor();
    }
}

/// Undo then redo round a committed edit is a round trip: undo restores
/// the previous snapshot's exact content and checkpointed cursor, and
/// redo then brings back the exact content the edit had produced. A new
/// commit after an undo instead discards every later version — the redo
/// branch is gone for good, as [`commit_rel`] shows directly.
pub proof fn lemma_undo_redo_round_trip(e1: Editor, e2: Editor, e3: Editor)
    requires
        e1.wf(),
        e1.spec_version_index() >= 1,
        e1.spec_doc().content() == e1.spec_versions().last().document.content(),
        e1.spec_version_index() == e1.spec_versions().len() - 1,
        undo_rel(e1, e2),
        redo_rel(e2, e3),
    ensures
        e2.spec_doc().content() == e1.spec_versions()[e1.spec_version_index()
            - 1].document.content(),
        e2.spec_cursor() == spec_readjust(
            e1.spec_versions()[e1.spec_version_index() - 1].position,
            e2.spec_doc().line_lens(),
        ),
        e3.spec_doc().content() == e1.spec_doc().content(),
{
}

/// The buffer content after `insert` through the cursor, a no-op past
/// the buffer's end.
pub open spec fn doc_insert_content(
    content: Seq<Seq<Seq<char>>>,
    cursor: CursorPosition,
    c: char,
) -> Seq<Seq<Seq<char>>> {
    if cursor.y > content.len() {
        content
    } else {
        crate::document::content_after_insert(content, cursor.x as int, cursor.y as int, c)
    }
}

/// The buffer content after `replace` through the cursor: a delete and
/// an insert at the same position.
pub open spec fn doc_replace_content(
    content: Seq<Seq<Seq<char>>>,
    cursor: CursorPosition,
    c: char,
) -> Seq<Seq<Seq<char>>> {
    let mid = crate::document::content_after_delete(content, cursor.x as int, cursor.y as int);
    if cursor.y > mid.len() {
        mid
    } else {
        crate::document::content_after_insert(mid, cursor.x as int, cursor.y as int, c)
    }
}

/// Typing characters in insert mode: each one is inserted at the
/// cursor, which then steps right.
pub open spec fn spec_type_chars(
    content: Seq<Seq<Seq<char>>>,
    cursor: CursorPosition,
    height: int,
    cs: Seq<char>,
) -> (Seq<Seq<Seq<char>>>, CursorPosition)
    decreases cs.len(),
{
    if cs.len() == 0 {
        (content, cursor)
    } else {
        let c1 = doc_insert_content(content, cursor, cs[0]);
        let cur1 = spec_move_cursor(cursor, Mode::Insert, crate::document::content_lens(c1), height, Key::Right);
        spec_type_chars(c1, cur1, height, cs.drop_first())
    }
}

/// Stepping right `n` times in insert mode.
pub open spec fn spec_move_right_n(
    cursor: CursorPosition,
    lens: Seq<int>,
    height: int,
    n: int,
) -> CursorPosition
    decreases n when n >= 0
{
    if n <= 0 {
        cursor
    } else {
        spec_move_right_n(
            spec_move_cursor(cursor, Mode::Insert, lens, height, Key::Right),
            lens,
            height,
            n - 1,
        )
    }
}

/// The number of leading whitespace graphemes of line `y`, or zero
/// beyond the buffer.
pub open spec fn spec_line_indent(content: Seq<Seq<Seq<char>>>, y: int) -> int {
    if 0 <= y < content.len() {
        spec_leading_white(content[y])
    } else {
        0
    }
}

/// The length of a line's leading run of whitespace graphemes.
pub open spec fn spec_leading_white(line: Seq<Seq<char>>) -> int
    decreases line.len(),
{
    if line.len() > 0 && crate::row::white_grapheme(line[0]) {
        1 + spec_leading_white(line.drop_first())
    } else {
        0
    }
}

/// The editor state that neither edits nor history motion touch.
pub open spec fn aux_frame(pre: Editor, post: Editor) -> bool {
    &&& post.spec_size() == pre.spec_size()
    &&& post.spec_offset() == pre.spec_offset()
    &&& post.spec_selection() == pre.spec_selection()
    &&& post.spec_query() == pre.spec_query()
    &&& post.spec_pending_count() == pre.spec_pending_count()
    &&& post.spec_pending_replace() == pre.spec_pending_replace()
    &&& post.spec_prompt() == pre.spec_prompt()
    &&& post.spec_highlighted_word() == pre.spec_highlighted_word()
}

/// How a committing edit relates an editor to its successor: the
/// buffer takes the new content and the cursor stays; outside insert
/// mode the edit is checkpointed into the current version and committed
/// as a fresh one, while insert-mode edits are batched for the return
/// to normal mode.
pub open spec fn edit_commit_rel(pre: Editor, post: Editor, new_content: Seq<Seq<Seq<char>>>) -> bool {
    let idx = pre.spec_version_index();
    &&& aux_frame(pre, post)
    &&& post.spec_doc().content() == new_content
    &&& post.spec_doc().spec_file_name() == pre.spec_doc().spec_file_name()
    &&& post.spec_doc().spec_file_type() == pre.spec_doc().spec_file_type()
    &&& post.spec_cursor() == pre.spec_cursor()
    &&& post.spec_mode() == pre.spec_mode()
    &&& post.spec_clipboard() == pre.spec_clipboard()
    &&& post.spec_should_quit() == pre.spec_should_quit()
    &&& post.spec_status() == pre.spec_status()
    &&& (pre.spec_mode() != Mode::Insert ==> {
        &&& post.spec_versions().len() == idx + 2
        &&& (forall|j: int| 0 <= j < idx ==> post.spec_versions()[j] == pre.spec_versions()[j])
        &&& post.spec_versions()[idx].document == pre.spec_versions()[idx].document
        &&& post.spec_versions()[idx].position == pre.spec_cursor()
        &&& post.spec_versions().last().document.content() == new_content
        &&& post.spec_versions().last().position == pre.spec_cursor()
        &&& post.spec_version_index() == idx + 1
        &&& !post.spec_has_saved()
        &&& !post.spec_doc().spec_dirty()
    })
    &&& (pre.spec_mode() == Mode::Insert ==> {
        &&& post.spec_versions() == pre.spec_versions()
        &&& post.spec_version_index() == pre.spec_version_index()
        &&& post.spec_has_saved() == pre.spec_has_saved()
    })
}

impl Editor {
    /// Insert one character at the cursor, committing a version when
    /// the edit is not an insert-mode keystroke.
    fn doc_insert(&mut self, c: char)
        requires
            old(self).wf(),
        ensures
            final(self).wf(),
            edit_commit_rel(
                *old(self),
                *final(self),
                doc_insert_content(old(self).spec_doc().content(), old(self).spec_cursor(), c),
            ),
    {
        if self.mode != Mode::Insert {
            self.save_prev_cursor_position();
        }
        let at = Position { x: self.cursor_position.x, y: self.cursor_position.y };
        self.document.insert(&at, c);
        if self.mode != Mode::Insert {
            self.add_version();
        }
    }

    /// Splice a whole line in at the cursor's row, committing a version
    /// outside insert mode.
    fn doc_insert_line(&mut self, line: &str)
        requires
            old(self).wf(),
        ensures
            final(self).wf(),
            edit_commit_rel(
                *old(self),
                *final(self),
                (if old(self).spec_cursor().y > old(self).spec_doc().content().len() {
                    old(self).spec_doc().content()
                } else {
                    old(self).spec_doc().content().insert(
                        old(self).spec_cursor().y as int,
                        crate::row::grapheme_split(line@),
                    )
                }),
            ),
    {
        if self.mode != Mode::Insert {
            self.save_prev_cursor_position();
        }
        let y = self.cursor_position.y;
        self.document.insert_line(y, line);
        if self.mode != Mode::Insert {
            self.add_version();
        }
    }

    /// Delete at the cursor, committing a version outside insert mode;
    /// the count of removed graphemes is returned.
    fn doc_delete(&mut self) -> (removed: usize)
        requires
            old(self).wf(),
        ensures
            final(self).wf(),
            edit_commit_rel(
                *old(self),
                *final(self),
                crate::document::content_after_delete(
                    old(self).spec_doc().content(),
                    old(self).spec_cursor().x as int,
                    old(self).spec_cursor().y as int,
                ),
            ),
            removed == (if old(self).spec_cursor().y < old(self).spec_doc().content().len()
                && old(self).spec_cursor().x < old(self).spec_doc().content()[old(self).spec_cursor().y as int].len() {
                1int
            } else {
                0int
            }),
    {
        if self.mode != Mode::Insert {
            self.save_prev_cursor_position();
        }
        let at = Position { x: self.cursor_position.x, y: self.cursor_position.y };
        let removed = self.document.delete(&at);
        if self.mode != Mode::Insert {
            self.add_version();
        }
        removed
    }

    /// Remove the cursor's row, committing a version outside insert
    /// mode.
    fn doc_delete_line(&mut self)
        requires
            old(self).wf(),
        ensures
            final(self).wf(),
            edit_commit_rel(
                *old(self),
                *final(self),
                (if old(self).spec_cursor().y < old(self).spec_doc().content().len() {
                    old(self).spec_doc().content().remove(old(self).spec_cursor().y as int)
                } else {
                    old(self).spec_doc().content()
                }),
            ),
    {
        if self.mode != Mode::Insert {
            self.save_prev_cursor_position();
        }
        let y = self.cursor_position.y;
        self.document.delete_line(y);
        if self.mode != Mode::Insert {
            self.add_version();
        }
    }

    /// Replace the grapheme under the cursor, committing a version
    /// outside insert mode.
    fn doc_replace(&mut self, c: char)
        requires
            old(self).wf(),
        ensures
            final(self).wf(),
            edit_commit_rel(
                *old(self),
                *final(self),
                doc_replace_content(old(self).spec_doc().content(), old(self).spec_cursor(), c),
            ),
    {
        if self.mode != Mode::Insert {
            self.save_prev_cursor_position();
        }
        let at = Position { x: self.cursor_position.x, y: self.cursor_position.y };
        self.document.replace(&at, c);
        if self.mode != Mode::Insert {
            self.add_version();
        }
    }
}

/// What editors share across an insert-mode keystroke: the mode, the
/// history and everything the keystroke does not touch.
pub open spec fn insert_frame(pre: Editor, post: Editor) -> bool {
    &&& aux_frame(pre, post)
    &&& post.spec_mode() == pre.spec_mode()
    &&& post.spec_versions() == pre.spec_versions()
    &&& post.spec_version_index() == pre.spec_version_index()
    &&& post.spec_has_saved() == pre.spec_has_saved()
    &&& post.spec_clipboard() == pre.spec_clipboard()
    &&& post.spec_should_quit() == pre.spec_should_quit()
    &&& post.spec_status() == pre.spec_status()
    &&& post.spec_doc().spec_file_name() == pre.spec_doc().spec_file_name()
}

/// Typing one more character extends a typing fold by one insert and
/// one step right.
pub proof fn lemma_type_chars_snoc(
    content: Seq<Seq<Seq<char>>>,
    cursor: CursorPosition,
    height: int,
    cs: Seq<char>,
    k: int,
)
    requires
        0 <= k < cs.len(),
    ensures
        spec_type_chars(content, cursor, height, cs.take(k + 1)) == ({
            let mid = spec_type_chars(content, cursor, height, cs.take(k));
            let c2 = doc_insert_content(mid.0, mid.1, cs[k]);
            (c2, spec_move_cursor(mid.1, Mode::Insert, crate::document::content_lens(c2), height, Key::Right))
        }),
    decreases k,
{
    let c1 = doc_insert_content(content, cursor, cs[0]);
    let cur1 = spec_move_cursor(cursor, Mode::Insert, crate::document::content_lens(c1), height, Key::Right);
    if k == 0 {
        assert(cs.take(0) =~= Seq::<char>::empty());
        assert(spec_type_chars(content, cursor, height, cs.take(0)) == (content, cursor));
        assert(cs.take(1)[0] == cs[0]);
        assert(cs.take(1).drop_first() =~= Seq::<char>::empty());
        assert(spec_type_chars(content, cursor, height, cs.take(1)) == spec_type_chars(
            c1,
            cur1,
            height,
            Seq::<char>::empty(),
        ));
        assert(spec_type_chars(c1, cur1, height, Seq::<char>::empty()) == (c1, cur1));
    } else {
        lemma_type_chars_snoc(c1, cur1, height, cs.drop_first(), k - 1);
        assert(cs.take(k + 1)[0] == cs[0]);
        assert(cs.take(k + 1).drop_first() =~= cs.drop_first().take(k));
        assert(spec_type_chars(content, cursor, height, cs.take(k + 1)) == spec_type_chars(
            c1,
            cur1,
            height,
            cs.drop_first().take(k),
        ));
        assert(cs.take(k)[0] == cs[0]);
        assert(cs.take(k).drop_first() =~= cs.drop_first().take(k - 1));
        assert(spec_type_chars(content, cursor, height, cs.take(k)) == spec_type_chars(
            c1,
            cur1,
            height,
            cs.drop_first().take(k - 1),
        ));
        assert(cs.drop_first()[k - 1] == cs[k]);
    }
}

/// Stepping right once more extends a right-steps fold by one step.
pub proof fn lemma_move_right_snoc(cursor: CursorPosition, lens: Seq<int>, height: int, n: int)
    requires
        n >= 0,
    ensures
        spec_move_right_n(cursor, lens, height, n + 1) == spec_move_cursor(
            spec_move_right_n(cursor, lens, height, n),
            Mode::Insert,
            lens,
            height,
            Key::Right,
        ),
    decreases n,
{
    let st = spec_move_cursor(cursor, Mode::Insert, lens, height, Key::Right);
    if n == 0 {
        assert(spec_move_right_n(cursor, lens, height, 0) == cursor);
        assert(spec_move_right_n(st, lens, height, 0) == st);
        assert(spec_move_right_n(cursor, lens, height, 1) == st);
    } else {
        lemma_move_right_snoc(st, lens, height, n - 1);
    }
}

/// The executable indentation count determines the leading-whitespace
/// length.
pub proof fn lemma_leading_white_at(line: Seq<Seq<char>>, n: int)
    requires
        0 <= n <= line.len(),
        forall|i: int| 0 <= i < n ==> crate::row::white_grapheme(#[trigger] line[i]),
        n < line.len() ==> !crate::row::white_grapheme(line[n]),
    ensures
        spec_leading_white(line) == n,
    decreases n,
{
    if n == 0 {
    } else {
        assert(crate::row::white_grapheme(line[0]));
        assert forall|i: int| 0 <= i < n - 1 implies crate::row::white_grapheme(
            #[trigger] line.drop_first()[i],
        ) by {
            assert(line[i + 1] == line.drop_first()[i]);
            assert(crate::row::white_grapheme(line[i + 1]));
        }
        assert(n - 1 < line.drop_first().len() ==> !crate::row::white_grapheme(
            line.drop_first()[n - 1],
        ));
        lemma_leading_white_at(line.drop_first(), n - 1);
    }
}

/// The closing character auto-inserted after an opening one in insert
/// mode; quote doubling is suppressed for the Rust profile's character
/// literals.
pub open spec fn closing_char(c: char, rust: bool) -> Option<char> {
    if c == '(' {
        Option::Some(')')
    } else if c == '[' {
        Option::Some(']')
    } else if c == '{' {
        Option::Some('}')
    } else if c == '"' {
        Option::Some('"')
    } else if !rust {
        Option::Some(c)
    } else {
        Option::None
    }
}

impl Editor {
    /// The editor with another mode, all else equal.
    pub closed spec fn spec_with_mode(self, m: Mode) -> Editor {
        Editor { mode: m, ..self }
    }

    /// Change mode. Entering normal mode steps the cursor left and
    /// commits any batched insert-mode edits as one version; entering
    /// insert mode checkpoints the cursor so that the batch can be
    /// undone to where it began.
    pub fn switch_mode(&mut self, mode: Mode)
        requires
            old(self).wf(),
        ensures
            final(self).wf(),
            final(self).spec_mode() == mode,
            final(self).spec_size() == old(self).spec_size(),
            final(self).spec_selection() == old(self).spec_selection(),
            final(self).spec_doc().content() == old(self).spec_doc().content(),
            final(self).spec_clipboard() == old(self).spec_clipboard(),
            final(self).spec_should_quit() == old(self).spec_should_quit(),
            final(self).spec_status() == old(self).spec_status(),
            mode == Mode::Normal && old(self).spec_mode() == Mode::Normal ==> *final(self) == *old(self),
            mode == Mode::Normal && old(self).spec_mode() != Mode::Normal ==> final(self).spec_cursor() == spec_move_cursor(
                old(self).spec_cursor(),
                Mode::Normal,
                crate::document::content_lens(old(self).spec_doc().content()),
                old(self).spec_size().height as int,
                Key::Left,
            ),
            mode == Mode::Normal && !(old(self).spec_mode() == Mode::Insert && old(self).spec_doc().spec_dirty()) ==> final(self).spec_versions() == old(self).spec_versions()
                && final(self).spec_version_index() == old(self).spec_version_index() && final(self).spec_has_saved() == old(self).spec_has_saved(),
            mode == Mode::Normal && old(self).spec_mode() == Mode::Insert && old(self).spec_doc().spec_dirty() ==> ({
                let idx = old(self).spec_version_index();
                &&& final(self).spec_versions().len() == idx + 2
                &&& (forall|j: int|
                    0 <= j <= idx ==> final(self).spec_versions()[j] == old(self).spec_versions()[
                        j])
                &&& final(self).spec_versions().last().document.content() == old(self).spec_doc().content()
                &&& final(self).spec_versions().last().position == old(self).spec_versions()[
                    idx].position
                &&& final(self).spec_version_index() == idx + 1
                &&& !final(self).spec_has_saved()
                &&& !final(self).spec_doc().spec_dirty()
            }),
            mode == Mode::Insert ==> final(self).spec_cursor() == old(self).spec_cursor() && final(self).spec_versions().len() == old(self).spec_versions().len() && final(self).spec_version_index() == old(self).spec_version_index() && final(self).spec_versions()[old(self).spec_version_index()].position == old(self).spec_cursor()
                && final(self).spec_versions()[old(self).spec_version_index()].document == old(self).spec_versions()[old(self).spec_version_index()].document && (forall|j: int|
                0 <= j < old(self).spec_versions().len() && j != old(self).spec_version_index()
                    ==> final(self).spec_versions()[j] == old(self).spec_versions()[j]) && final(self).spec_has_saved() == old(self).spec_has_saved(),
            mode == Mode::Replace || mode == Mode::Visual ==> *final(self) == old(self).spec_with_mode(mode),
    {
        match mode {
            Mode::Normal => {
                let prev_mode = self.mode;
                if !(matches!(prev_mode, Mode::Normal)) {
                    self.mode = Mode::Normal;
                    self.move_cursor(Key::Left);
                }
                if matches!(prev_mode, Mode::Insert) && self.document.is_dirty() {
                    self.add_version();
                }
            },
            Mode::Insert => {
                self.save_prev_cursor_position();
            },
            _ => {},
        }
        self.mode = mode;
    }

    /// Handle one insert-mode keystroke: a tab becomes blanks up to the
    /// next four-column stop, a newline splits the line and auto-indents
    /// to the new line's leading whitespace, an opening bracket or quote
    /// brings its closer along, and anything else is typed through.
    #[verifier::rlimit(60)]
    pub fn insert_mode(&mut self, c: char)
        requires
            old(self).wf(),
            old(self).spec_mode() == Mode::Insert,
        ensures
            final(self).wf(),
            insert_frame(*old(self), *final(self)),
            c == '\t' ==> ({
                let cs = Seq::new((4 - old(self).spec_cursor().x % 4) as nat, |i: int| ' ');
                let end = spec_type_chars(
                    old(self).spec_doc().content(),
                    old(self).spec_cursor(),
                    old(self).spec_size().height as int,
                    cs,
                );
                final(self).spec_doc().content() == end.0 && final(self).spec_cursor() == end.1
            }),
            c == '\n' ==> ({
                let h = old(self).spec_size().height as int;
                let c1 = doc_insert_content(
                    old(self).spec_doc().content(),
                    old(self).spec_cursor(),
                    '\n',
                );
                let cur1 = spec_move_cursor(
                    old(self).spec_cursor(),
                    Mode::Insert,
                    crate::document::content_lens(c1),
                    h,
                    Key::Right,
                );
                let ind = spec_line_indent(c1, cur1.y as int);
                let steps = spec_sat_sub(ind, cur1.x as int);
                final(self).spec_doc().content() == c1 && final(self).spec_cursor()
                    == spec_move_right_n(cur1, crate::document::content_lens(c1), h, steps)
            }),
            (c == '(' || c == '[' || c == '{' || c == '\'' || c == '"') ==> ({
                let h = old(self).spec_size().height as int;
                let one = spec_type_chars(
                    old(self).spec_doc().content(),
                    old(self).spec_cursor(),
                    h,
                    seq![c],
                );
                match closing_char(
                    c,
                    old(self).spec_doc().spec_file_type().spec_name() == "Rust"@,
                ) {
                    Option::Some(cl) => final(self).spec_doc().content() == doc_insert_content(
                        one.0,
                        one.1,
                        cl,
                    ) && final(self).spec_cursor() == one.1,
                    Option::None => final(self).spec_doc().content() == one.0 && final(self).spec_cursor() == one.1,
                }
            }),
            !(c == '\t' || c == '\n' || c == '(' || c == '[' || c == '{' || c == '\'' || c == '"')
                ==> ({
                let end = spec_type_chars(
                    old(self).spec_doc().content(),
                    old(self).spec_cursor(),
                    old(self).spec_size().height as int,
                    seq![c],
                );
                final(self).spec_doc().content() == end.0 && final(self).spec_cursor() == end.1
            }),
    {
        let ghost content0 = self.spec_doc().content();
        let ghost cursor0 = self.spec_cursor();
        let ghost h = self.spec_size().height as int;
        if c == '\t' {
            let spaces = 4 - self.cursor_position.x % 4;
            let ghost cs = Seq::new(spaces as nat, |i: int| ' ');
            let mut k: usize = 0;
            proof {
                assert(cs.take(0) =~= Seq::<char>::empty());
            }
            while k < spaces
                invariant
                    k <= spaces,
                    cs.len() == spaces,
                    forall|i: int| 0 <= i < cs.len() ==> cs[i] == ' ',
                    self.wf(),
                    self.spec_mode() == Mode::Insert,
                    self.spec_size() == old(self).spec_size(),
                    insert_frame(*old(self), *self),
                    spec_type_chars(content0, cursor0, h, cs.take(k as int)) == (
                        self.spec_doc().content(),
                        self.spec_cursor(),
                    ),
                decreases spaces - k,
            {
                self.doc_insert(' ');
                self.move_cursor(Key::Right);
                proof {
                    lemma_type_chars_snoc(content0, cursor0, h, cs, k as int);
                }
                k += 1;
            }
            proof {
                assert(cs.take(spaces as int) =~= cs);
            }
        } else if c == '\n' {
            self.doc_insert(c);
            self.move_cursor(Key::Right);
            let ghost c1 = self.spec_doc().content();
            let ghost cur1 = self.spec_cursor();
            let spaces = match self.document.row(self.cursor_position.y) {
                Option::Some(row) => {
                    let n = row.indentation();
                    proof {
                        lemma_leading_white_at(self.spec_doc().content()[
                            self.spec_cursor().y as int], n as int);
                    }
                    n
                },
                Option::None => 0,
            };
            proof {
                assert(spaces as int == spec_line_indent(c1, cur1.y as int));
            }
            let steps = spaces.saturating_sub(self.cursor_position.x);
            let mut k: usize = 0;
            while k < steps
                invariant
                    k <= steps,
                    self.wf(),
                    self.spec_mode() == Mode::Insert,
                    self.spec_size() == old(self).spec_size(),
                    insert_frame(*old(self), *self),
                    self.spec_doc().content() == c1,
                    self.spec_cursor() == spec_move_right_n(cur1, crate::document::content_lens(c1), h, k as int),
                decreases steps - k,
            {
                self.move_cursor(Key::Right);
                proof {
                    lemma_move_right_snoc(cur1, crate::document::content_lens(c1), h, k as int);
                }
                k += 1;
            }
        } else if c == '(' || c == '[' || c == '{' || c == '\'' || c == '"' {
            self.doc_insert(c);
            self.move_cursor(Key::Right);
            proof {
                assert(seq![c].take(0int) =~= Seq::<char>::empty());
                lemma_type_chars_snoc(content0, cursor0, h, seq![c], 0);
                assert(seq![c].take(1int) =~= seq![c]);
            }
            let ft = self.document.file_type();
            let rust = ft == String::from_str("Rust");
            proof {
                assert(rust == (old(self).spec_doc().spec_file_type().spec_name() == "Rust"@));
            }
            let closing: char = if c == '(' {
                ')'
            } else if c == '[' {
                ']'
            } else if c == '{' {
                '}'
            } else if c == '"' || !rust {
                c
            } else {
                return ;
            };
            self.doc_insert(closing);
        } else {
            self.doc_insert(c);
            self.move_cursor(Key::Right);
            proof {
                assert(seq![c].take(0int) =~= Seq::<char>::empty());
                lemma_type_chars_snoc(content0, cursor0, h, seq![c], 0);
                assert(seq![c].take(1int) =~= seq![c]);
            }
        }
    }

    /// Handle one replace-mode keystroke: substitute the grapheme under
    /// the cursor and step right.
    pub fn replace_mode(&mut self, c: char)
        requires
            old(self).wf(),
            old(self).spec_mode() == Mode::Replace,
        ensures
            final(self).wf(),
            final(self).spec_doc().content() == doc_replace_content(
                old(self).spec_doc().content(),
                old(self).spec_cursor(),
                c,
            ),
            final(self).spec_cursor() == spec_move_cursor(
                old(self).spec_cursor(),
                Mode::Replace,
                crate::document::content_lens(
                    doc_replace_content(old(self).spec_doc().content(), old(self).spec_cursor(), c),
                ),
                old(self).spec_size().height as int,
                Key::Right,
            ),
            final(self).spec_mode() == Mode::Replace,
            final(self).spec_version_index() == old(self).spec_version_index() + 1,
            final(self).spec_versions().last().document.content() == final(self).spec_doc().content(),
            final(self).spec_clipboard() == old(self).spec_clipboard(),
    {
        self.doc_replace(c);
        self.move_cursor(Key::Right);
    }

    /// Insert externally supplied clipboard text as an insert-mode
    /// batch: each character is inserted at the cursor, which then
    /// steps right, so the text comes out in order.
    pub fn paste_text(&mut self, content: &str)
        requires
            old(self).wf(),
        ensures
            final(self).wf(),
            final(self).spec_mode() == Mode::Insert,
            ({
                let end = spec_type_chars(
                    old(self).spec_doc().content(),
                    old(self).spec_cursor(),
                    old(self).spec_size().height as int,
                    content@,
                );
                final(self).spec_doc().content() == end.0 && final(self).spec_cursor() == end.1
            }),
            final(self).spec_versions().len() == old(self).spec_versions().len(),
            final(self).spec_version_index() == old(self).spec_version_index(),
            final(self).spec_clipboard() == old(self).spec_clipboard(),
            final(self).spec_should_quit() == old(self).spec_should_quit(),
    {
        self.switch_mode(Mode::Insert);
        let ghost vers1 = self.spec_versions();
        let ghost content0 = self.spec_doc().content();
        let ghost cursor0 = self.spec_cursor();
        let ghost h = self.spec_size().height as int;
        let cs = crate::text::str_chars(content);
        proof {
            assert(cs@.take(0) =~= Seq::<char>::empty());
        }
        let mut k: usize = 0;
        while k < cs.len()
            invariant
                k <= cs@.len(),
                cs@ == content@,
                self.wf(),
                self.spec_mode() == Mode::Insert,
                self.spec_size() == old(self).spec_size(),
                self.spec_versions() == vers1,
                self.spec_version_index() == old(self).spec_version_index(),
                self.spec_clipboard() == old(self).spec_clipboard(),
                self.spec_should_quit() == old(self).spec_should_quit(),
                spec_type_chars(content0, cursor0, h, cs@.take(k as int)) == (
                    self.spec_doc().content(),
                    self.spec_cursor(),
                ),
            decreases cs@.len() - k,
        {
            self.doc_insert(cs[k]);
            self.move_cursor(Key::Right);
            proof {
                lemma_type_chars_snoc(content0, cursor0, h, cs@, k as int);
            }
            k += 1;
        }
        proof {
            assert(cs@.take(cs@.len() as int) =~= cs@);
        }
    }
}

/// Where a search sets off from: one step right of the cursor for a
/// forward search, the cursor itself for a backward one.
pub open spec fn search_start(
    cursor: CursorPosition,
    mode: Mode,
    lens: Seq<int>,
    h: int,
    direction: SearchDirection,
) -> CursorPosition {
    if direction == SearchDirection::Forward {
        spec_move_cursor(cursor, mode, lens, h, Key::Right)
    } else {
        cursor
    }
}

/// Where the cursor lands when a search finds nothing: a forward search
/// undoes its initial step right.
pub open spec fn search_fallback(
    cur1: CursorPosition,
    orig: CursorPosition,
    mode: Mode,
    lens: Seq<int>,
    h: int,
    direction: SearchDirection,
) -> CursorPosition {
    if direction == SearchDirection::Forward {
        spec_move_cursor(cur1, mode, lens, h, Key::Left)
    } else {
        orig
    }
}

impl Editor {
    /// Jump to the next occurrence of the last search query. Forward,
    /// the cursor first steps right so that repeated jumps advance; when
    /// nothing is found it steps back. Backward jumps search before the
    /// cursor.
    #[verifier::rlimit(60)]
    #[verifier::spinoff_prover]
    pub fn move_to_search_term(&mut self, direction: SearchDirection)
        requires
            old(self).wf(),
        ensures
            final(self).wf(),
            old(self).spec_query() is None ==> *final(self) == *old(self),
            final(self).spec_doc() == old(self).spec_doc(),
            final(self).spec_mode() == old(self).spec_mode(),
            final(self).spec_versions() == old(self).spec_versions(),
            final(self).spec_version_index() == old(self).spec_version_index(),
            final(self).spec_selection() == old(self).spec_selection(),
            old(self).spec_query() is Some ==> ({
                let q = old(self).spec_query().unwrap();
                let lens = crate::document::content_lens(old(self).spec_doc().content());
                let h = old(self).spec_size().height as int;
                let cur1 = search_start(
                    old(self).spec_cursor(),
                    old(self).spec_mode(),
                    lens,
                    h,
                    direction,
                );
                let at = Position { x: cur1.x, y: cur1.y };
                let hit = at.y < old(self).spec_doc().content().len() && ((direction
                    == SearchDirection::Forward && (exists|x: int, y: int|
                    old(self).spec_doc().fwd_hit(q@, at, x, y))) || (direction
                    == SearchDirection::Backward && (exists|x: int, y: int|
                    old(self).spec_doc().back_hit(q@, at, x, y))));
                &&& (hit && direction == SearchDirection::Forward ==> old(self).spec_doc().fwd_hit(
                    q@,
                    at,
                    final(self).spec_cursor().x as int,
                    final(self).spec_cursor().y as int,
                ))
                &&& (hit && direction == SearchDirection::Backward ==> old(self).spec_doc().back_hit(
                    q@,
                    at,
                    final(self).spec_cursor().x as int,
                    final(self).spec_cursor().y as int,
                ))
                &&& (hit && direction == SearchDirection::Forward ==> (forall|x: int, y: int|
                    #[trigger] old(self).spec_doc().fwd_hit(q@, at, x, y) && (y < final(self).spec_cursor().y as int || (y == final(self).spec_cursor().y as int && x < final(self).spec_cursor().x as int)) ==> false))
                &&& (hit && direction == SearchDirection::Backward ==> (forall|x: int, y: int|
                    #[trigger] old(self).spec_doc().back_hit(q@, at, x, y) && (y > final(self).spec_cursor().y as int || (y == final(self).spec_cursor().y as int && x > final(self).spec_cursor().x as int)) ==> false))
                &&& (hit ==> final(self).spec_cursor().max_x == 0 && final(self).spec_offset()
                    == spec_scroll(
                    final(self).spec_cursor(),
                    old(self).spec_offset(),
                    old(self).spec_size(),
                ))
                &&& (!hit ==> final(self).spec_offset() == old(self).spec_offset() && final(self).spec_cursor() == search_fallback(
                    cur1,
                    old(self).spec_cursor(),
                    old(self).spec_mode(),
                    lens,
                    h,
                    direction,
                ))
            }),
    {
        let query = match &self.query {
            Option::Some(q) => q.clone(),
            Option::None => {
                return ;
            },
        };
        if matches!(direction, SearchDirection::Forward) {
            self.move_cursor(Key::Right);
        }
        let at = Position { x: self.cursor_position.x, y: self.cursor_position.y };
        let found = self.document.find(query.as_str(), &at, direction);
        match found {
            Option::Some(pos) => {
                self.cursor_position = CursorPosition { x: pos.x, y: pos.y, max_x: 0 };
                self.scroll();
                proof {
                    let q0 = old(self).spec_query().unwrap();
                    let lens = crate::document::content_lens(old(self).spec_doc().content());
                    let h = old(self).spec_size().height as int;
                    let cur1 = search_start(
                        old(self).spec_cursor(),
                        old(self).spec_mode(),
                        lens,
                        h,
                        direction,
                    );
                    assert(at == (Position { x: cur1.x, y: cur1.y }));
                    if direction == SearchDirection::Forward {
                        assert(old(self).spec_doc().fwd_hit(q0@, at, pos.x as int, pos.y as int));
                        assert(exists|x: int, y: int|
                            old(self).spec_doc().fwd_hit(q0@, at, x, y));
                    } else {
                        assert(old(self).spec_doc().back_hit(q0@, at, pos.x as int, pos.y as int));
                        assert(exists|x: int, y: int|
                            old(self).spec_doc().back_hit(q0@, at, x, y));
                    }
                    assert(self.spec_cursor().max_x == 0);
                    assert(self.spec_offset() == spec_scroll(
                        self.spec_cursor(),
                        old(self).spec_offset(),
                        old(self).spec_size(),
                    ));
                }
            },
            Option::None => {
                if matches!(direction, SearchDirection::Forward) {
                    self.move_cursor(Key::Left);
                }
            },
        }
    }

    /// Ask for the buffer to be written, after the unsaved-changes and
    /// missing-name checks: with nothing to write only a message is
    /// shown, and with no file name a save-as prompt opens first.
    pub fn save(&mut self) -> (act: Option<Action>)
        requires
            old(self).wf(),
        ensures
            final(self).wf(),
            final(self).spec_doc() == old(self).spec_doc(),
            final(self).spec_versions() == old(self).spec_versions(),
            final(self).spec_version_index() == old(self).spec_version_index(),
            final(self).spec_has_saved() == old(self).spec_has_saved(),
            final(self).spec_mode() == old(self).spec_mode(),
            final(self).spec_cursor() == old(self).spec_cursor(),
            final(self).spec_clipboard() == old(self).spec_clipboard(),
            final(self).spec_should_quit() == old(self).spec_should_quit(),
            !(old(self).spec_versions().len() != 1 && old(self).spec_version_index() != 0 && !old(self).spec_has_saved()) ==> act is None && final(self).spec_status_text()
                == "No changes to write."@,
            (old(self).spec_versions().len() != 1 && old(self).spec_version_index() != 0 && !old(self).spec_has_saved()) && old(self).spec_doc().spec_file_name() is None ==> act is None
                && final(self).spec_prompt_active(),
            (old(self).spec_versions().len() != 1 && old(self).spec_version_index() != 0 && !old(self).spec_has_saved()) && old(self).spec_doc().spec_file_name() is Some ==> act
                == Option::Some(Action::WriteFile),
    {
        if !self.contains_changes() {
            self.set_status(String::from_str("No changes to write."));
            return Option::None;
        }
        let has_name = match &self.document.file_name() {
            Option::Some(_) => true,
            Option::None => false,
        };
        if !has_name {
            self.prompt = Option::Some(
                PromptState {
                    kind: PromptKind::SaveAs,
                    text: Vec::new(),
                    return_to: self.cursor_position,
                    direction: SearchDirection::Forward,
                },
            );
            return Option::None;
        }
        Option::Some(Action::WriteFile)
    }

    /// Record the outcome of writing the buffer: on success the buffer
    /// and its rows are marked clean and further saves are suppressed
    /// until the next change; on failure only a message is shown.
    pub fn finish_save(&mut self, written: Option<usize>)
        requires
            old(self).wf(),
        ensures
            final(self).wf(),
            final(self).spec_doc().content() == old(self).spec_doc().content(),
            written is Some ==> final(self).spec_has_saved() && !final(self).spec_doc().spec_dirty()
                && final(self).spec_status_text() == "File saved successfully: "@
                + crate::text::spec_decimal(written.unwrap() as nat) + " bytes written."@
                && final(self).spec_versions() == old(self).spec_versions()
                && final(self).spec_version_index() == old(self).spec_version_index()
                && final(self).spec_cursor() == old(self).spec_cursor()
                && final(self).spec_mode() == old(self).spec_mode()
                && final(self).spec_clipboard() == old(self).spec_clipboard()
                && final(self).spec_should_quit() == old(self).spec_should_quit()
                && final(self).spec_doc().spec_file_name() == old(self).spec_doc().spec_file_name()
                && final(self).spec_doc().spec_rows().len() == old(self).spec_doc().spec_rows().len()
                && (forall|i: int|
                    0 <= i < old(self).spec_doc().spec_rows().len() ==> (#[trigger] final(self).spec_doc().spec_rows()[i])@ == old(self).spec_doc().spec_rows()[i]@ && !final(self).spec_doc().spec_rows()[i].spec_dirty() && final(self).spec_doc().spec_rows()[i].hl() == old(self).spec_doc().spec_rows()[i].hl())
                && (old(self).spec_doc().spec_file_name() is Some
                    ==> crate::filetype::is_rust_name(old(self).spec_doc().spec_file_name().unwrap()@) == (final(self).spec_doc().spec_file_type().spec_name() == "Rust"@)),
            written is None ==> *final(self) == old(self).spec_with_status(final(self).spec_status()) && final(self).spec_status_text() == "Error writing file!"@,
    {
        match written {
            Option::Some(bytes) => {
                self.document.mark_saved();
                self.has_saved = true;
                let mut out: Vec<char> = Vec::new();
                crate::text::push_str_chars(&mut out, "File saved successfully: ");
                crate::text::push_decimal(&mut out, bytes as u64);
                crate::text::push_str_chars(&mut out, " bytes written.");
                let msg = crate::text::chars_to_string(&out);
                self.set_status(msg);
            },
            Option::None => {
                self.set_status(String::from_str("Error writing file!"));
            },
        }
    }

    /// Take in a freshly read file (or the failure to read it): on
    /// success the buffer is replaced wholesale and the history starts
    /// over from it.
    pub fn finish_open(&mut self, file_name: String, contents: Option<&str>)
        requires
            old(self).wf(),
        ensures
            final(self).wf(),
            (match contents {
                Option::Some(text) => final(self).spec_doc().lines()
                    == crate::document::split_lines(text@) && final(self).spec_versions().len() == 1
                    && final(self).spec_version_index() == 0 && final(self).spec_versions()[0].document.content() == final(self).spec_doc().content() && final(self).spec_doc().spec_file_name() == Option::Some(file_name) && final(self).spec_cursor() == spec_readjust(
                    CursorPosition { x: 0, y: 0, max_x: 0 },
                    final(self).spec_doc().line_lens(),
                ),
                Option::None => final(self).spec_doc() == old(self).spec_doc() && final(self).spec_versions() == old(self).spec_versions() && final(self).spec_status_text()
                    == "ERR: Could not open file: "@ + file_name@,
            }),
    {
        match contents {
            Option::Some(text) => {
                let doc = crate::document::Document::from_text(
                    text,
                    Option::Some(file_name),
                );
                let snapshot = doc.clone();
                self.document = doc;
                let mut versions: Vec<Version> = Vec::new();
                versions.push(
                    Version {
                        document: snapshot,
                        position: CursorPosition { x: 0, y: 0, max_x: 0 },
                        timestamp: now_seconds(),
                    },
                );
                self.versions = versions;
                self.version_index = 0;
                self.cursor_position = CursorPosition { x: 0, y: 0, max_x: 0 };
                self.readjust_cursor();
            },
            Option::None => {
                let mut out: Vec<char> = Vec::new();
                crate::text::push_str_chars(&mut out, "ERR: Could not open file: ");
                crate::text::push_str_chars(&mut out, file_name.as_str());
                let msg = crate::text::chars_to_string(&out);
                self.set_status(msg);
            },
        }
    }

    /// Show the working directory, or that it is gone.
    pub fn report_cwd(&mut self, cwd: Option<String>)
        requires
            old(self).wf(),
        ensures
            final(self).wf(),
            *final(self) == old(self).spec_with_status(final(self).spec_status()),
            (match cwd {
                Option::Some(path) => final(self).spec_status_text() == "CWD is "@ + path@,
                Option::None => final(self).spec_status_text() == "ERR: CWD does not exist"@,
            }),
    {
        match cwd {
            Option::Some(path) => {
                let mut out: Vec<char> = Vec::new();
                crate::text::push_str_chars(&mut out, "CWD is ");
                crate::text::push_str_chars(&mut out, path.as_str());
                let msg = crate::text::chars_to_string(&out);
                self.set_status(msg);
            },
            Option::None => {
                self.set_status(String::from_str("ERR: CWD does not exist"));
            },
        }
    }

    /// Show that a directory change failed.
    pub fn report_path_error(&mut self, path: &str)
        requires
            old(self).wf(),
        ensures
            final(self).wf(),
            *final(self) == old(self).spec_with_status(final(self).spec_status()),
            final(self).spec_status_text() == "ERR: Path does not exist: "@ + path@,
    {
        let mut out: Vec<char> = Vec::new();
        crate::text::push_str_chars(&mut out, "ERR: Path does not exist: ");
        crate::text::push_str_chars(&mut out, path);
        let msg = crate::text::chars_to_string(&out);
        self.set_status(msg);
    }
}

/// Where entering insert mode puts the cursor: `a` appends after the
/// cursor, `A` at the line end, `I` at the line start, `i` in place.
pub open spec fn insert_entry_cursor(
    c: char,
    cur: CursorPosition,
    lens: Seq<int>,
    h: int,
) -> CursorPosition {
    if c == 'a' {
        spec_move_cursor(cur, Mode::Insert, lens, h, Key::Right)
    } else if c == 'A' {
        spec_move_cursor(cur, Mode::Insert, lens, h, Key::End)
    } else if c == 'I' {
        spec_move_cursor(cur, Mode::Insert, lens, h, Key::Home)
    } else {
        cur
    }
}

/// An empty line spliced in at `y`, when `y` is a valid insertion
/// point.
pub open spec fn ins_empty_line(content: Seq<Seq<Seq<char>>>, y: int) -> Seq<Seq<Seq<char>>> {
    if y <= content.len() {
        content.insert(y, crate::row::grapheme_split(""@))
    } else {
        content
    }
}

/// What opening a line does: `o` first moves down and splices there,
/// `O` splices at the cursor's row and then moves down past it.
pub open spec fn open_line_spec(
    content: Seq<Seq<Seq<char>>>,
    cur: CursorPosition,
    h: int,
    below: bool,
) -> (Seq<Seq<Seq<char>>>, CursorPosition) {
    if below {
        let c1 = spec_move_cursor(
            cur,
            Mode::Insert,
            crate::document::content_lens(content),
            h,
            Key::Down,
        );
        (ins_empty_line(content, c1.y as int), c1)
    } else {
        let ct = ins_empty_line(content, cur.y as int);
        (
            ct,
            spec_move_cursor(cur, Mode::Insert, crate::document::content_lens(ct), h, Key::Down),
        )
    }
}

/// A version was committed on top of `idx`: the history grew by one
/// snapshot holding the post-state's content, checkpointed at the
/// pre-state's cursor.
pub open spec fn committed_edit(pre: Editor, post: Editor) -> bool {
    &&& post.spec_version_index() == pre.spec_version_index() + 1
    &&& post.spec_versions().len() == pre.spec_version_index() + 2
    &&& post.spec_versions().last().document.content() == post.spec_doc().content()
    &&& post.spec_versions().last().position == pre.spec_cursor()
    &&& !post.spec_has_saved()
    &&& (forall|j: int|
        0 <= j < pre.spec_version_index() ==> post.spec_versions()[j] == pre.spec_versions()[j])
}

/// What one normal-mode command does. Each command is a pure cursor
/// motion, a mode transition, a buffer edit committed as one version, a
/// prompt opening, or a history step — exactly the normal-mode table.
pub open spec fn normal_rel(pre: Editor, post: Editor, c: char) -> bool {
    &&& post.spec_selection() == pre.spec_selection()
    &&& normal_cmd_rel(pre, post, c)
}

/// The command table itself; see [`normal_rel`].
pub open spec fn normal_cmd_rel(pre: Editor, post: Editor, c: char) -> bool {
    let content = pre.spec_doc().content();
    let lens = crate::document::content_lens(content);
    let h = pre.spec_size().height as int;
    let cur = pre.spec_cursor();
    if crate::text::spec_is_digit(c) {
        &&& post == pre.spec_with_count(post.spec_pending_count()).spec_with_status(
            post.spec_status(),
        )
        &&& post.spec_pending_count() == Option::Some(
            CountState { value: (c as int - 48) as u64, overflowed: false },
        )
        &&& post.spec_status_text() == crate::text::spec_decimal((c as int - 48) as nat)
    } else if c == 'h' {
        post == pre.with_cursor(spec_move_cursor(cur, Mode::Normal, lens, h, Key::Left))
    } else if c == 'j' {
        post == pre.with_cursor(spec_move_cursor(cur, Mode::Normal, lens, h, Key::Down))
    } else if c == 'k' {
        post == pre.with_cursor(spec_move_cursor(cur, Mode::Normal, lens, h, Key::Up))
    } else if c == 'l' {
        post == pre.with_cursor(spec_move_cursor(cur, Mode::Normal, lens, h, Key::Right))
    } else if c == 'g' || c == 'G' {
        &&& (c == 'g' ==> post == pre.with_cursor(CursorPosition { x: 0, y: 0, max_x: 0 }))
        &&& (c == 'G' ==> post == pre.with_cursor(
            CursorPosition { x: 0, y: content.len() as usize, max_x: 0 },
        ))
    } else if c == 'a' || c == 'A' || c == 'i' || c == 'I' {
        &&& post.spec_mode() == Mode::Insert
        &&& post.spec_doc().content() == content
        &&& post.spec_cursor() == insert_entry_cursor(c, cur, lens, h)
        &&& post.spec_versions().len() == pre.spec_versions().len()
        &&& post.spec_version_index() == pre.spec_version_index()
        &&& post.spec_versions()[pre.spec_version_index()].position == cur
        &&& post.spec_clipboard() == pre.spec_clipboard()
        &&& post.spec_status() == pre.spec_status()
    } else if c == 'o' || c == 'O' {
        let opened = open_line_spec(content, cur, h, c == 'o');
        &&& post.spec_mode() == Mode::Insert
        &&& post.spec_doc().content() == opened.0
        &&& post.spec_cursor() == opened.1
        &&& post.spec_versions().len() == pre.spec_versions().len()
        &&& post.spec_version_index() == pre.spec_version_index()
        &&& post.spec_clipboard() == pre.spec_clipboard()
    } else if c == 'r' {
        &&& post == pre.spec_with_pending_replace(true)
    } else if c == 'x' || c == 's' {
        if cur.y as int >= content.len() {
            post == pre
        } else {
            let row_len = content[cur.y as int].len() as int;
            let deleted = if row_len > 0 {
                crate::document::content_after_delete(content, cur.x as int, cur.y as int)
            } else {
                content
            };
            &&& post.spec_doc().content() == deleted
            &&& (row_len > 0 ==> committed_edit(pre, post))
            &&& (c == 'x' && cur.x as int == spec_sat_sub(row_len, 1) ==> post.spec_cursor()
                == spec_move_cursor(
                cur,
                Mode::Normal,
                crate::document::content_lens(deleted),
                h,
                Key::Left,
            ))
            &&& (c == 'x' && cur.x as int != spec_sat_sub(row_len, 1) ==> post.spec_cursor()
                == cur)
            &&& (c == 's' ==> post.spec_mode() == Mode::Insert && post.spec_cursor() == cur)
            &&& (c == 'x' ==> post.spec_mode() == Mode::Normal)
            &&& post.spec_clipboard() == pre.spec_clipboard()
        }
    } else if c == 'd' || c == 'y' {
        if cur.y as int >= content.len() {
            post == pre
        } else {
            &&& (post.spec_clipboard() matches Option::Some(s) && s@ == crate::row::trim_white(
                content[cur.y as int].flatten(),
            ))
            &&& (c == 'y' ==> post.spec_doc().content() == content && post.spec_cursor() == cur
                && post.spec_mode() == pre.spec_mode() && post.spec_versions()
                == pre.spec_versions() && post.spec_version_index() == pre.spec_version_index()
                && post.spec_has_saved() == pre.spec_has_saved())
            &&& (c == 'd' ==> post.spec_doc().content() == content.remove(cur.y as int)
                && committed_edit(pre, post) && post.spec_cursor() == spec_move_cursor(
                cur,
                Mode::Normal,
                crate::document::content_lens(content.remove(cur.y as int)),
                h,
                Key::Home,
            ) && post.spec_mode() == pre.spec_mode())
        }
    } else if c == 'p' {
        if pre.spec_clipboard() is None {
            post == pre
        } else {
            let pasted = if cur.y as int <= content.len() {
                content.insert(
                    cur.y as int,
                    crate::row::grapheme_split(pre.spec_clipboard().unwrap()@),
                )
            } else {
                content
            };
            &&& post.spec_doc().content() == pasted
            &&& committed_edit(pre, post)
            &&& post.spec_cursor() == spec_move_cursor(
                cur,
                Mode::Normal,
                crate::document::content_lens(pasted),
                h,
                Key::Down,
            )
            &&& post.spec_clipboard() == pre.spec_clipboard()
            &&& post.spec_mode() == pre.spec_mode()
        }
    } else if c == 'R' {
        post == pre.spec_with_mode(Mode::Replace)
    } else if c == 'v' {
        post == pre.spec_with_mode(Mode::Visual)
    } else if c == '/' || c == ':' {
        &&& post == pre.spec_with_prompt(post.spec_prompt())
        &&& (post.spec_prompt() matches Option::Some(p) && p.kind == (if c == '/' {
            PromptKind::Search
        } else {
            PromptKind::Command
        }) && p.text@ == Seq::<char>::empty() && p.return_to == cur)
    } else if c == 'u' {
        &&& (pre.spec_version_index() == 0 ==> post == pre.spec_with_status(post.spec_status())
            && post.spec_status_text() == "Already at oldest change"@)
        &&& (pre.spec_version_index() > 0 ==> undo_rel(pre, post))
    } else if c == 'n' || c == 'N' {
        search_jump_rel(
            pre,
            post,
            if c == 'n' {
                SearchDirection::Forward
            } else {
                SearchDirection::Backward
            },
        )
    } else {
        post == pre
    }
}

/// What a repeated-search jump does; see
/// [`Editor::move_to_search_term`].
pub open spec fn search_jump_rel(pre: Editor, post: Editor, direction: SearchDirection) -> bool {
    &&& post.spec_selection() == pre.spec_selection()
    &&& (pre.spec_query() is None ==> post == pre)
    &&& post.spec_doc() == pre.spec_doc()
    &&& post.spec_mode() == pre.spec_mode()
    &&& post.spec_versions() == pre.spec_versions()
    &&& post.spec_version_index() == pre.spec_version_index()
    &&& (pre.spec_query() is Some ==> ({
        let q = pre.spec_query().unwrap();
        let lens = crate::document::content_lens(pre.spec_doc().content());
        let h = pre.spec_size().height as int;
        let cur1 = search_start(pre.spec_cursor(), pre.spec_mode(), lens, h, direction);
        let at = Position { x: cur1.x, y: cur1.y };
        let hit = at.y < pre.spec_doc().content().len() && ((direction
            == SearchDirection::Forward && (exists|x: int, y: int|
            pre.spec_doc().fwd_hit(q@, at, x, y))) || (direction == SearchDirection::Backward && (
        exists|x: int, y: int| pre.spec_doc().back_hit(q@, at, x, y))));
        &&& (hit && direction == SearchDirection::Forward ==> pre.spec_doc().fwd_hit(
            q@,
            at,
            post.spec_cursor().x as int,
            post.spec_cursor().y as int,
        ))
        &&& (hit && direction == SearchDirection::Backward ==> pre.spec_doc().back_hit(
            q@,
            at,
            post.spec_cursor().x as int,
            post.spec_cursor().y as int,
        ))
        &&& (hit && direction == SearchDirection::Forward ==> (forall|x: int, y: int|
            #[trigger] pre.spec_doc().fwd_hit(q@, at, x, y) && (y < post.spec_cursor().y as int || (y == post.spec_cursor().y as int && x < post.spec_cursor().x as int)) ==> false))
        &&& (hit && direction == SearchDirection::Backward ==> (forall|x: int, y: int|
            #[trigger] pre.spec_doc().back_hit(q@, at, x, y) && (y > post.spec_cursor().y as int || (y == post.spec_cursor().y as int && x > post.spec_cursor().x as int)) ==> false))
        &&& (hit ==> post.spec_cursor().max_x == 0 && post.spec_offset() == spec_scroll(
            post.spec_cursor(),
            pre.spec_offset(),
            pre.spec_size(),
        ))
        &&& (!hit ==> post.spec_offset() == pre.spec_offset() && post.spec_cursor()
            == search_fallback(cur1, pre.spec_cursor(), pre.spec_mode(), lens, h, direction))
    }))
}

/// Where a left press puts the cursor before clamping: screen cell to
/// buffer position, with the line-number gutter's five columns skipped
/// when the press lands on a row.
pub open spec fn mouse_target(
    mx: int,
    my: int,
    off: Position,
    max_x: usize,
    doclen: int,
) -> CursorPosition {
    let x1 = if my < doclen {
        spec_sat_sub(mx, 5)
    } else {
        mx
    };
    CursorPosition {
        x: spec_sat_add(spec_sat_sub(x1, 1), off.x as int) as usize,
        y: spec_sat_add(spec_sat_sub(my, 1), off.y as int) as usize,
        max_x,
    }
}

impl Editor {
    /// The editor with another pending count, all else equal.
    pub closed spec fn spec_with_count(self, pc: Option<CountState>) -> Editor {
        Editor { pending_count: pc, ..self }
    }

    /// The editor with the replace command pending or not, all else
    /// equal.
    pub closed spec fn spec_with_pending_replace(self, b: bool) -> Editor {
        Editor { pending_replace: b, ..self }
    }

    /// The editor with another prompt state, all else equal.
    pub closed spec fn spec_with_prompt(self, p: Option<PromptState>) -> Editor {
        Editor { prompt: p, ..self }
    }

    /// Dispatch one normal-mode command: the key grammar of the
    /// normal-mode table.
    #[verifier::rlimit(100)]
    pub fn normal_mode(&mut self, c: char)
        requires
            old(self).wf(),
            old(self).spec_mode() == Mode::Normal,
        ensures
            final(self).wf(),
            normal_rel(*old(self), *final(self), c),
    {
        if crate::text::is_digit(c) {
            let d = (c as u32 - 48) as u64;
            self.pending_count = Option::Some(CountState { value: d, overflowed: false });
            let ds = crate::text::decimal_chars(d);
            let msg = crate::text::chars_to_string(&ds);
            self.set_status(msg);
        } else if c == 'h' {
            self.move_cursor(Key::Left);
        } else if c == 'j' {
            self.move_cursor(Key::Down);
        } else if c == 'k' {
            self.move_cursor(Key::Up);
        } else if c == 'l' {
            self.move_cursor(Key::Right);
        } else if c == 'g' || c == 'G' {
            let y = if c == 'g' {
                0
            } else {
                self.document.len()
            };
            self.cursor_position = CursorPosition { x: 0, y, max_x: 0 };
        } else if c == 'a' || c == 'A' || c == 'i' || c == 'I' {
            self.switch_mode(Mode::Insert);
            if c == 'a' {
                self.move_cursor(Key::Right);
            } else if c == 'A' {
                self.move_cursor(Key::End);
            } else if c == 'I' {
                self.move_cursor(Key::Home);
            }
        } else if c == 'o' || c == 'O' {
            self.switch_mode(Mode::Insert);
            if c == 'o' {
                self.move_cursor(Key::Down);
            }
            self.doc_insert_line("");
            if c == 'O' {
                self.move_cursor(Key::Down);
            }
        } else if c == 'r' {
            self.pending_replace = true;
        } else if c == 'x' || c == 's' {
            let row_len = match self.document.row(self.cursor_position.y) {
                Option::Some(row) => row.len(),
                Option::None => {
                    proof {
                        assert(normal_rel(*old(self), *self, c));
                    }
                    return ;
                },
            };
            if row_len > 0 {
                self.doc_delete();
            }
            if c == 'x' && self.cursor_position.x == row_len.saturating_sub(1) {
                self.move_cursor(Key::Left);
            } else if c == 's' {
                self.switch_mode(Mode::Insert);
            }
        } else if c == 'd' || c == 'y' {
            let trimmed = match self.document.row(self.cursor_position.y) {
                Option::Some(row) => row.trimmed_contents(),
                Option::None => {
                    proof {
                        assert(normal_rel(*old(self), *self, c));
                    }
                    return ;
                },
            };
            self.clipboard = Option::Some(trimmed);
            if c == 'd' {
                self.doc_delete_line();
                self.move_cursor(Key::Home);
            }
        } else if c == 'p' {
            let content = match &self.clipboard {
                Option::Some(content) => content.clone(),
                Option::None => {
                    proof {
                        assert(normal_rel(*old(self), *self, c));
                    }
                    return ;
                },
            };
            self.doc_insert_line(content.as_str());
            self.move_cursor(Key::Down);
        } else if c == 'R' {
            self.switch_mode(Mode::Replace);
        } else if c == 'v' {
            self.switch_mode(Mode::Visual);
        } else if c == '/' {
            self.prompt = Option::Some(
                PromptState {
                    kind: PromptKind::Search,
                    text: Vec::new(),
                    return_to: self.cursor_position,
                    direction: SearchDirection::Forward,
                },
            );
        } else if c == ':' {
            self.prompt = Option::Some(
                PromptState {
                    kind: PromptKind::Command,
                    text: Vec::new(),
                    return_to: self.cursor_position,
                    direction: SearchDirection::Forward,
                },
            );
        } else if c == 'u' {
            self.undo();
        } else if c == 'n' {
            self.move_to_search_term(SearchDirection::Forward);
        } else if c == 'N' {
            self.move_to_search_term(SearchDirection::Backward);
        }
    }
}

/// Every character is a decimal digit.
pub open spec fn all_digits(cs: Seq<char>) -> bool {
    forall|i: int| 0 <= i < cs.len() ==> crate::text::spec_is_digit(#[trigger] cs[i])
}

/// The value of a digit string.
pub open spec fn dec_value(cs: Seq<char>) -> nat
    decreases cs.len(),
{
    if cs.len() == 0 {
        0
    } else {
        dec_value(cs.drop_last()) * 10 + (cs.last() as int - 48) as nat
    }
}

/// A digit-string value never shrinks as digits are appended.
proof fn lemma_dec_value_prefix(cs: Seq<char>, i: int)
    requires
        0 <= i <= cs.len(),
    ensures
        dec_value(cs.take(i)) <= dec_value(cs),
    decreases cs.len() - i,
{
    if i < cs.len() {
        assert(cs.take(i + 1).drop_last() =~= cs.take(i));
        assert(dec_value(cs.take(i)) <= dec_value(cs.take(i + 1))) by {
            assert(dec_value(cs.take(i + 1)) == dec_value(cs.take(i)) * 10 + (cs.take(i + 1).last()
                as int - 48) as nat);
        }
        lemma_dec_value_prefix(cs, i + 1);
    } else {
        assert(cs.take(i) =~= cs);
    }
}

/// A nonempty all-digit string whose value fits the bound, parsed; else
/// nothing.
pub open spec fn parse_bounded(cs: Seq<char>, bound: nat) -> Option<nat> {
    if cs.len() >= 1 && all_digits(cs) && dec_value(cs) <= bound {
        Option::Some(dec_value(cs))
    } else {
        Option::None
    }
}

/// A signed line offset: a sign character followed by digits whose
/// value fits the signed range.
pub open spec fn parse_offset(cs: Seq<char>) -> Option<int> {
    if cs.len() >= 2 && (cs[0] == '+' || cs[0] == '-') && all_digits(cs.skip(1)) && dec_value(
        cs.skip(1),
    ) <= i64::MAX as nat {
        if cs[0] == '-' {
            Option::Some(-(dec_value(cs.skip(1)) as int))
        } else {
            Option::Some(dec_value(cs.skip(1)) as int)
        }
    } else {
        Option::None
    }
}

/// Parse the digits of `cs` from `start` on, refusing values over
/// `bound`.
fn parse_digits(cs: &Vec<char>, start: usize, bound: u64) -> (r: Option<u64>)
    requires
        start <= cs@.len(),
    ensures
        (match parse_bounded(cs@.skip(start as int), bound as nat) {
            Option::Some(v) => r == Option::Some(v as u64),
            Option::None => r is None,
        }),
{
    let ghost tail = cs@.skip(start as int);
    if start == cs.len() {
        proof {
            assert(tail.len() == 0);
        }
        return Option::None;
    }
    let mut val: u64 = 0;
    let mut i = start;
    while i < cs.len()
        invariant
            start <= i <= cs@.len(),
            tail == cs@.skip(start as int),
            all_digits(tail.take(i - start)),
            val as nat == dec_value(tail.take(i - start)),
            val <= bound,
        decreases cs@.len() - i,
    {
        let c = cs[i];
        if !crate::text::is_digit(c) {
            proof {
                assert(tail[i - start] == cs@[i as int]);
                assert(!all_digits(tail));
            }
            return Option::None;
        }
        let d = (c as u32 - 48) as u64;
        proof {
            assert(tail.take(i - start + 1).drop_last() =~= tail.take(i - start));
            assert(tail.take(i - start + 1).last() == cs@[i as int]);
        }
        if val > bound / 10 || (val == bound / 10 && d > bound % 10) {
            proof {
                assert(val * 10 + d > bound) by (nonlinear_arith)
                    requires
                        val > bound / 10 || (val == bound / 10 && d > bound % 10),
                        d < 10,
                        bound == (bound / 10) * 10 + bound % 10,
                        bound % 10 < 10,
                ;
                assert(dec_value(tail.take(i - start + 1)) > bound);
                lemma_dec_value_prefix(tail, i - start + 1);
            }
            return Option::None;
        }
        proof {
            assert(val * 10 + d <= bound) by (nonlinear_arith)
                requires
                    !(val > bound / 10 || (val == bound / 10 && d > bound % 10)),
                    d < 10,
                    bound == (bound / 10) * 10 + bound % 10,
                    bound % 10 < 10,
            ;
        }
        val = val * 10 + d;
        i += 1;
    }
    proof {
        assert(tail.take(cs@.len() - start) =~= tail);
    }
    Option::Some(val)
}

/// A character the command scan recognizes.
pub open spec fn is_command_char(c: char) -> bool {
    c == 'w' || c == 'p' || c == 'c' || c == 'q' || c == 'e' || c == 'u' || c == '!'
}

/// A command input that is handled by the character scan: nonempty,
/// not a signed offset, not a line number.
pub open spec fn command_scan_case(cs: Seq<char>) -> bool {
    cs.len() >= 1 && !(cs[0] == '+' || cs[0] == '-') && parse_bounded(cs, usize::MAX as nat) is None
}

/// Whether a command input carries a force marker anywhere.
pub open spec fn has_force(cs: Seq<char>) -> bool {
    exists|i: int| 0 <= i < cs.len() && cs[i] == '!'
}

/// The end of the run of characters from `i` whose whitespace-ness
/// equals `white`.
pub open spec fn skip_run(cs: Seq<char>, i: int, white: bool) -> int
    decreases cs.len() - i when 0 <= i
{
    if i < 0 || i >= cs.len() {
        cs.len() as int
    } else if crate::text::spec_is_white(cs[i]) == white {
        skip_run(cs, i + 1, white)
    } else {
        i
    }
}

/// The second whitespace-separated token of a command input, if any.
pub open spec fn spec_second_token(cs: Seq<char>) -> Option<Seq<char>> {
    let a = skip_run(cs, 0, true);
    let b = skip_run(cs, a, false);
    let tok_start = skip_run(cs, b, true);
    let tok_end = skip_run(cs, tok_start, false);
    if tok_start < tok_end {
        Option::Some(cs.subrange(tok_start, tok_end))
    } else {
        Option::None
    }
}

/// The first index at or after `start` whose character's
/// whitespace-ness differs from `white`, for token scanning.
fn scan_while_white(cs: &Vec<char>, start: usize, white: bool) -> (r: usize)
    requires
        start <= cs@.len(),
    ensures
        start <= r <= cs@.len(),
        r == skip_run(cs@, start as int, white),
{
    let mut i = start;
    while i < cs.len()
        invariant
            start <= i <= cs@.len(),
            skip_run(cs@, start as int, white) == skip_run(cs@, i as int, white),
        decreases cs@.len() - i,
    {
        if crate::text::is_white(cs[i]) != white {
            return i;
        }
        proof {
            assert(skip_run(cs@, i as int, white) == skip_run(cs@, i + 1, white));
        }
        i += 1;
    }
    i
}

impl Editor {
    /// The second whitespace-separated token of a command input, as the
    /// path argument of the `c` and `e` commands.
    fn second_token(cs: &Vec<char>) -> (r: Option<String>)
        ensures
            (spec_second_token(cs@) matches Option::Some(t) ==> (r matches Option::Some(s) && s@
                == t)),
            spec_second_token(cs@) is None ==> r is None,
    {
        let t0s = scan_while_white(cs, 0, true);
        let t0e = scan_while_white(cs, t0s, false);
        let t1s = scan_while_white(cs, t0e, true);
        let t1e = scan_while_white(cs, t1s, false);
        if t1s < t1e {
            let mut tok: Vec<char> = Vec::new();
            let mut k = t1s;
            while k < t1e
                invariant
                    t1s <= k <= t1e,
                    t1e <= cs@.len(),
                    tok@ == cs@.subrange(t1s as int, k as int),
                decreases t1e - k,
            {
                tok.push(cs[k]);
                proof {
                    assert(tok@ =~= cs@.subrange(t1s as int, k + 1));
                }
                k += 1;
            }
            Option::Some(crate::text::chars_to_string(&tok))
        } else {
            Option::None
        }
    }

    /// Run one command character of a `:` input. `force` says whether
    /// the input carried a `!` anywhere; `path` is its second token.
    /// The returned flag stops the scan of the remaining characters.
    fn run_command_char(
        &mut self,
        c: char,
        force: bool,
        path: &Option<String>,
        acts: &mut Vec<Action>,
    ) -> (stop: bool)
        requires
            old(self).wf(),
        ensures
            final(self).wf(),
            old(self).spec_should_quit() ==> final(self).spec_should_quit(),
            old(self).spec_modified() && !force ==> final(self).spec_doc() == old(self).spec_doc()
                && final(self).spec_versions() == old(self).spec_versions() && final(self).spec_version_index() == old(self).spec_version_index() && final(self).spec_cursor()
                == old(self).spec_cursor() && final(self).spec_mode() == old(self).spec_mode()
                && final(self).spec_has_saved() == old(self).spec_has_saved() && final(self).spec_clipboard() == old(self).spec_clipboard() && final(self).spec_should_quit()
                == old(self).spec_should_quit(),
            c == 'w' ==> !stop && final(self).spec_doc() == old(self).spec_doc() && final(self).spec_versions() == old(self).spec_versions() && final(self).spec_version_index()
                == old(self).spec_version_index() && final(self).spec_has_saved() == old(self).spec_has_saved() && final(self).spec_mode() == old(self).spec_mode() && final(self).spec_cursor() == old(self).spec_cursor() && final(self).spec_should_quit() == old(self).spec_should_quit(),
            c == 'w' && !old(self).spec_modified() ==> final(acts)@ == old(acts)@ && final(self).spec_status_text() == "No changes to write."@,
            c == 'w' && old(self).spec_modified() && old(self).spec_doc().spec_file_name() is None
                ==> final(acts)@ == old(acts)@ && final(self).spec_prompt_active(),
            c == 'w' && old(self).spec_modified() && old(self).spec_doc().spec_file_name() is Some
                ==> final(acts)@ == old(acts)@.push(Action::WriteFile),
            c == 'p' ==> *final(self) == *old(self) && final(acts)@ == old(acts)@.push(
                Action::ShowCwd,
            ) && !stop,
            c == 'c' && path is Some ==> *final(self) == *old(self) && final(acts)@ == old(acts)@.push(Action::ChangeDir(path.unwrap())) && stop,
            c == 'c' && path is None ==> final(acts)@ == old(acts)@ && final(self).spec_status_text()
                == "ERR: No path entered"@ && !stop && *final(self) == old(self).spec_with_status(final(self).spec_status()),
            (c == 'q' || c == 'e' || c == 'u') && old(self).spec_modified() && !force ==> final(acts)@ == old(acts)@ && final(self).spec_status_text()
                == "WARNING! File has unsaved changes: add ! to override."@ && stop && *final(self) == old(self).spec_with_status(final(self).spec_status()),
            c == 'q' && !(old(self).spec_modified() && !force) ==> final(self).spec_should_quit()
                && final(acts)@ == old(acts)@ && !stop && final(self).spec_doc() == old(self).spec_doc() && final(self).spec_versions() == old(self).spec_versions() && final(self).spec_cursor() == old(self).spec_cursor(),
            c == 'e' && !(old(self).spec_modified() && !force) ==> ((path is Some ==> final(acts)@ == old(acts)@.push(Action::OpenFile(path.unwrap())) && stop && *final(self) == *old(self)) && (path is None
                ==> final(acts)@ == old(acts)@ && final(self).spec_status_text()
                == "ERR: No path entered"@ && !stop && *final(self) == old(self).spec_with_status(final(self).spec_status()))),
            c == 'u' && !(old(self).spec_modified() && !force) ==> final(acts)@ == old(acts)@
                && !stop && (old(self).spec_version_index() > 0 ==> undo_rel(*old(self), *final(self))) && (old(self).spec_version_index() == 0 ==> *final(self) == old(self).spec_with_status(final(self).spec_status()) && final(self).spec_status_text() == "Already at oldest change"@),
            c == '!' ==> *final(self) == *old(self) && final(acts)@ == old(acts)@ && !stop,
            !(c == 'w' || c == 'p' || c == 'c' || c == 'q' || c == 'e' || c == 'u' || c == '!')
                ==> final(acts)@ == old(acts)@ && final(self).spec_status_text()
                == "Command not found: "@ + seq![c] && !stop && *final(self) == old(self).spec_with_status(final(self).spec_status()),
    {
        if c == 'w' {
            match self.save() {
                Option::Some(a) => {
                    acts.push(a);
                },
                Option::None => {},
            }
            false
        } else if c == 'p' {
            acts.push(Action::ShowCwd);
            false
        } else if c == 'c' {
            match path {
                Option::Some(p) => {
                    acts.push(Action::ChangeDir(p.clone()));
                    true
                },
                Option::None => {
                    self.set_status(String::from_str("ERR: No path entered"));
                    false
                },
            }
        } else if c == 'q' || c == 'e' || c == 'u' {
            let dirty = self.contains_changes();
            if dirty && !force {
                self.set_status(
                    String::from_str("WARNING! File has unsaved changes: add ! to override."),
                );
                return true;
            }
            if c == 'q' {
                self.should_quit = true;
                false
            } else if c == 'e' {
                match path {
                    Option::Some(p) => {
                        acts.push(Action::OpenFile(p.clone()));
                        true
                    },
                    Option::None => {
                        self.set_status(String::from_str("ERR: No path entered"));
                        false
                    },
                }
            } else {
                self.undo();
                false
            }
        } else if c == '!' {
            false
        } else {
            let mut out: Vec<char> = Vec::new();
            crate::text::push_str_chars(&mut out, "Command not found: ");
            out.push(c);
            let msg = crate::text::chars_to_string(&out);
            self.set_status(msg);
            false
        }
    }

    /// Interpret a finished `:` command-line input: a signed offset or a
    /// one-based line number moves the cursor; anything else is scanned
    /// character by character as commands.
    pub fn execute_command(&mut self, input: String) -> (acts: Vec<Action>)
        requires
            old(self).wf(),
        ensures
            final(self).wf(),
            input@.len() == 0 ==> *final(self) == *old(self) && acts@ == Seq::<Action>::empty(),
            command_scan_case(input@) && (input@[0] == 'q' || input@[0] == 'e' || input@[0] == 'u')
                && old(self).spec_modified() && !has_force(input@) ==> *final(self) == old(self).spec_with_status(final(self).spec_status()) && final(self).spec_status_text()
                == "WARNING! File has unsaved changes: add ! to override."@ && acts@ == Seq::<
                Action,
            >::empty(),
            command_scan_case(input@) && input@[0] == 'q' && !(old(self).spec_modified()
                && !has_force(input@)) ==> final(self).spec_should_quit(),
            command_scan_case(input@) && input@.len() == 1 && !(input@[0] == 'w' || input@[0]
                == 'p' || input@[0] == 'c' || input@[0] == 'q' || input@[0] == 'e' || input@[0]
                == 'u' || input@[0] == '!') ==> *final(self) == old(self).spec_with_status(final(self).spec_status()) && final(self).spec_status_text() == "Command not found: "@ + seq![
                input@[0],
            ] && acts@ == Seq::<Action>::empty(),
            command_scan_case(input@) && input@.len() == 1 && input@[0] == 'p' ==> *final(self)
                == *old(self) && acts@ == seq![Action::ShowCwd],
            command_scan_case(input@) && input@.len() == 1 && input@[0] == 'w' ==> final(self).spec_doc() == old(self).spec_doc() && final(self).spec_versions() == old(self).spec_versions() && final(self).spec_should_quit() == old(self).spec_should_quit() && (
            !old(self).spec_modified() ==> acts@ == Seq::<Action>::empty() && final(self).spec_status_text() == "No changes to write."@) && (old(self).spec_modified() && old(self).spec_doc().spec_file_name() is None ==> acts@ == Seq::<Action>::empty() && final(self).spec_prompt_active()) && (old(self).spec_modified() && old(self).spec_doc().spec_file_name() is Some ==> acts@ == seq![Action::WriteFile]),
            command_scan_case(input@) && input@[0] == 'c' && spec_second_token(input@) is Some ==> *final(self) == *old(self) && (exists|s: String|
                acts@ == seq![Action::ChangeDir(s)] && s@ == spec_second_token(input@).unwrap()),
            command_scan_case(input@) && input@[0] == 'e' && !(old(self).spec_modified()
                && !has_force(input@)) && spec_second_token(input@) is Some ==> *final(self)
                == *old(self) && (exists|s: String|
                acts@ == seq![Action::OpenFile(s)] && s@ == spec_second_token(input@).unwrap()),
            command_scan_case(input@) && input@.len() == 1 && input@[0] == 'u' && !(old(self).spec_modified() && !has_force(input@)) ==> acts@ == Seq::<Action>::empty() && (old(self).spec_version_index() == 0 ==> *final(self) == old(self).spec_with_status(final(self).spec_status()) && final(self).spec_status_text() == "Already at oldest change"@) && (old(self).spec_version_index() > 0 ==> undo_rel(*old(self), *final(self))),
            command_scan_case(input@) && old(self).spec_modified() && !has_force(input@) ==> final(self).spec_doc() == old(self).spec_doc() && final(self).spec_versions() == old(self).spec_versions() && final(self).spec_version_index() == old(self).spec_version_index()
                && final(self).spec_cursor() == old(self).spec_cursor() && final(self).spec_mode()
                == old(self).spec_mode() && final(self).spec_has_saved() == old(self).spec_has_saved() && final(self).spec_clipboard() == old(self).spec_clipboard() && final(self).spec_should_quit() == old(self).spec_should_quit(),
            command_scan_case(input@) && input@.len() >= 2 && (input@[0] == 'w'
                || !is_command_char(input@[0])) && input@[1] == 'q' && !(old(self).spec_modified()
                && !has_force(input@)) ==> final(self).spec_should_quit(),
            command_scan_case(input@) && (forall|i: int|
                0 <= i < input@.len() ==> !is_command_char(#[trigger] input@[i])) ==> *final(self)
                == old(self).spec_with_status(final(self).spec_status()) && final(self).spec_status_text() == "Command not found: "@ + seq![input@[input@.len() - 1]] && acts@
                == Seq::<Action>::empty(),
            parse_offset(input@) is Some ==> ({
                let n = parse_offset(input@).unwrap();
                let target = if old(self).spec_cursor().y + n < 0 {
                    0int
                } else if old(self).spec_cursor().y + n > usize::MAX {
                    usize::MAX as int
                } else {
                    old(self).spec_cursor().y + n
                };
                *final(self) == old(self).with_cursor(
                    spec_readjust(
                        CursorPosition { x: 0, y: target as usize, max_x: 0 },
                        old(self).spec_doc().line_lens(),
                    ),
                ) && acts@.len() == 0
            }),
            (input@.len() >= 1 && !(input@[0] == '+' || input@[0] == '-') && parse_bounded(
                input@,
                usize::MAX as nat,
            ) is Some) ==> ({
                let n = parse_bounded(input@, usize::MAX as nat).unwrap();
                *final(self) == old(self).with_cursor(
                    spec_readjust(
                        CursorPosition { x: 0, y: spec_sat_sub(n as int, 1) as usize, max_x: 0 },
                        old(self).spec_doc().line_lens(),
                    ),
                ) && acts@.len() == 0
            }),
            (input@.len() >= 1 && (input@[0] == '+' || input@[0] == '-') && parse_offset(
                input@,
            ) is None) ==> final(self).spec_status_text() == "Invalid offset: "@ + input@
                && acts@.len() == 0,
    {
        let cs = crate::text::str_chars(input.as_str());
        let mut acts: Vec<Action> = Vec::new();
        if cs.len() >= 1 && (cs[0] == '+' || cs[0] == '-') {
            let parsed = parse_digits(&cs, 1, i64::MAX as u64);
            let valid = cs.len() >= 2 && parsed.is_some();
            proof {
                assert(cs@.skip(1).len() == cs@.len() - 1);
                if valid {
                    assert(parse_offset(cs@) is Some);
                } else {
                    assert(parse_offset(cs@) is None);
                }
            }
            match parsed {
                Option::Some(mag) if cs.len() >= 2 => {
                    let y0 = self.cursor_position.y;
                    let target: usize = if cs[0] == '-' {
                        if (y0 as u64) >= mag {
                            (y0 as u64 - mag) as usize
                        } else {
                            0
                        }
                    } else {
                        if mag <= (usize::MAX as u64) - (y0 as u64) {
                            (y0 as u64 + mag) as usize
                        } else {
                            usize::MAX
                        }
                    };
                    self.cursor_position = CursorPosition { x: 0, y: target, max_x: 0 };
                    self.readjust_cursor();
                },
                _ => {
                    let mut out: Vec<char> = Vec::new();
                    crate::text::push_str_chars(&mut out, "Invalid offset: ");
                    crate::text::push_str_chars(&mut out, input.as_str());
                    let msg = crate::text::chars_to_string(&out);
                    self.set_status(msg);
                },
            }
            return acts;
        }
        if cs.len() >= 1 {
            match parse_digits(&cs, 0, usize::MAX as u64) {
                Option::Some(n) => {
                    proof {
                        assert(cs@.skip(0) =~= cs@);
                    }
                    let y = (n as usize).saturating_sub(1);
                    self.cursor_position = CursorPosition { x: 0, y, max_x: 0 };
                    self.readjust_cursor();
                    return acts;
                },
                Option::None => {
                    proof {
                        assert(cs@.skip(0) =~= cs@);
                    }
                },
            }
        }
        if cs.len() == 0 {
            return acts;
        }
        let mut force = false;
        let mut k: usize = 0;
        while k < cs.len()
            invariant
                k <= cs@.len(),
                force == (exists|i: int| 0 <= i < k && cs@[i] == '!'),
            decreases cs@.len() - k,
        {
            if cs[k] == '!' {
                force = true;
            } else {
                proof {
                    if exists|i: int| 0 <= i < k + 1 && cs@[i] == '!' {
                        let i = choose|i: int| 0 <= i < k + 1 && cs@[i] == '!';
                        assert(0 <= i < k && cs@[i] == '!');
                    }
                }
            }
            k += 1;
        }
        proof {
            assert(force == has_force(cs@));
        }
        let path = Editor::second_token(&cs);
        let ghost quit_set = cs@[0] == 'q' && !(old(self).spec_modified() && !has_force(cs@));
        let ghost guard_all = old(self).spec_modified() && !has_force(cs@);
        let ghost wq_case = cs@.len() >= 2 && (cs@[0] == 'w' || !is_command_char(cs@[0]))
            && cs@[1] == 'q' && !guard_all;
        let ghost all_unknown = forall|i: int|
            0 <= i < cs@.len() ==> !is_command_char(#[trigger] cs@[i]);
        let stop0 = self.run_command_char(cs[0], force, &path, &mut acts);
        if stop0 {
            return acts;
        }
        if cs.len() > 1 {
            let mut k: usize = 1;
            while k < cs.len()
                invariant
                    1 <= k <= cs@.len(),
                    self.wf(),
                    quit_set ==> self.spec_should_quit(),
                    guard_all ==> self.spec_doc() == old(self).spec_doc() && self.spec_versions()
                        == old(self).spec_versions() && self.spec_version_index() == old(self).spec_version_index() && self.spec_cursor() == old(self).spec_cursor()
                        && self.spec_mode() == old(self).spec_mode() && self.spec_has_saved()
                        == old(self).spec_has_saved() && self.spec_clipboard() == old(self).spec_clipboard() && self.spec_should_quit() == old(self).spec_should_quit(),
                    wq_case && k == 1 ==> self.spec_versions() == old(self).spec_versions()
                        && self.spec_version_index() == old(self).spec_version_index()
                        && self.spec_has_saved() == old(self).spec_has_saved(),
                    wq_case && k >= 2 ==> self.spec_should_quit(),
                    all_unknown ==> *self == old(self).spec_with_status(self.spec_status())
                        && acts@ == Seq::<Action>::empty() && self.spec_status_text()
                        == "Command not found: "@ + seq![cs@[k - 1]],
                decreases cs@.len() - k,
            {
                let ghost before = *self;
                let stop = self.run_command_char(cs[k], force, &path, &mut acts);
                proof {
                    if all_unknown {
                        assert(!is_command_char(cs@[k as int]));
                        assert(*self == before.spec_with_status(self.spec_status()));
                        assert(*self == old(self).spec_with_status(self.spec_status()));
                    }
                }
                if stop {
                    return acts;
                }
                k += 1;
            }
        }
        acts
    }
}

/// A control character: one the prompt refuses to take in.
pub open spec fn spec_is_control(c: char) -> bool {
    (c as int) < 32 || (127 <= c as int <= 159)
}

/// Executable counterpart of [`spec_is_control`].
#[verifier::when_used_as_spec(spec_is_control)]
fn is_control(c: char) -> (r: bool)
    ensures
        r == spec_is_control(c),
{
    let u = c as u32;
    u < 32 || (127 <= u && u <= 159)
}

/// An ASCII letter, as the count prefix's notion of a command letter.
pub open spec fn spec_is_letter(c: char) -> bool {
    (65 <= c as int <= 90) || (97 <= c as int <= 122)
}

/// Executable counterpart of [`spec_is_letter`].
#[verifier::when_used_as_spec(spec_is_letter)]
fn is_letter(c: char) -> (r: bool)
    ensures
        r == spec_is_letter(c),
{
    let u = c as u32;
    (65 <= u && u <= 90) || (97 <= u && u <= 122)
}

/// The direction an arrow key picks while the search prompt is open.
pub open spec fn callback_dir(key: Key) -> SearchDirection {
    if key == Key::Left || key == Key::Up {
        SearchDirection::Backward
    } else {
        SearchDirection::Forward
    }
}

/// Whether a search-prompt key steps the cursor right before searching.
pub open spec fn callback_moved(key: Key) -> bool {
    key == Key::Right || key == Key::Down
}

/// Where the incremental search sets off from.
pub open spec fn callback_start(
    cursor: CursorPosition,
    mode: Mode,
    lens: Seq<int>,
    h: int,
    moved: bool,
) -> CursorPosition {
    if moved {
        spec_move_cursor(cursor, mode, lens, h, Key::Right)
    } else {
        cursor
    }
}

/// Where the cursor lands when the incremental search finds nothing.
pub open spec fn callback_fallback(
    cur1: CursorPosition,
    mode: Mode,
    lens: Seq<int>,
    h: int,
    moved: bool,
) -> CursorPosition {
    if moved {
        spec_move_cursor(cur1, mode, lens, h, Key::Left)
    } else {
        cur1
    }
}

/// `n` normal-mode applications of the command `c` in sequence; the
/// chain stops early if a step leaves normal mode.
pub open spec fn repeat_normal_rel(pre: Editor, post: Editor, c: char, n: int) -> bool
    decreases n when n >= 0
{
    if n <= 0 {
        post == pre
    } else if pre.spec_mode() != Mode::Normal {
        post == pre
    } else {
        exists|mid: Editor|
            mid.wf() && #[trigger] normal_rel(pre, mid, c) && repeat_normal_rel(mid, post, c, n - 1)
    }
}

/// A state outside normal mode repeats to itself.
proof fn lemma_repeat_stuck(q: Editor, c: char, n: int)
    requires
        n >= 0,
        q.spec_mode() != Mode::Normal,
    ensures
        repeat_normal_rel(q, q, c, n),
    decreases n,
{
    if n > 0 {
    }
}

/// Repetition chains compose.
proof fn lemma_repeat_trans(a: Editor, b: Editor, d: Editor, c: char, k: int, m: int)
    requires
        k >= 0,
        m >= 0,
        repeat_normal_rel(a, b, c, k),
        repeat_normal_rel(b, d, c, m),
    ensures
        repeat_normal_rel(a, d, c, k + m),
    decreases k,
{
    if k <= 0 {
        assert(b == a);
    } else if a.spec_mode() != Mode::Normal {
        assert(b == a);
        assert(repeat_normal_rel(a, d, c, k + m)) by {
            lemma_repeat_stuck(a, c, k + m);
            assert(d == a || repeat_normal_rel(a, d, c, m));
            if m <= 0 {
                assert(d == b);
                lemma_repeat_stuck(a, c, k + m);
            } else {
                assert(repeat_normal_rel(b, d, c, m));
                assert(d == b);
                lemma_repeat_stuck(a, c, k + m);
            }
        }
    } else {
        let mid = choose|mid: Editor|
            mid.wf() && #[trigger] normal_rel(a, mid, c) && repeat_normal_rel(mid, b, c, k - 1);
        lemma_repeat_trans(mid, b, d, c, k - 1, m);
    }
}

impl Editor {
    /// React to one key while a prompt is reading: printable characters
    /// accumulate, backspace drops the last one (or aborts when there is
    /// nothing left), enter submits, escape cancels; a search prompt
    /// additionally navigates between occurrences on arrow keys.
    fn prompt_key(&mut self, key: Key) -> (acts: Vec<Action>)
        requires
            old(self).wf(),
            old(self).spec_prompt() is Some,
        ensures
            final(self).wf(),
            (key == Key::Esc || (key == Key::Backspace && old(self).spec_prompt().unwrap().text@.len() == 0)) ==> final(self).spec_prompt() is None && final(self).spec_doc() == old(self).spec_doc() && final(self).spec_versions() == old(self).spec_versions()
                && final(self).spec_version_index() == old(self).spec_version_index() && final(self).spec_has_saved() == old(self).spec_has_saved() && final(self).spec_mode() == old(self).spec_mode() && final(self).spec_clipboard() == old(self).spec_clipboard()
                && final(self).spec_should_quit() == old(self).spec_should_quit() && acts@ == Seq::<Action>::empty(),
            (key == Key::Esc || (key == Key::Backspace && old(self).spec_prompt().unwrap().text@.len() == 0)) && old(self).spec_prompt().unwrap().kind != PromptKind::Search ==> final(self).spec_cursor() == old(self).spec_cursor(),
            key == Key::Char('\n') && old(self).spec_prompt().unwrap().kind != PromptKind::Command
                ==> final(self).spec_prompt() is None,
            (key matches Key::Char(c) && c != '\n' && !spec_is_control(c)) ==> (final(self).spec_prompt() matches Option::Some(p) && p.kind == old(self).spec_prompt().unwrap().kind && p.return_to == old(self).spec_prompt().unwrap().return_to && p.text@ == old(self).spec_prompt().unwrap().text@.push(key->Char_0)),
            (key matches Key::Char(c) && c != '\n' && spec_is_control(c)) ==> (final(self).spec_prompt() matches Option::Some(p) && p.kind == old(self).spec_prompt().unwrap().kind && p.return_to == old(self).spec_prompt().unwrap().return_to && p.text@ == old(self).spec_prompt().unwrap().text@),
            key == Key::Backspace && old(self).spec_prompt().unwrap().text@.len() > 0 ==> (final(self).spec_prompt() matches Option::Some(p) && p.kind == old(self).spec_prompt().unwrap().kind && p.return_to == old(self).spec_prompt().unwrap().return_to && p.text@ == old(self).spec_prompt().unwrap().text@.drop_last()),
            (!(key is Char) && key != Key::Backspace && key != Key::Esc) ==> (final(self).spec_prompt() matches Option::Some(p) && p.kind == old(self).spec_prompt().unwrap().kind && p.return_to == old(self).spec_prompt().unwrap().return_to && p.text@ == old(self).spec_prompt().unwrap().text@),
            !(key == Key::Char('\n') && old(self).spec_prompt().unwrap().kind == PromptKind::Command) ==> final(self).spec_doc().content() == old(self).spec_doc().content() && final(self).spec_versions() == old(self).spec_versions()
                && final(self).spec_version_index() == old(self).spec_version_index() && final(self).spec_mode() == old(self).spec_mode() && final(self).spec_should_quit() == old(self).spec_should_quit(),
            key == Key::Char('\n') && old(self).spec_prompt().unwrap().kind == PromptKind::Search
                && old(self).spec_prompt().unwrap().text@.len() > 0 ==> (final(self).spec_query()
                matches Option::Some(q) && q@ == old(self).spec_prompt().unwrap().text@) && final(self).spec_highlighted_word() is None,
            key == Key::Char('\n') && old(self).spec_prompt().unwrap().kind == PromptKind::SaveAs
                && old(self).spec_prompt().unwrap().text@.len() > 0 ==> (final(self).spec_doc().spec_file_name() matches Option::Some(n) && n@ == old(self).spec_prompt().unwrap().text@) && acts@ == seq![Action::WriteFile],
            (key == Key::Esc || (key == Key::Backspace && old(self).spec_prompt().unwrap().text@.len() == 0)) && old(self).spec_prompt().unwrap().kind == PromptKind::SaveAs ==> final(self).spec_status_text() == "Save aborted."@,
            (key == Key::Esc || (key == Key::Backspace && old(self).spec_prompt().unwrap().text@.len() == 0)) && old(self).spec_prompt().unwrap().kind == PromptKind::Search ==> final(self).spec_query() is None && final(self).spec_highlighted_word() is None && final(self).spec_cursor() == old(self).spec_prompt().unwrap().return_to,
    {
        let (kind, return_to, old_dir) = match &self.prompt {
            Option::Some(p) => (p.kind, p.return_to, p.direction),
            Option::None => {
                return Vec::new();
            },
        };
        let mut text: Vec<char> = match &self.prompt {
            Option::Some(p) => copy_prompt_chars(&p.text),
            Option::None => Vec::new(),
        };
        let ghost text0 = text@;
        let mut finished = false;
        match key {
            Key::Backspace => {
                if text.len() == 0 {
                    finished = true;
                } else {
                    text.pop();
                }
            },
            Key::Char(c) => {
                if c == '\n' {
                    finished = true;
                } else if !is_control(c) {
                    text.push(c);
                }
            },
            Key::Esc => {
                text.clear();
                finished = true;
            },
            _ => {},
        }
        if !finished {
            let kept = copy_prompt_chars(&text);
            self.prompt = Option::Some(
                PromptState { kind, text: kept, return_to, direction: old_dir },
            );
            if matches!(kind, PromptKind::Search) {
                self.search_callback(key, &text);
            }
            Vec::new()
        } else {
            self.prompt = Option::None;
            if text.len() == 0 {
                match kind {
                    PromptKind::SaveAs => {
                        self.set_status(String::from_str("Save aborted."));
                        proof {
                            assert(self.spec_query() == old(self).spec_query());
                        }
                    },
                    PromptKind::Search => {
                        self.query = Option::None;
                        self.cursor_position = return_to;
                        self.scroll();
                        self.highlighted_word = Option::None;
                    },
                    PromptKind::Command => {},
                }
                Vec::new()
            } else {
                let entered = crate::text::chars_to_string(&text);
                match kind {
                    PromptKind::SaveAs => {
                        self.document.set_file_name(Option::Some(entered));
                        let mut acts: Vec<Action> = Vec::new();
                        acts.push(Action::WriteFile);
                        proof {
                            assert(acts@ =~= seq![Action::WriteFile]);
                        }
                        acts
                    },
                    PromptKind::Search => {
                        self.query = Option::Some(entered);
                        self.highlighted_word = Option::None;
                        Vec::new()
                    },
                    PromptKind::Command => self.execute_command(entered),
                }
            }
        }
    }

    /// Navigate while the search prompt is open: arrows pick the
    /// direction, the buffer is searched from the cursor, and the
    /// current text is emphasized everywhere it occurs.
    #[verifier::rlimit(60)]
    #[verifier::spinoff_prover]
    fn search_callback(&mut self, key: Key, text: &Vec<char>)
        requires
            old(self).wf(),
        ensures
            final(self).wf(),
            final(self).spec_doc() == old(self).spec_doc(),
            final(self).spec_versions() == old(self).spec_versions(),
            final(self).spec_version_index() == old(self).spec_version_index(),
            final(self).spec_mode() == old(self).spec_mode(),
            final(self).spec_prompt() == old(self).spec_prompt(),
            final(self).spec_should_quit() == old(self).spec_should_quit(),
            final(self).spec_has_saved() == old(self).spec_has_saved(),
            final(self).spec_clipboard() == old(self).spec_clipboard(),
            final(self).spec_query() == old(self).spec_query(),
            (final(self).spec_highlighted_word() matches Option::Some(w) && w@ == text@),
            text@.len() > 0 ==> ({
                let dir = callback_dir(key);
                let moved = callback_moved(key);
                let lens = crate::document::content_lens(old(self).spec_doc().content());
                let h = old(self).spec_size().height as int;
                let cur1 = callback_start(
                    old(self).spec_cursor(),
                    old(self).spec_mode(),
                    lens,
                    h,
                    moved,
                );
                let at = Position { x: cur1.x, y: cur1.y };
                let hit = at.y < old(self).spec_doc().content().len() && ((dir
                    == SearchDirection::Forward && (exists|x: int, y: int|
                    old(self).spec_doc().fwd_hit(text@, at, x, y))) || (dir
                    == SearchDirection::Backward && (exists|x: int, y: int|
                    old(self).spec_doc().back_hit(text@, at, x, y))));
                &&& (hit && dir == SearchDirection::Forward ==> old(self).spec_doc().fwd_hit(
                    text@,
                    at,
                    final(self).spec_cursor().x as int,
                    final(self).spec_cursor().y as int,
                ))
                &&& (hit && dir == SearchDirection::Backward ==> old(self).spec_doc().back_hit(
                    text@,
                    at,
                    final(self).spec_cursor().x as int,
                    final(self).spec_cursor().y as int,
                ))
                &&& (hit && dir == SearchDirection::Forward ==> (forall|x: int, y: int|
                    #[trigger] old(self).spec_doc().fwd_hit(text@, at, x, y) && (y < final(self).spec_cursor().y as int || (y == final(self).spec_cursor().y as int && x < final(self).spec_cursor().x as int)) ==> false))
                &&& (hit && dir == SearchDirection::Backward ==> (forall|x: int, y: int|
                    #[trigger] old(self).spec_doc().back_hit(text@, at, x, y) && (y > final(self).spec_cursor().y as int || (y == final(self).spec_cursor().y as int && x > final(self).spec_cursor().x as int)) ==> false))
                &&& (!hit ==> final(self).spec_cursor() == callback_fallback(
                    cur1,
                    old(self).spec_mode(),
                    lens,
                    h,
                    moved,
                ))
            }),
    {
        let mut direction = SearchDirection::Forward;
        let mut moved = false;
        match key {
            Key::Right | Key::Down => {
                self.move_cursor(Key::Right);
                moved = true;
            },
            Key::Left | Key::Up => {
                direction = SearchDirection::Backward;
            },
            _ => {},
        }
        if text.len() > 0 {
            let q = crate::text::chars_to_string(text);
            let at = Position { x: self.cursor_position.x, y: self.cursor_position.y };
            match self.document.find(q.as_str(), &at, direction) {
                Option::Some(pos) => {
                    self.cursor_position = CursorPosition { x: pos.x, y: pos.y, max_x: 0 };
                    self.scroll();
                },
                Option::None => {
                    if moved {
                        self.move_cursor(Key::Left);
                    }
                },
            }
            self.highlighted_word = Option::Some(crate::text::chars_to_string(text));
        } else {
            self.highlighted_word = Option::Some(crate::text::chars_to_string(text));
        }
    }

    /// Feed accumulated count-prefix state one key: digits extend the
    /// count, a command letter repeats that command that many times,
    /// and `r`/`s` or anything else ends the accumulation without
    /// repeating. An overflowed count repeats nothing.
    fn count_key(&mut self, key: Key, count: CountState)
        requires
            old(self).wf(),
            old(self).spec_mode() == Mode::Normal,
        ensures
            final(self).wf(),
            (key matches Key::Char(c) && crate::text::spec_is_digit(c)) ==> ({
                let d = (key->Char_0 as int - 48) as u64;
                let fits = count.value as int <= (MAX_REPEAT as int - d) / 10;
                final(self).spec_pending_count() == Option::Some(
                    CountState {
                        value: if fits {
                            (count.value * 10 + d) as u64
                        } else {
                            count.value
                        },
                        overflowed: count.overflowed || !fits,
                    },
                ) && final(self).spec_doc() == old(self).spec_doc() && final(self).spec_cursor()
                    == old(self).spec_cursor() && final(self).spec_versions() == old(self).spec_versions()
            }),
            (key matches Key::Char(c) && spec_is_letter(c) && c != 'r' && c != 's'
                && !count.overflowed) ==> (exists|start: Editor|
                start.wf() && start.spec_pending_count() is None && start.spec_status_text()
                    == Seq::<char>::empty() && start.spec_doc() == old(self).spec_doc()
                    && start.spec_cursor() == old(self).spec_cursor() && start.spec_versions()
                    == old(self).spec_versions() && start.spec_mode() == Mode::Normal
                    && #[trigger] repeat_normal_rel(
                    start,
                    *final(self),
                    key->Char_0,
                    count.value as int,
                )),
            (key matches Key::Char(c) && spec_is_letter(c) && (c == 'r' || c == 's'
                || count.overflowed)) ==> final(self).spec_doc() == old(self).spec_doc() && final(self).spec_cursor() == old(self).spec_cursor() && final(self).spec_versions()
                == old(self).spec_versions() && final(self).spec_pending_count() is None
                && final(self).spec_status_text() == Seq::<char>::empty(),
            (!(key matches Key::Char(c) && (crate::text::spec_is_digit(c) || spec_is_letter(c))))
                ==> final(self).spec_doc() == old(self).spec_doc() && final(self).spec_cursor()
                == old(self).spec_cursor() && final(self).spec_versions() == old(self).spec_versions() && final(self).spec_pending_count() is None && final(self).spec_status_text() == Seq::<char>::empty(),
    {
        self.pending_count = Option::None;
        match key {
            Key::Char(c) => {
                if crate::text::is_digit(c) {
                    let d = (c as u32 - 48) as u64;
                    let value = if count.value <= (MAX_REPEAT - d) / 10 {
                        count.value * 10 + d
                    } else {
                        count.value
                    };
                    let overflowed = count.overflowed || count.value > (MAX_REPEAT - d) / 10;
                    self.pending_count = Option::Some(CountState { value, overflowed });
                    let ds = crate::text::decimal_chars(value);
                    let msg = crate::text::chars_to_string(&ds);
                    self.set_status(msg);
                } else if is_letter(c) {
                    self.set_status(String::new());
                    if c == 'r' || c == 's' {
                        return ;
                    }
                    if count.overflowed {
                        return ;
                    }
                    let ghost start = *self;
                    let mut k: u64 = 0;
                    while k < count.value
                        invariant
                            k <= count.value,
                            self.wf(),
                            repeat_normal_rel(start, *self, c, k as int),
                        decreases count.value - k,
                    {
                        let ghost before = *self;
                        if !(matches!(self.mode, Mode::Normal)) {
                            proof {
                                lemma_repeat_stuck(*self, c, count.value - k);
                                lemma_repeat_trans(
                                    start,
                                    *self,
                                    *self,
                                    c,
                                    k as int,
                                    count.value - k,
                                );
                            }
                            return ;
                        }
                        self.normal_mode(c);
                        proof {
                            assert(repeat_normal_rel(before, *self, c, 1)) by {
                                assert(normal_rel(before, *self, c));
                                assert(repeat_normal_rel(*self, *self, c, 0));
                            }
                            lemma_repeat_trans(start, before, *self, c, k as int, 1);
                        }
                        k += 1;
                    }
                } else {
                    self.set_status(String::new());
                }
            },
            _ => {
                self.set_status(String::new());
            },
        }
    }

    /// Record the visual-mode anchor and delegate one motion or
    /// operator key to the normal-mode table, returning to visual mode
    /// afterwards. No selection span is computed.
    pub fn visual_mode(&mut self, c: char)
        requires
            old(self).wf(),
            old(self).spec_mode() == Mode::Visual,
        ensures
            final(self).wf(),
            final(self).spec_selection() == (Position {
                x: old(self).spec_cursor().x,
                y: old(self).spec_cursor().y,
            }),
            final(self).spec_mode() == Mode::Visual,
            (c == 'h' || c == 'j' || c == 'k' || c == 'l' || c == 'c' || c == 'd' || c == 'y')
                ==> (exists|mid: Editor, done: Editor|
                mid.wf() && mid.spec_mode() == Mode::Normal && mid.spec_doc().content() == old(self).spec_doc().content() && mid.spec_versions() == old(self).spec_versions()
                    && mid.spec_version_index() == old(self).spec_version_index()
                    && mid.spec_clipboard() == old(self).spec_clipboard() && mid.spec_cursor()
                    == spec_move_cursor(
                    old(self).spec_cursor(),
                    Mode::Normal,
                    crate::document::content_lens(old(self).spec_doc().content()),
                    old(self).spec_size().height as int,
                    Key::Left,
                ) && #[trigger] normal_rel(mid, done, c) && *final(self) == done.spec_with_mode(
                    Mode::Visual,
                )),
            !(c == 'h' || c == 'j' || c == 'k' || c == 'l' || c == 'c' || c == 'd' || c == 'y')
                ==> final(self).spec_doc().content() == old(self).spec_doc().content() && final(self).spec_versions() == old(self).spec_versions() && final(self).spec_cursor()
                == spec_move_cursor(
                old(self).spec_cursor(),
                Mode::Normal,
                crate::document::content_lens(old(self).spec_doc().content()),
                old(self).spec_size().height as int,
                Key::Left,
            ) && final(self).spec_clipboard() == old(self).spec_clipboard(),
    {
        self.selection_start = Position { x: self.cursor_position.x, y: self.cursor_position.y };
        self.switch_mode(Mode::Normal);
        let ghost mid = *self;
        if c == 'h' || c == 'j' || c == 'k' || c == 'l' || c == 'c' || c == 'd' || c == 'y' {
            if matches!(self.mode, Mode::Normal) {
                self.normal_mode(c);
            }
        }
        let ghost done = *self;
        self.switch_mode(Mode::Visual);
        proof {
            if c == 'h' || c == 'j' || c == 'k' || c == 'l' || c == 'c' || c == 'd' || c == 'y' {
                assert(normal_rel(mid, done, c));
                assert(*self == done.spec_with_mode(Mode::Visual));
            }
        }
    }

    /// Dispatch one key event: prompts and pending states take it
    /// first, then the current mode's table; the viewport follows the
    /// cursor afterwards.
    pub fn process_keypress(&mut self, key: Key) -> (acts: Vec<Action>)
        requires
            old(self).wf(),
        ensures
            final(self).wf(),
            old(self).spec_prompt_active() && (key == Key::Esc || (key == Key::Backspace && old(self).spec_prompt().unwrap().text@.len() == 0)) ==> final(self).spec_prompt() is None
                && final(self).spec_doc() == old(self).spec_doc() && final(self).spec_versions()
                == old(self).spec_versions() && final(self).spec_version_index() == old(self).spec_version_index() && final(self).spec_has_saved() == old(self).spec_has_saved()
                && final(self).spec_mode() == old(self).spec_mode() && final(self).spec_clipboard()
                == old(self).spec_clipboard() && final(self).spec_should_quit() == old(self).spec_should_quit() && acts@ == Seq::<Action>::empty(),
            old(self).spec_prompt_active() && (key == Key::Esc || (key == Key::Backspace && old(self).spec_prompt().unwrap().text@.len() == 0)) && old(self).spec_prompt().unwrap().kind
                != PromptKind::Search ==> final(self).spec_cursor() == old(self).spec_cursor(),
            old(self).spec_prompt_active() && (key == Key::Esc || (key == Key::Backspace && old(self).spec_prompt().unwrap().text@.len() == 0)) && old(self).spec_prompt().unwrap().kind
                == PromptKind::Search ==> final(self).spec_cursor() == old(self).spec_prompt().unwrap().return_to && final(self).spec_query() is None,
            old(self).spec_prompt_active() && (key matches Key::Char(c) && c != '\n'
                && !spec_is_control(c)) ==> (final(self).spec_prompt() matches Option::Some(p)
                && p.kind == old(self).spec_prompt().unwrap().kind && p.text@ == old(self).spec_prompt().unwrap().text@.push(key->Char_0)),
            old(self).spec_prompt_active() && key == Key::Backspace && old(self).spec_prompt().unwrap().text@.len() > 0 ==> (final(self).spec_prompt() matches Option::Some(p) && p.text@
                == old(self).spec_prompt().unwrap().text@.drop_last()),
            old(self).spec_prompt_active() && !(key == Key::Char('\n') && old(self).spec_prompt().unwrap().kind == PromptKind::Command) ==> final(self).spec_doc().content()
                == old(self).spec_doc().content() && final(self).spec_versions() == old(self).spec_versions() && final(self).spec_version_index() == old(self).spec_version_index()
                && final(self).spec_mode() == old(self).spec_mode() && final(self).spec_should_quit() == old(self).spec_should_quit(),
            !old(self).spec_prompt_active() && old(self).spec_pending_replace() ==> !final(self).spec_pending_replace() && ((key matches Key::Char(c)) ==> final(self).spec_doc().content() == doc_replace_content(
                old(self).spec_doc().content(),
                old(self).spec_cursor(),
                key->Char_0,
            )) && ((key matches Key::Char(c)) && old(self).spec_mode() != Mode::Insert ==> final(self).spec_version_index() == old(self).spec_version_index() + 1) && (!(key is Char)
                ==> final(self).spec_doc().content() == old(self).spec_doc().content() && final(self).spec_versions() == old(self).spec_versions()),
            !old(self).spec_prompt_active() && !old(self).spec_pending_replace() && old(self).spec_pending_count() is Some && old(self).spec_mode() == Mode::Normal ==> ({
                let cnt = old(self).spec_pending_count().unwrap();
                &&& ((key matches Key::Char(c) && crate::text::spec_is_digit(c)) ==> ({
                    let d = (key->Char_0 as int - 48) as u64;
                    let fits = cnt.value as int <= (MAX_REPEAT as int - d) / 10;
                    final(self).spec_pending_count() == Option::Some(
                        CountState {
                            value: if fits {
                                (cnt.value * 10 + d) as u64
                            } else {
                                cnt.value
                            },
                            overflowed: cnt.overflowed || !fits,
                        },
                    ) && final(self).spec_doc() == old(self).spec_doc() && final(self).spec_cursor() == old(self).spec_cursor() && final(self).spec_versions() == old(self).spec_versions()
                }))
                &&& ((key matches Key::Char(c) && spec_is_letter(c) && c != 'r' && c != 's'
                    && !cnt.overflowed) ==> (exists|start: Editor, mid: Editor|
                    start.wf() && start.spec_doc() == old(self).spec_doc() && start.spec_cursor()
                        == old(self).spec_cursor() && start.spec_versions() == old(self).spec_versions() && start.spec_mode() == Mode::Normal
                        && #[trigger] repeat_normal_rel(start, mid, key->Char_0, cnt.value as int)
                        && *final(self) == mid.with_offset(
                        spec_scroll(mid.spec_cursor(), mid.spec_offset(), mid.spec_size()),
                    )))
                &&& ((key matches Key::Char(c) && spec_is_letter(c) && (c == 'r' || c == 's'
                    || cnt.overflowed)) ==> final(self).spec_doc() == old(self).spec_doc()
                    && final(self).spec_cursor() == old(self).spec_cursor() && final(self).spec_versions() == old(self).spec_versions() && final(self).spec_pending_count() is None)
                &&& ((!(key matches Key::Char(c) && (crate::text::spec_is_digit(c)
                    || spec_is_letter(c)))) ==> final(self).spec_doc() == old(self).spec_doc()
                    && final(self).spec_cursor() == old(self).spec_cursor() && final(self).spec_versions() == old(self).spec_versions() && final(self).spec_pending_count() is None)
            }),
            !old(self).spec_prompt_active() && !old(self).spec_pending_replace() && old(self).spec_pending_count() is None ==> ({
                &&& (key == Key::Esc ==> final(self).spec_mode() == Mode::Normal)
                &&& ((key == Key::Up || key == Key::Down || key == Key::Left || key == Key::Right
                    || key == Key::PageUp || key == Key::PageDown || key == Key::Home || key
                    == Key::End) ==> (exists|mid: Editor|
                    mid == old(self).with_cursor(
                        spec_move_cursor(
                            old(self).spec_cursor(),
                            old(self).spec_mode(),
                            crate::document::content_lens(old(self).spec_doc().content()),
                            old(self).spec_size().height as int,
                            key,
                        ),
                    ) && *final(self) == mid.with_offset(
                        spec_scroll(mid.spec_cursor(), mid.spec_offset(), mid.spec_size()),
                    )))
                &&& (key == Key::Delete ==> final(self).spec_doc().content()
                    == crate::document::content_after_delete(
                    old(self).spec_doc().content(),
                    old(self).spec_cursor().x as int,
                    old(self).spec_cursor().y as int,
                ))
                &&& ((key matches Key::Char(c)) && old(self).spec_mode() == Mode::Normal ==> (
                exists|mid: Editor|
                    normal_rel(*old(self), mid, key->Char_0) && *final(self) == mid.with_offset(
                        spec_scroll(mid.spec_cursor(), mid.spec_offset(), mid.spec_size()),
                    )))
                &&& ((key matches Key::Char(c)) && old(self).spec_mode() == Mode::Replace ==> final(self).spec_doc().content() == doc_replace_content(
                    old(self).spec_doc().content(),
                    old(self).spec_cursor(),
                    key->Char_0,
                ))
            }),
    {
        if self.prompt.is_some() {
            return self.prompt_key(key);
        }
        if self.pending_replace {
            self.pending_replace = false;
            match key {
                Key::Char(c) => {
                    self.doc_replace(c);
                },
                _ => {},
            }
            self.scroll();
            return Vec::new();
        }
        let pending = self.pending_count;
        match pending {
            Option::Some(count) => {
                if matches!(self.mode, Mode::Normal) {
                    self.count_key(key, count);
                } else {
                    self.pending_count = Option::None;
                }
                self.scroll();
                return Vec::new();
            },
            Option::None => {},
        }
        let mut acts: Vec<Action> = Vec::new();
        match key {
            Key::Char(c) => {
                match self.mode {
                    Mode::Insert => {
                        self.insert_mode(c);
                    },
                    Mode::Normal => {
                        self.normal_mode(c);
                    },
                    Mode::Replace => {
                        self.replace_mode(c);
                    },
                    Mode::Visual => {
                        self.visual_mode(c);
                    },
                }
            },
            Key::Esc => {
                self.switch_mode(Mode::Normal);
            },
            Key::Delete => {
                self.doc_delete();
            },
            Key::Backspace => {
                if self.cursor_position.x > 0 || self.cursor_position.y > 0 {
                    self.move_cursor(Key::Left);
                    if matches!(self.mode, Mode::Insert) {
                        let deleted = self.doc_delete();
                        let nx = self.cursor_position.x.saturating_sub(deleted);
                        self.cursor_position = CursorPosition {
                            x: nx,
                            y: self.cursor_position.y,
                            max_x: nx,
                        };
                    }
                }
            },
            Key::Up | Key::Down | Key::Left | Key::Right | Key::PageUp | Key::PageDown | Key::Home
                | Key::End => {
                self.move_cursor(key);
            },
            Key::Ctrl(c) => {
                if c == 'r' && matches!(self.mode, Mode::Normal) {
                    self.redo();
                }
            },
        }
        let ghost mid = *self;
        self.scroll();
        proof {
            assert(*self == mid.with_offset(
                spec_scroll(mid.spec_cursor(), mid.spec_offset(), mid.spec_size()),
            ));
        }
        acts
    }

    /// Dispatch one mouse event: a left press places the cursor, a
    /// right or middle press asks for the system clipboard, and the
    /// wheel moves one row.
    pub fn process_mouse_event(&mut self, me: MouseAction) -> (acts: Vec<Action>)
        requires
            old(self).wf(),
        ensures
            final(self).wf(),
            me == MouseAction::RequestPaste ==> final(self).spec_mode() == Mode::Insert && acts@
                =~= seq![Action::FetchClipboard] && final(self).spec_doc().content() == old(self).spec_doc().content(),
            (me matches MouseAction::PressLeft(mx, my)) ==> *final(self) == old(self).with_cursor(
                spec_readjust(
                    mouse_target(
                        me->PressLeft_0 as int,
                        me->PressLeft_1 as int,
                        old(self).spec_offset(),
                        old(self).spec_cursor().max_x,
                        old(self).spec_doc().content().len() as int,
                    ),
                    old(self).spec_doc().line_lens(),
                ),
            ) && acts@ == Seq::<Action>::empty(),
            me == MouseAction::WheelDown ==> (exists|mid: Editor|
                mid == old(self).with_cursor(
                    spec_move_cursor(
                        old(self).spec_cursor(),
                        old(self).spec_mode(),
                        crate::document::content_lens(old(self).spec_doc().content()),
                        old(self).spec_size().height as int,
                        Key::Down,
                    ),
                ) && *final(self) == mid.with_offset(
                    spec_scroll(mid.spec_cursor(), mid.spec_offset(), mid.spec_size()),
                )) && acts@ == Seq::<Action>::empty(),
            me == MouseAction::WheelUp ==> (exists|mid: Editor|
                mid == old(self).with_cursor(
                    spec_move_cursor(
                        old(self).spec_cursor(),
                        old(self).spec_mode(),
                        crate::document::content_lens(old(self).spec_doc().content()),
                        old(self).spec_size().height as int,
                        Key::Up,
                    ),
                ) && *final(self) == mid.with_offset(
                    spec_scroll(mid.spec_cursor(), mid.spec_offset(), mid.spec_size()),
                )) && acts@ == Seq::<Action>::empty(),
    {
        let mut acts: Vec<Action> = Vec::new();
        match me {
            MouseAction::PressLeft(mx, my) => {
                let mut x = mx as usize;
                let y0 = my as usize;
                let on_row = match self.document.row(y0) {
                    Option::Some(_) => true,
                    Option::None => false,
                };
                if on_row {
                    x = x.saturating_sub(5);
                }
                let x = x.saturating_sub(1).saturating_add(self.offset.x);
                let y = y0.saturating_sub(1).saturating_add(self.offset.y);
                self.cursor_position = CursorPosition { x, y, max_x: self.cursor_position.max_x };
                self.readjust_cursor();
            },
            MouseAction::RequestPaste => {
                self.switch_mode(Mode::Insert);
                acts.push(Action::FetchClipboard);
            },
            MouseAction::WheelDown => {
                self.move_cursor(Key::Down);
                let ghost mid = *self;
                self.scroll();
                proof {
                    assert(*self == mid.with_offset(
                        spec_scroll(mid.spec_cursor(), mid.spec_offset(), mid.spec_size()),
                    ));
                }
            },
            MouseAction::WheelUp => {
                self.move_cursor(Key::Up);
                let ghost mid = *self;
                self.scroll();
                proof {
                    assert(*self == mid.with_offset(
                        spec_scroll(mid.spec_cursor(), mid.spec_offset(), mid.spec_size()),
                    ));
                }
            },
        }
        acts
    }
}

/// A copy of a prompt's character buffer.
fn copy_prompt_chars(v: &Vec<char>) -> (r: Vec<char>)
    ensures
        r@ == v@,
{
    let mut r: Vec<char> = Vec::new();
    let mut k: usize = 0;
    while k < v.len()
        invariant
            k <= v@.len(),
            r@ == v@.take(k as int),
        decreases v@.len() - k,
    {
        r.push(v[k]);
        k += 1;
    }
    proof {
        assert(v@.take(v@.len() as int) =~= v@);
    }
    r
}


} // verus!

