//! The text buffer: an ordered sequence of rows with file identity,
//! dirty tracking, search and highlighting. Row indices are contiguous
//! `0..len`; index `len` is a valid insertion point though not a valid
//! row. All structural edits — split, merge, splice — clamp or ignore
//! out-of-range positions instead of failing.

use vstd::prelude::*;

use crate::editor::Position;
use crate::editor::SearchDirection;
use crate::filetype::FileType;
use crate::row::Row;

verus! {

/// The result of inserting one grapheme into a line at offset `x`: an
/// offset past the end appends.
pub open spec fn line_after_insert(line: Seq<Seq<char>>, x: int, c: char) -> Seq<Seq<char>> {
    if x <= line.len() {
        line.insert(x, seq![c])
    } else {
        line.push(seq![c])
    }
}

/// The buffer content after `insert` at `(x, y)`. A newline splits the
/// line at `x` (an offset past the end splits at the end); row index
/// `y == len` appends; any other character goes into line `y`.
pub open spec fn content_after_insert(
    content: Seq<Seq<Seq<char>>>,
    x: int,
    y: int,
    c: char,
) -> Seq<Seq<Seq<char>>>
    recommends
        0 <= y <= content.len(),
{
    if c == '\n' {
        if y == content.len() {
            content.push(Seq::<Seq<char>>::empty())
        } else {
            let line = content[y];
            let cut = crate::row::spec_min(x, line.len() as int);
            content.update(y, line.take(cut)).insert(y + 1, line.skip(cut))
        }
    } else {
        if y == content.len() {
            content.push(seq![seq![c]])
        } else {
            content.update(y, line_after_insert(content[y], x, c))
        }
    }
}

/// The buffer content after `delete` at `(x, y)`: at the end of a line
/// with a following line, the two merge; inside a line, one grapheme
/// goes; anywhere else nothing changes.
pub open spec fn content_after_delete(content: Seq<Seq<Seq<char>>>, x: int, y: int) -> Seq<
    Seq<Seq<char>>,
> {
    if y >= content.len() || y < 0 {
        content
    } else if x == content[y].len() && y + 1 < content.len() {
        content.update(y, content[y] + content[y + 1]).remove(y + 1)
    } else if 0 <= x < content[y].len() {
        content.update(y, content[y].remove(x))
    } else {
        content
    }
}

/// The text buffer.
pub struct Document {
    pub(crate) rows: Vec<Row>,
    pub(crate) file_name: Option<String>,
    pub(crate) dirty: bool,
    pub(crate) file_type: FileType,
    pub(crate) lines_changed: u64,
}

impl Document {
    /// The rows, in specifications.
    pub closed spec fn spec_rows(&self) -> Seq<Row> {
        self.rows@
    }

    /// The buffer content: every row's grapheme sequence.
    pub open spec fn content(&self) -> Seq<Seq<Seq<char>>> {
        self.spec_rows().map_values(|r: Row| r@)
    }

    /// The lines of the buffer, each as its flattened characters.
    pub open spec fn lines(&self) -> Seq<Seq<char>> {
        self.spec_rows().map_values(|r: Row| r.flat())
    }

    /// Whether unsaved changes exist, in specifications.
    pub closed spec fn spec_dirty(&self) -> bool {
        self.dirty
    }

    /// The content-mutation counter, in specifications.
    pub closed spec fn spec_lines_changed(&self) -> u64 {
        self.lines_changed
    }

    /// The file identity, in specifications.
    pub closed spec fn spec_file_name(&self) -> Option<String> {
        self.file_name
    }

    /// The detected filetype, in specifications.
    pub closed spec fn spec_file_type(&self) -> FileType {
        self.file_type
    }

    /// Every row of a well-formed buffer is well-formed.
    pub open spec fn wf(&self) -> bool {
        forall|i: int| 0 <= i < self.spec_rows().len() ==> (#[trigger] self.spec_rows()[i]).wf()
    }

    /// The fields that no content edit touches, all unchanged.
    pub open spec fn same_identity(&self, other: &Document) -> bool {
        self.spec_file_name() == other.spec_file_name() && self.spec_file_type()
            == other.spec_file_type()
    }

    /// An empty, unnamed buffer.
    pub fn empty() -> (d: Document)
        ensures
            d.content() =~= Seq::<Seq<Seq<char>>>::empty(),
            d.spec_rows().len() == 0,
            d.spec_file_name() is None,
            !d.spec_dirty(),
            d.spec_lines_changed() == 0,
            d.spec_file_type().spec_name() == "No filetype"@,
            d.wf(),
    {
        Document {
            rows: Vec::new(),
            file_name: Option::None,
            dirty: false,
            file_type: FileType::plain(),
            lines_changed: 0,
        }
    }

    /// The number of rows.
    pub fn len(&self) -> (n: usize)
        ensures
            n == self.spec_rows().len(),
    {
        self.rows.len()
    }

    /// Whether the buffer holds no rows.
    pub fn is_empty(&self) -> (r: bool)
        ensures
            r == (self.spec_rows().len() == 0),
    {
        self.rows.is_empty()
    }

    /// Whether unsaved changes exist.
    pub fn is_dirty(&self) -> (r: bool)
        ensures
            r == self.spec_dirty(),
    {
        self.dirty
    }

    /// How many content mutations the buffer has seen; saturates at the
    /// counter's maximum.
    pub fn lines_changed(&self) -> (n: u64)
        ensures
            n == self.spec_lines_changed(),
    {
        self.lines_changed
    }

    /// The display name of the detected filetype.
    pub fn file_type(&self) -> (r: String)
        ensures
            r@ == self.spec_file_type().spec_name(),
    {
        self.file_type.name()
    }

    /// The file identity, if the buffer has one.
    pub fn file_name(&self) -> (r: &Option<String>)
        ensures
            *r == self.spec_file_name(),
    {
        &self.file_name
    }

    /// Give the buffer a (new) file identity; the filetype follows it.
    pub fn set_file_name(&mut self, name: Option<String>)
        ensures
            final(self).spec_file_name() == name,
            final(self).spec_rows() == old(self).spec_rows(),
            final(self).spec_dirty() == old(self).spec_dirty(),
            final(self).spec_lines_changed() == old(self).spec_lines_changed(),
            (match name {
                Option::Some(n) => crate::filetype::is_rust_name(n@) == (final(self).spec_file_type().spec_name() == "Rust"@),
                Option::None => final(self).spec_file_type().spec_name() == "No filetype"@,
            }),
    {
        match &name {
            Option::Some(n) => {
                self.file_type = FileType::from(n.as_str());
            },
            Option::None => {
                self.file_type = FileType::plain();
            },
        }
        proof {
            reveal_strlit("Rust");
            reveal_strlit("No filetype");
            assert("Rust"@.len() == 4);
            assert("No filetype"@.len() == 11);
        }
        self.file_name = name;
    }

    /// The row at `index`, if it exists.
    pub fn row(&self, index: usize) -> (r: Option<&Row>)
        ensures
            (match r {
                Option::Some(row) => index < self.spec_rows().len() && *row == self.spec_rows()[
                    index as int],
                Option::None => index >= self.spec_rows().len(),
            }),
    {
        if index < self.rows.len() {
            Option::Some(&self.rows[index])
        } else {
            Option::None
        }
    }

    /// Drop the unsaved-changes flag after the buffer was committed to
    /// the version history.
    pub(crate) fn clear_dirty(&mut self)
        ensures
            final(self).spec_rows() == old(self).spec_rows(),
            !final(self).spec_dirty(),
            final(self).spec_lines_changed() == old(self).spec_lines_changed(),
            final(self).spec_file_name() == old(self).spec_file_name(),
            final(self).spec_file_type() == old(self).spec_file_type(),
            old(self).wf() ==> final(self).wf(),
    {
        self.dirty = false;
    }

    /// Bump the content-mutation counter, saturating at its maximum.
    fn bump_changes(&mut self)
        ensures
            final(self).spec_lines_changed() == spec_bump(old(self).spec_lines_changed()),
            final(self).spec_rows() == old(self).spec_rows(),
            final(self).spec_dirty() == old(self).spec_dirty(),
            final(self).same_identity(old(self)),
    {
        if self.lines_changed < u64::MAX {
            self.lines_changed = self.lines_changed + 1;
        }
    }

    /// Mark the highlight caches of the rows at and after `start - 1`
    /// stale: an edit may change the block-comment state every later
    /// line depends on, and the line above may need re-tokenizing too.
    fn unhighlight_rows(&mut self, start: usize)
        ensures
            final(self).spec_rows().len() == old(self).spec_rows().len(),
            forall|i: int|
                0 <= i < old(self).spec_rows().len() && i + 1 < start ==> final(self).spec_rows()[i]
                    == old(self).spec_rows()[i],
            forall|i: int|
                0 <= i < old(self).spec_rows().len() && i + 1 >= start ==> (#[trigger] final(self).spec_rows()[i])@ == old(self).spec_rows()[i]@ && final(self).spec_rows()[i].hl()
                    == old(self).spec_rows()[i].hl() && final(self).spec_rows()[i].spec_dirty()
                    == old(self).spec_rows()[i].spec_dirty() && !final(self).spec_rows()[i].spec_highlighted(),
            final(self).spec_dirty() == old(self).spec_dirty(),
            final(self).spec_lines_changed() == old(self).spec_lines_changed(),
            final(self).same_identity(old(self)),
            old(self).wf() ==> final(self).wf(),
    {
        let mut from = if start > 0 {
            start - 1
        } else {
            0
        };
        if from > self.rows.len() {
            from = self.rows.len();
        }
        let mut i = from;
        while i < self.rows.len()
            invariant
                from <= i <= self.spec_rows().len(),
                self.spec_rows().len() == old(self).spec_rows().len(),
                forall|j: int|
                    0 <= j < old(self).spec_rows().len() && j < from ==> self.spec_rows()[j] == old(
                        self,
                    ).spec_rows()[j],
                forall|j: int|
                    from <= j < i ==> (#[trigger] self.spec_rows()[j])@ == old(
                        self,
                    ).spec_rows()[j]@ && self.spec_rows()[j].hl() == old(self).spec_rows()[j].hl()
                        && self.spec_rows()[j].spec_dirty() == old(self).spec_rows()[j].spec_dirty()
                        && !self.spec_rows()[j].spec_highlighted(),
                forall|j: int|
                    i <= j < old(self).spec_rows().len() ==> self.spec_rows()[j] == old(
                        self,
                    ).spec_rows()[j],
                self.spec_dirty() == old(self).spec_dirty(),
                self.spec_lines_changed() == old(self).spec_lines_changed(),
                self.same_identity(old(self)),
            decreases self.spec_rows().len() - i,
        {
            let ghost pre_rows = self.spec_rows();
            self.rows[i].mark_stale();
            proof {
                assert(self.spec_rows()[i as int]@ == pre_rows[i as int]@);
                assert(self.spec_rows()[i as int].hl() == pre_rows[i as int].hl());
                assert(self.spec_rows()[i as int].spec_dirty() == pre_rows[i as int].spec_dirty());
                assert(!self.spec_rows()[i as int].spec_highlighted());
                assert(forall|j: int|
                    0 <= j < pre_rows.len() && j != i ==> self.spec_rows()[j] == pre_rows[j]);
            }
            i += 1;
        }
    }
}

impl Document {
    /// Split line `at.y` at grapheme offset `at.x` into two lines; a row
    /// index equal to the length appends an empty line instead.
    fn insert_newline(&mut self, at: &Position)
        requires
            at.y <= old(self).spec_rows().len(),
        ensures
            final(self).content() == content_after_insert(
                old(self).content(),
                at.x as int,
                at.y as int,
                '\n',
            ),
            final(self).spec_dirty() == old(self).spec_dirty(),
            final(self).spec_lines_changed() == old(self).spec_lines_changed(),
            final(self).same_identity(old(self)),
            forall|i: int|
                0 <= i < old(self).spec_rows().len() && i < at.y ==> final(self).spec_rows()[i]
                    == old(self).spec_rows()[i],
            old(self).wf() ==> final(self).wf(),
    {
        if at.y == self.rows.len() {
            self.rows.push(Row::empty());
            proof {
                assert(self.content() =~= old(self).content().push(Seq::<Seq<char>>::empty()));
            }
            return;
        }
        let rest = self.rows[at.y].split(at.x);
        self.rows.insert(at.y + 1, rest);
        proof {
            let oldc = old(self).content();
            let line = oldc[at.y as int];
            let cut = crate::row::spec_min(at.x as int, line.len() as int);
            assert(self.content() =~= oldc.update(at.y as int, line.take(cut)).insert(
                at.y + 1,
                line.skip(cut),
            ));
        }
    }

    /// Insert one character at a position: a newline splits the line, a
    /// row index equal to the length appends a new line, anything else
    /// goes into the addressed line. A row index past the length is
    /// ignored. The highlight caches from the line above the edit on are
    /// marked stale.
    pub fn insert(&mut self, at: &Position, c: char)
        ensures
            at.y > old(self).spec_rows().len() ==> *final(self) == *old(self),
            at.y <= old(self).spec_rows().len() ==> final(self).content() == content_after_insert(
                old(self).content(),
                at.x as int,
                at.y as int,
                c,
            ) && final(self).spec_dirty() && final(self).spec_lines_changed() == spec_bump(
                old(self).spec_lines_changed(),
            ) && final(self).same_identity(old(self)) && (forall|i: int|
                0 <= i < final(self).spec_rows().len() && i + 1 >= at.y ==> !(#[trigger] final(self).spec_rows()[i]).spec_highlighted()) && (forall|i: int|
                0 <= i < final(self).spec_rows().len() && i + 1 < at.y ==> final(self).spec_rows()[i] == old(self).spec_rows()[i]),
            old(self).wf() ==> final(self).wf(),
    {
        if at.y > self.rows.len() {
            return;
        }
        self.dirty = true;
        self.bump_changes();
        if c == '\n' {
            self.insert_newline(at);
        } else if at.y == self.rows.len() {
            let mut row = Row::empty();
            row.insert(0, c);
            self.rows.push(row);
            proof {
                assert(row@ =~= seq![seq![c]]);
                assert(self.content() =~= old(self).content().push(seq![seq![c]]));
            }
        } else {
            let ghost oldc = self.content();
            self.rows[at.y].insert(at.x, c);
            proof {
                assert(self.content() =~= oldc.update(
                    at.y as int,
                    line_after_insert(oldc[at.y as int], at.x as int, c),
                ));
            }
        }
        self.unhighlight_rows(at.y);
    }

    /// Splice a whole new line in at row index `y`; an index past the
    /// length is ignored.
    pub fn insert_line(&mut self, y: usize, line: &str)
        ensures
            y > old(self).spec_rows().len() ==> *final(self) == *old(self),
            y <= old(self).spec_rows().len() ==> final(self).content() == old(
                self,
            ).content().insert(y as int, crate::row::grapheme_split(line@)) && final(self).lines() == old(self).lines().insert(y as int, line@) && final(self).spec_dirty()
                && final(self).spec_lines_changed() == spec_bump(old(self).spec_lines_changed())
                && final(self).same_identity(old(self)) && (forall|i: int|
                0 <= i < final(self).spec_rows().len() && i + 1 >= y ==> !(#[trigger] final(self).spec_rows()[i]).spec_highlighted()) && (forall|i: int|
                0 <= i < final(self).spec_rows().len() && i + 1 < y ==> final(self).spec_rows()[i]
                    == old(self).spec_rows()[i]),
            old(self).wf() ==> final(self).wf(),
    {
        if y > self.rows.len() {
            return;
        }
        self.dirty = true;
        self.bump_changes();
        let row = Row::from(line);
        self.rows.insert(y, row);
        proof {
            assert(self.content() =~= old(self).content().insert(
                y as int,
                crate::row::grapheme_split(line@),
            ));
            assert(self.lines() =~= old(self).lines().insert(y as int, line@));
        }
        self.unhighlight_rows(y);
        proof {
            assert(self.content() =~= old(self).content().insert(
                y as int,
                crate::row::grapheme_split(line@),
            ));
            assert(self.lines() =~= old(self).lines().insert(y as int, line@));
        }
    }

    /// Delete at a position: at the end of a line that has a following
    /// line the two merge and 0 is returned; inside a line one grapheme
    /// goes and 1 is returned; anything else is ignored.
    pub fn delete(&mut self, at: &Position) -> (removed: usize)
        ensures
            at.y >= old(self).spec_rows().len() ==> *final(self) == *old(self) && removed == 0,
            at.y < old(self).spec_rows().len() ==> final(self).content() == content_after_delete(
                old(self).content(),
                at.x as int,
                at.y as int,
            ) && removed == (if at.x < old(self).content()[at.y as int].len() {
                1int
            } else {
                0int
            }) && final(self).spec_dirty() && final(self).spec_lines_changed() == spec_bump(
                old(self).spec_lines_changed(),
            ) && final(self).same_identity(old(self)) && (forall|i: int|
                0 <= i < final(self).spec_rows().len() && i + 1 >= at.y ==> !(#[trigger] final(self).spec_rows()[i]).spec_highlighted()) && (forall|i: int|
                0 <= i < final(self).spec_rows().len() && i + 1 < at.y ==> final(self).spec_rows()[i] == old(self).spec_rows()[i]),
            old(self).wf() ==> final(self).wf(),
    {
        if at.y >= self.rows.len() {
            return 0;
        }
        self.dirty = true;
        self.bump_changes();
        let row_len = self.rows[at.y].len();
        let mut deleted: usize = 0;
        if at.x == row_len && at.y + 1 < self.rows.len() {
            let ghost oldc = self.content();
            let next_row = self.rows.remove(at.y + 1);
            self.rows[at.y].append(&next_row);
            proof {
                assert(self.content() =~= oldc.update(
                    at.y as int,
                    oldc[at.y as int] + oldc[at.y as int + 1],
                ).remove(at.y as int + 1));
            }
        } else {
            let ghost oldc = self.content();
            deleted = self.rows[at.y].delete(at.x);
            proof {
                if at.x < oldc[at.y as int].len() {
                    assert(self.content() =~= oldc.update(
                        at.y as int,
                        oldc[at.y as int].remove(at.x as int),
                    ));
                } else {
                    assert(self.content() =~= oldc);
                }
            }
        }
        self.unhighlight_rows(at.y);
        deleted
    }

    /// Remove line `y` entirely; an index at or past the length is
    /// ignored.
    pub fn delete_line(&mut self, y: usize)
        ensures
            y >= old(self).spec_rows().len() ==> *final(self) == *old(self),
            y < old(self).spec_rows().len() ==> final(self).content() == old(
                self,
            ).content().remove(y as int) && final(self).spec_dirty() && final(self).spec_lines_changed() == spec_bump(old(self).spec_lines_changed()) && final(self).same_identity(old(self)) && (forall|i: int|
                0 <= i < final(self).spec_rows().len() && i + 1 >= y ==> !(#[trigger] final(self).spec_rows()[i]).spec_highlighted()) && (forall|i: int|
                0 <= i < final(self).spec_rows().len() && i + 1 < y ==> final(self).spec_rows()[i]
                    == old(self).spec_rows()[i]),
            old(self).wf() ==> final(self).wf(),
    {
        if y >= self.rows.len() {
            return;
        }
        self.dirty = true;
        self.bump_changes();
        self.rows.remove(y);
        proof {
            assert(self.content() =~= old(self).content().remove(y as int));
        }
        self.unhighlight_rows(y);
        proof {
            assert(self.content() =~= old(self).content().remove(y as int));
        }
    }

    /// Replace the grapheme at a position: delete it, then insert the
    /// given character in its place.
    pub fn replace(&mut self, at: &Position, c: char)
        ensures
            at.y > old(self).spec_rows().len() ==> *final(self) == *old(self),
            at.y <= old(self).spec_rows().len() ==> final(self).content() == content_after_insert(
                content_after_delete(old(self).content(), at.x as int, at.y as int),
                at.x as int,
                at.y as int,
                c,
            ) && final(self).spec_dirty() && final(self).same_identity(old(self)) && (forall|
                i: int,
            |
                0 <= i < final(self).spec_rows().len() && i + 1 >= at.y ==> !(#[trigger] final(self).spec_rows()[i]).spec_highlighted()) && (forall|i: int|
                0 <= i < final(self).spec_rows().len() && i + 1 < at.y ==> final(self).spec_rows()[i] == old(self).spec_rows()[i]),
            old(self).wf() ==> final(self).wf(),
    {
        self.delete(at);
        self.insert(at, c);
    }
}

impl Clone for Document {
    /// A clone keeps the rows and the file identity, but does not count
    /// as having unsaved changes of its own.
    fn clone(&self) -> (r: Self)
        ensures
            r.content() == self.content(),
            r.spec_rows().len() == self.spec_rows().len(),
            forall|i: int|
                0 <= i < self.spec_rows().len() ==> (#[trigger] r.spec_rows()[i])@
                    == self.spec_rows()[i]@ && r.spec_rows()[i].hl() == self.spec_rows()[i].hl()
                    && r.spec_rows()[i].spec_dirty() == self.spec_rows()[i].spec_dirty()
                    && r.spec_rows()[i].spec_highlighted()
                    == self.spec_rows()[i].spec_highlighted(),
            r.spec_file_name() == self.spec_file_name(),
            !r.spec_dirty(),
            r.spec_lines_changed() == self.spec_lines_changed(),
            r.spec_file_type().spec_name() == self.spec_file_type().spec_name(),
            self.wf() ==> r.wf(),
    {
        let mut rows: Vec<Row> = Vec::new();
        let mut i: usize = 0;
        while i < self.rows.len()
            invariant
                i <= self.spec_rows().len(),
                rows@.len() == i,
                forall|j: int|
                    0 <= j < i ==> (#[trigger] rows@[j])@ == self.spec_rows()[j]@ && rows@[j].hl()
                        == self.spec_rows()[j].hl() && rows@[j].spec_dirty()
                        == self.spec_rows()[j].spec_dirty() && rows@[j].spec_highlighted()
                        == self.spec_rows()[j].spec_highlighted(),
            decreases self.spec_rows().len() - i,
        {
            rows.push(self.rows[i].clone());
            i += 1;
        }
        let file_name = match &self.file_name {
            Option::Some(n) => Option::Some(n.clone()),
            Option::None => Option::None,
        };
        let r = Document {
            rows,
            file_name,
            dirty: false,
            file_type: self.file_type.clone(),
            lines_changed: self.lines_changed,
        };
        proof {
            assert(r.content() =~= self.content());
        }
        r
    }
}

impl Default for Document {
    /// The empty, unnamed buffer.
    fn default() -> (d: Self)
        ensures
            d.content() =~= Seq::<Seq<Seq<char>>>::empty(),
            d.spec_rows().len() == 0,
            d.spec_file_name() is None,
            !d.spec_dirty(),
            d.spec_lines_changed() == 0,
            d.wf(),
    {
        Document::empty()
    }
}

/// The window of line `y` that a backward search from `at` may match
/// inside: the whole line below the start line, the part before the
/// cursor on the start line.
pub open spec fn back_window(lines_len: Seq<int>, at: Position, y: int) -> int {
    if y == at.y {
        crate::row::spec_min(at.x as int, lines_len[y])
    } else {
        lines_len[y]
    }
}

/// The grapheme count of every line of a content value.
pub open spec fn content_lens(content: Seq<Seq<Seq<char>>>) -> Seq<int> {
    content.map_values(|l: Seq<Seq<char>>| l.len() as int)
}

impl Document {
    /// The grapheme count of every line.
    pub open spec fn line_lens(&self) -> Seq<int> {
        content_lens(self.content())
    }

    /// A forward-search hit at `(x, y)` for a search that started at
    /// `at`: on or after the start position, in line order.
    pub open spec fn fwd_hit(&self, q: Seq<char>, at: Position, x: int, y: int) -> bool {
        &&& at.y <= y < self.content().len()
        &&& 0 <= x <= self.content()[y].len()
        &&& (y == at.y ==> x >= at.x)
        &&& crate::row::match_at(self.content()[y], q, x)
    }

    /// A backward-search hit at `(x, y)` for a search that started at
    /// `at`: on or before the start line, wholly inside that line's
    /// window.
    pub open spec fn back_hit(&self, q: Seq<char>, at: Position, x: int, y: int) -> bool {
        &&& 0 <= y <= at.y
        &&& y < self.content().len()
        &&& 0 <= x < back_window(self.line_lens(), at, y)
        &&& crate::row::match_within(self.content()[y], q, x, back_window(self.line_lens(), at, y))
    }

    /// Search the buffer for `query` from position `at`. Forward, the
    /// first hit at or after `at` in line order is returned; backward,
    /// the last hit at or before `at`. The search does not wrap, and a
    /// start line past the buffer finds nothing.
    pub fn find(&self, query: &str, at: &Position, direction: SearchDirection) -> (r: Option<
        Position,
    >)
        ensures
            query@.len() == 0 ==> r is None,
            at.y >= self.content().len() ==> r is None,
            query@.len() >= 1 && direction == SearchDirection::Forward && at.y
                < self.content().len() ==> (match r {
                Option::Some(p) => self.fwd_hit(query@, *at, p.x as int, p.y as int) && (forall|
                    x: int,
                    y: int,
                |
                    #[trigger] self.fwd_hit(query@, *at, x, y) && (y < p.y || (y == p.y && x
                        < p.x)) ==> false),
                Option::None => forall|x: int, y: int| !#[trigger] self.fwd_hit(query@, *at, x, y),
            }),
            query@.len() >= 1 && direction == SearchDirection::Backward && at.y
                < self.content().len() ==> (match r {
                Option::Some(p) => self.back_hit(query@, *at, p.x as int, p.y as int) && (forall|
                    x: int,
                    y: int,
                |
                    #[trigger] self.back_hit(query@, *at, x, y) && (y > p.y || (y == p.y && x
                        > p.x)) ==> false),
                Option::None => forall|x: int, y: int| !#[trigger] self.back_hit(query@, *at, x, y),
            }),
    {
        if query.is_empty() {
            return Option::None;
        }
        if at.y >= self.rows.len() {
            return Option::None;
        }
        match direction {
            SearchDirection::Forward => {
                let mut y = at.y;
                while y < self.rows.len()
                    invariant
                        at.y <= y <= self.content().len(),
                        forall|x: int, yy: int|
                            yy < y ==> !#[trigger] self.fwd_hit(query@, *at, x, yy),
                    decreases self.content().len() - y,
                {
                    let from = if y == at.y {
                        at.x
                    } else {
                        0
                    };
                    let found = self.rows[y].find(query, from, SearchDirection::Forward);
                    proof {
                        assert(self.content()[y as int] == self.spec_rows()[y as int]@);
                    }
                    match found {
                        Option::Some(x) => {
                            proof {
                                assert(self.fwd_hit(query@, *at, x as int, y as int));
                                assert forall|xx: int, yy: int|
                                    #[trigger] self.fwd_hit(query@, *at, xx, yy) && (yy < y as int
                                        || (yy == y as int && xx < x as int)) implies false by {
                                    if yy == y as int {
                                        assert(!crate::row::match_at(
                                            self.content()[yy],
                                            query@,
                                            xx,
                                        ));
                                    }
                                }
                            }
                            return Option::Some(Position { x, y });
                        },
                        Option::None => {
                            proof {
                                assert forall|xx: int, yy: int| yy < y + 1 implies !#[trigger] self
                                    .fwd_hit(query@, *at, xx, yy) by {
                                    if yy == y as int && self.fwd_hit(query@, *at, xx, yy) {
                                        if xx < self.content()[yy].len() {
                                            assert(!crate::row::match_at(
                                                self.content()[yy],
                                                query@,
                                                xx,
                                            ));
                                        } else {
                                            lemma_no_match_at_end(self.content()[yy], query@, xx);
                                        }
                                    }
                                }
                            }
                        },
                    }
                    y += 1;
                }
                Option::None
            },
            SearchDirection::Backward => {
                let mut y = at.y;
                loop
                    invariant
                        0 <= y <= at.y,
                        at.y < self.content().len(),
                        forall|x: int, yy: int|
                            yy > y ==> !#[trigger] self.back_hit(query@, *at, x, yy),
                    decreases y,
                {
                    let w = if y == at.y {
                        at.x
                    } else {
                        self.rows[y].len()
                    };
                    let found = self.rows[y].find(query, w, SearchDirection::Backward);
                    proof {
                        assert(self.content()[y as int] == self.spec_rows()[y as int]@);
                        assert(back_window(self.line_lens(), *at, y as int)
                            == crate::row::spec_min(w as int, self.content()[y as int].len() as int));
                    }
                    match found {
                        Option::Some(x) => {
                            proof {
                                assert(self.back_hit(query@, *at, x as int, y as int));
                                assert forall|xx: int, yy: int|
                                    #[trigger] self.back_hit(query@, *at, xx, yy) && (yy > y as int
                                        || (yy == y as int && xx > x as int)) implies false by {
                                    if yy == y as int {
                                        assert(!crate::row::match_within(
                                            self.content()[yy],
                                            query@,
                                            xx,
                                            back_window(self.line_lens(), *at, yy),
                                        ));
                                    }
                                }
                            }
                            return Option::Some(Position { x, y });
                        },
                        Option::None => {
                            proof {
                                assert forall|xx: int, yy: int| yy > y - 1 implies !#[trigger] self
                                    .back_hit(query@, *at, xx, yy) by {
                                    if yy == y as int && self.back_hit(query@, *at, xx, yy) {
                                        assert(!crate::row::match_within(
                                            self.content()[yy],
                                            query@,
                                            xx,
                                            back_window(self.line_lens(), *at, yy),
                                        ));
                                    }
                                }
                            }
                        },
                    }
                    if y == 0 {
                        break;
                    }
                    y -= 1;
                }
                Option::None
            },
        }
    }
}

/// A non-empty query cannot match at or past the end of a line.
proof fn lemma_no_match_at_end(line: Seq<Seq<char>>, q: Seq<char>, x: int)
    requires
        q.len() >= 1,
        x == line.len(),
    ensures
        !crate::row::match_at(line, q, x),
{
    assert(line.skip(x) =~= Seq::<Seq<char>>::empty());
    assert(line.skip(x).flatten() =~= Seq::<char>::empty());
}

/// The index of the first newline in `s`, or its length when it has
/// none.
pub open spec fn line_break(s: Seq<char>) -> int
    decreases s.len(),
{
    if s.len() == 0 {
        0
    } else if s[0] == '\n' {
        0
    } else {
        1 + line_break(s.drop_first())
    }
}

/// A line terminator's optional carriage return, removed.
pub open spec fn strip_cr(t: Seq<char>) -> Seq<char> {
    if t.len() > 0 && t.last() == '\r' {
        t.drop_last()
    } else {
        t
    }
}

/// The lines of a text: split at every newline, with a carriage return
/// directly before a newline discarded; a trailing newline yields no
/// final empty line.
pub open spec fn split_lines(s: Seq<char>) -> Seq<Seq<char>>
    decreases s.len(),
{
    if s.len() == 0 {
        Seq::<Seq<char>>::empty()
    } else {
        let k = line_break(s);
        if k == s.len() {
            seq![s]
        } else if 0 <= k < s.len() {
            seq![strip_cr(s.take(k))] + split_lines(s.skip(k + 1))
        } else {
            Seq::<Seq<char>>::empty()
        }
    }
}

/// Lines joined for the disk: every line is followed by exactly one
/// newline.
pub open spec fn join_lines(ls: Seq<Seq<char>>) -> Seq<char>
    decreases ls.len(),
{
    if ls.len() == 0 {
        Seq::<char>::empty()
    } else {
        ls[0] + seq!['\n'] + join_lines(ls.drop_first())
    }
}

/// Every carriage-return-newline pair collapsed to a newline.
pub open spec fn normalize_newlines(s: Seq<char>) -> Seq<char>
    decreases s.len(),
{
    if s.len() == 0 {
        Seq::<char>::empty()
    } else if s.len() >= 2 && s[0] == '\r' && s[1] == '\n' {
        seq!['\n'] + normalize_newlines(s.skip(2))
    } else {
        seq![s[0]] + normalize_newlines(s.skip(1))
    }
}

/// A text in the editor's saved form: line terminators normalized and a
/// final newline guaranteed.
pub open spec fn normalized_text(s: Seq<char>) -> Seq<char> {
    let n = normalize_newlines(s);
    if n.len() == 0 {
        n
    } else if n.last() == '\n' {
        n
    } else {
        n.push('\n')
    }
}

/// Where `line_break` points: the first newline, or the end.
pub proof fn lemma_line_break_props(s: Seq<char>)
    ensures
        0 <= line_break(s) <= s.len(),
        line_break(s) < s.len() ==> s[line_break(s)] == '\n',
        forall|j: int| 0 <= j < line_break(s) ==> s[j] != '\n',
    decreases s.len(),
{
    if s.len() == 0 {
    } else if s[0] == '\n' {
    } else {
        lemma_line_break_props(s.drop_first());
        assert forall|j: int| 0 <= j < line_break(s) implies s[j] != '\n' by {
            if j > 0 {
                assert(s.drop_first()[j - 1] != '\n');
            }
        }
    }
}

/// `line_break` is determined by where the first newline sits.
pub proof fn lemma_line_break_at(s: Seq<char>, k: int)
    requires
        0 <= k <= s.len(),
        forall|j: int| 0 <= j < k ==> s[j] != '\n',
        k < s.len() ==> s[k] == '\n',
    ensures
        line_break(s) == k,
    decreases k,
{
    if s.len() == 0 {
    } else if k == 0 {
    } else {
        assert(s[0] != '\n');
        assert forall|j: int| 0 <= j < k - 1 implies s.drop_first()[j] != '\n' by {
            assert(s[j + 1] != '\n');
        }
        assert(k - 1 < s.drop_first().len() ==> s.drop_first()[k - 1] == '\n');
        lemma_line_break_at(s.drop_first(), k - 1);
    }
}

/// A text without newlines is already normalized.
proof fn lemma_normalize_no_newline(s: Seq<char>)
    requires
        forall|j: int| 0 <= j < s.len() ==> s[j] != '\n',
    ensures
        normalize_newlines(s) == s,
    decreases s.len(),
{
    if s.len() == 0 {
        assert(normalize_newlines(s) =~= s);
    } else {
        assert forall|j: int| 0 <= j < s.skip(1).len() implies s.skip(1)[j] != '\n' by {
            assert(s[j + 1] != '\n');
        }
        lemma_normalize_no_newline(s.skip(1));
        assert(seq![s[0]] + s.skip(1) =~= s);
    }
}

/// Normalizing keeps a nonempty text nonempty.
proof fn lemma_normalize_nonempty(s: Seq<char>)
    ensures
        (normalize_newlines(s).len() == 0) == (s.len() == 0),
    decreases s.len(),
{
    if s.len() == 0 {
    } else if s.len() >= 2 && s[0] == '\r' && s[1] == '\n' {
    } else {
    }
}

/// Normalizing splits at the first newline: the line before it loses a
/// terminating carriage return, and the rest is normalized on its own.
proof fn lemma_normalize_split(s: Seq<char>, k: int)
    requires
        0 <= k < s.len(),
        s[k] == '\n',
        forall|j: int| 0 <= j < k ==> s[j] != '\n',
    ensures
        normalize_newlines(s) == strip_cr(s.take(k)) + seq!['\n'] + normalize_newlines(
            s.skip(k + 1),
        ),
    decreases k,
{
    if k == 0 {
        assert(s[0] == '\n');
        assert(normalize_newlines(s) == seq![s[0]] + normalize_newlines(s.skip(1)));
        assert(strip_cr(s.take(0)) =~= Seq::<char>::empty());
        assert(strip_cr(s.take(0)) + seq!['\n'] + normalize_newlines(s.skip(1))
            =~= seq![s[0]] + normalize_newlines(s.skip(1)));
    } else if k == 1 && s[0] == '\r' {
        assert(s.len() >= 2 && s[0] == '\r' && s[1] == '\n');
        assert(normalize_newlines(s) == seq!['\n'] + normalize_newlines(s.skip(2)));
        assert(s.take(1) =~= seq![s[0]]);
        assert(s.take(1).last() == '\r');
        assert(strip_cr(s.take(1)) =~= Seq::<char>::empty());
        assert(strip_cr(s.take(1)) + seq!['\n'] + normalize_newlines(s.skip(2))
            =~= seq!['\n'] + normalize_newlines(s.skip(2)));
    } else {
        assert(!(s.len() >= 2 && s[0] == '\r' && s[1] == '\n')) by {
            if s[1] == '\n' {
                assert(k == 1);
            }
        }
        assert(normalize_newlines(s) == seq![s[0]] + normalize_newlines(s.skip(1)));
        let t = s.skip(1);
        assert forall|j: int| 0 <= j < k - 1 implies t[j] != '\n' by {
            assert(s[j + 1] != '\n');
        }
        assert(t[k - 1] == '\n');
        lemma_normalize_split(t, k - 1);
        assert(t.skip(k) =~= s.skip(k + 1));
        assert(t.take(k - 1) =~= s.take(k).skip(1));
        assert(s.take(k)[0] == s[0]);
        if k >= 2 {
            assert(s.take(k).last() == s[k - 1]);
            assert(t.take(k - 1).last() == s[k - 1]);
            if s[k - 1] == '\r' {
                assert(strip_cr(s.take(k)) =~= s.take(k).drop_last());
                assert(strip_cr(t.take(k - 1)) =~= t.take(k - 1).drop_last());
                assert(seq![s[0]] + strip_cr(t.take(k - 1)) =~= strip_cr(s.take(k)));
            } else {
                assert(seq![s[0]] + strip_cr(t.take(k - 1)) =~= strip_cr(s.take(k)));
            }
        } else {
            assert(k == 1);
            assert(s[0] != '\r' || s[1] != '\n');
            assert(s[0] != '\r');
            assert(s.take(1) =~= seq![s[0]]);
            assert(strip_cr(t.take(0)) =~= Seq::<char>::empty());
            assert(seq![s[0]] + strip_cr(t.take(0)) =~= strip_cr(s.take(1)));
        }
        assert(seq![s[0]] + (strip_cr(t.take(k - 1)) + seq!['\n'] + normalize_newlines(t.skip(k)))
            =~= strip_cr(s.take(k)) + seq!['\n'] + normalize_newlines(s.skip(k + 1)));
    }
}

/// Saving what was opened reproduces the text up to line-terminator
/// normalization: joining the split lines of any text yields that text
/// with carriage-return-newline pairs collapsed and exactly one newline
/// closing every line.
pub proof fn lemma_save_open_round_trip(s: Seq<char>)
    ensures
        join_lines(split_lines(s)) == normalized_text(s),
    decreases s.len(),
{
    if s.len() == 0 {
        assert(join_lines(split_lines(s)) =~= normalized_text(s));
    } else {
        lemma_line_break_props(s);
        let k = line_break(s);
        if k == s.len() {
            assert(split_lines(s) == seq![s]);
            assert(seq![s].drop_first() =~= Seq::<Seq<char>>::empty());
            assert(join_lines(seq![s].drop_first()) =~= Seq::<char>::empty());
            assert(join_lines(seq![s]) == seq![s][0] + seq!['\n'] + join_lines(
                seq![s].drop_first(),
            ));
            assert(seq![s][0] == s);
            assert(join_lines(seq![s]) =~= s + seq!['\n']);
            lemma_normalize_no_newline(s);
            assert(normalize_newlines(s).last() != '\n');
            assert(normalized_text(s) =~= s + seq!['\n']);
        } else {
            let head = strip_cr(s.take(k));
            let rest = s.skip(k + 1);
            assert(split_lines(s) == seq![head] + split_lines(rest));
            lemma_save_open_round_trip(rest);
            assert((seq![head] + split_lines(rest)).drop_first() =~= split_lines(rest));
            assert((seq![head] + split_lines(rest))[0] == head);
            assert(join_lines(split_lines(s)) == head + seq!['\n'] + join_lines(
                split_lines(rest),
            ));
            lemma_normalize_split(s, k);
            lemma_normalize_nonempty(rest);
            if rest.len() == 0 {
                assert(normalize_newlines(rest) =~= Seq::<char>::empty());
                assert(join_lines(split_lines(rest)) =~= Seq::<char>::empty()) by {
                    assert(split_lines(rest) =~= Seq::<Seq<char>>::empty());
                }
                assert(normalize_newlines(s) == head + seq!['\n'] + Seq::<char>::empty());
                assert(normalize_newlines(s).last() == '\n');
                assert(normalized_text(s) =~= head + seq!['\n']);
                assert(join_lines(split_lines(s)) =~= head + seq!['\n']);
            } else {
                let nr = normalize_newlines(rest);
                assert(nr.len() > 0);
                assert(normalize_newlines(s) == head + seq!['\n'] + nr);
                assert(normalize_newlines(s).len() > 0);
                assert(normalize_newlines(s).last() == nr.last());
                if nr.last() == '\n' {
                    assert(normalized_text(rest) == nr);
                    assert(normalized_text(s) == normalize_newlines(s));
                    assert(join_lines(split_lines(s)) =~= normalized_text(s));
                } else {
                    assert(normalized_text(rest) == nr.push('\n'));
                    assert(normalized_text(s) == normalize_newlines(s).push('\n'));
                    assert(head + seq!['\n'] + nr.push('\n') =~= (head + seq!['\n'] + nr).push(
                        '\n',
                    ));
                    assert(join_lines(split_lines(s)) =~= normalized_text(s));
                }
            }
        }
    }
}

/// The block-comment state carried into line `k`: line 0 starts outside
/// a comment, every later line receives what the line above carried
/// out. It depends on lines `0..k` alone.
pub open spec fn carry_states(
    lines: Seq<Seq<char>>,
    opts: crate::highlighting::HighlightingOptions,
    k: int,
) -> bool
    decreases k when k >= 0
{
    if k <= 0 {
        false
    } else {
        crate::highlighting::line_carry(lines[k - 1], opts, carry_states(lines, opts, k - 1))
    }
}

/// How far a highlight pass reaches: the rows before `until`, clamped
/// to the buffer, or the whole buffer when no bound is given.
pub open spec fn highlight_bound(until: Option<usize>, len: int) -> int {
    match until {
        Option::Some(u) => if u < len {
            u as int
        } else {
            len
        },
        Option::None => len,
    }
}

impl Document {
    /// Build a buffer from a file's text: the text is split at line
    /// terminators, each piece becomes one row, and the filetype is
    /// detected from the name.
    pub fn from_text(contents: &str, file_name: Option<String>) -> (d: Document)
        ensures
            d.lines() == split_lines(contents@),
            d.content().len() == split_lines(contents@).len(),
            forall|i: int|
                0 <= i < d.spec_rows().len() ==> (#[trigger] d.spec_rows()[i])@
                    == crate::row::grapheme_split(split_lines(contents@)[i]) && !d.spec_rows()[i].spec_highlighted()
                    && !d.spec_rows()[i].spec_dirty(),
            !d.spec_dirty(),
            d.spec_lines_changed() == 0,
            d.spec_file_name() == file_name,
            (match file_name {
                Option::Some(n) => crate::filetype::is_rust_name(n@) == (d.spec_file_type().spec_name() == "Rust"@),
                Option::None => d.spec_file_type().spec_name() == "No filetype"@,
            }),
            d.wf(),
    {
        let cs = crate::text::str_chars(contents);
        let mut rows: Vec<Row> = Vec::new();
        let ghost mut processed: Seq<Seq<char>> = Seq::empty();
        let mut pos: usize = 0;
        proof {
            assert(cs@.skip(0) =~= cs@);
            assert(processed + split_lines(cs@.skip(0)) =~= split_lines(cs@));
        }
        while pos < cs.len()
            invariant
                pos <= cs@.len(),
                cs@ == contents@,
                rows@.len() == processed.len(),
                forall|i: int|
                    0 <= i < rows@.len() ==> (#[trigger] rows@[i])@ == crate::row::grapheme_split(
                        processed[i],
                    ) && rows@[i].flat() == processed[i] && !rows@[i].spec_highlighted()
                        && !rows@[i].spec_dirty() && rows@[i].wf(),
                split_lines(cs@) == processed + split_lines(cs@.skip(pos as int)),
            decreases cs@.len() - pos,
        {
            let mut end = pos;
            while end < cs.len() && cs[end] != '\n'
                invariant
                    pos <= end <= cs@.len(),
                    forall|t: int| pos <= t < end ==> cs@[t] != '\n',
                decreases cs@.len() - end,
            {
                end += 1;
            }
            let ghost t = cs@.skip(pos as int);
            proof {
                assert forall|j: int| 0 <= j < end - pos implies t[j] != '\n' by {
                    assert(cs@[pos + j] != '\n');
                }
                if (end as int) < cs@.len() {
                    assert(t[end - pos] == '\n');
                }
                lemma_line_break_at(t, end - pos);
            }
            let mut seg_hi = end;
            if end < cs.len() {
                if seg_hi > pos && cs[seg_hi - 1] == '\r' {
                    seg_hi -= 1;
                }
            }
            let mut seg: Vec<char> = Vec::new();
            let mut k = pos;
            while k < seg_hi
                invariant
                    pos <= k <= seg_hi,
                    seg_hi <= cs@.len(),
                    seg@ == cs@.subrange(pos as int, k as int),
                decreases seg_hi - k,
            {
                seg.push(cs[k]);
                proof {
                    assert(seg@ =~= cs@.subrange(pos as int, k + 1));
                }
                k += 1;
            }
            let line_text = crate::text::chars_to_string(&seg);
            let row = Row::from(line_text.as_str());
            rows.push(row);
            proof {
                let lb = end - pos;
                if (end as int) < cs@.len() {
                    assert(split_lines(t) == seq![strip_cr(t.take(lb))] + split_lines(
                        t.skip(lb + 1),
                    ));
                    assert(t.take(lb) =~= cs@.subrange(pos as int, end as int));
                    if seg_hi < end {
                        assert(cs@[end - 1] == '\r');
                        assert(t.take(lb).len() > 0 && t.take(lb).last() == '\r');
                        assert(strip_cr(t.take(lb)) =~= t.take(lb).drop_last());
                        assert(seg@ =~= strip_cr(t.take(lb)));
                    } else {
                        assert(end == pos || cs@[end - 1] != '\r');
                        if lb > 0 {
                            assert(t.take(lb).last() == cs@[end - 1]);
                        }
                        assert(strip_cr(t.take(lb)) =~= t.take(lb));
                        assert(seg@ =~= strip_cr(t.take(lb)));
                    }
                    assert(t.skip(lb + 1) =~= cs@.skip(end + 1));
                    processed = processed.push(seg@);
                    assert(processed + split_lines(cs@.skip(end + 1)) =~= split_lines(cs@));
                } else {
                    assert(end == cs@.len());
                    assert(lb == t.len());
                    assert(t.len() > 0);
                    assert(split_lines(t) == seq![t]);
                    assert(seg_hi == end);
                    assert(seg@ =~= t);
                    processed = processed.push(seg@);
                    assert(split_lines(cs@.skip(end as int)) =~= Seq::<Seq<char>>::empty());
                    assert(processed + split_lines(cs@.skip(end as int)) =~= split_lines(cs@));
                }
            }
            pos = if end < cs.len() {
                end + 1
            } else {
                end
            };
        }
        proof {
            assert(cs@.skip(cs@.len() as int) =~= Seq::<char>::empty());
            assert(split_lines(cs@.skip(pos as int)) =~= Seq::<Seq<char>>::empty());
            assert(processed =~= split_lines(cs@));
        }
        let mut d = Document::empty();
        d.rows = rows;
        d.set_file_name(file_name);
        proof {
            assert(d.lines() =~= split_lines(contents@));
        }
        d
    }

    /// The buffer's text as it is written to disk: every line followed
    /// by exactly one newline.
    pub fn save_content(&self) -> (r: String)
        ensures
            r@ == join_lines(self.lines()),
    {
        let mut out: Vec<char> = Vec::new();
        let mut i: usize = 0;
        proof {
            assert(self.lines().skip(0) =~= self.lines());
        }
        while i < self.rows.len()
            invariant
                i <= self.spec_rows().len(),
                join_lines(self.lines()) == out@ + join_lines(self.lines().skip(i as int)),
            decreases self.spec_rows().len() - i,
        {
            let flat = self.rows[i].flat_chars();
            let ghost pre = out@;
            let mut k: usize = 0;
            while k < flat.len()
                invariant
                    k <= flat@.len(),
                    out@ == pre + flat@.take(k as int),
                decreases flat@.len() - k,
            {
                out.push(flat[k]);
                k += 1;
            }
            proof {
                assert(flat@.take(flat@.len() as int) =~= flat@);
            }
            out.push('\n');
            proof {
                let tail = self.lines().skip(i as int);
                assert(tail[0] == self.lines()[i as int]);
                assert(tail.drop_first() =~= self.lines().skip(i + 1));
                assert(join_lines(tail) == tail[0] + seq!['\n'] + join_lines(
                    self.lines().skip(i + 1),
                ));
                assert(self.lines()[i as int] == self.spec_rows()[i as int].flat());
                assert(out@ =~= pre + flat@ + seq!['\n']);
                assert(out@ + join_lines(self.lines().skip(i + 1)) =~= join_lines(self.lines()));
            }
            i += 1;
        }
        proof {
            assert(self.lines().skip(self.lines().len() as int) =~= Seq::<Seq<char>>::empty());
            assert(join_lines(self.lines().skip(i as int)) =~= Seq::<char>::empty());
            assert(out@ + Seq::<char>::empty() =~= out@);
        }
        crate::text::chars_to_string(&out)
    }

    /// Record that the buffer reached the disk: the unsaved-changes flag
    /// and every row's diff marker clear, and the filetype follows the
    /// (possibly renamed) file.
    pub fn mark_saved(&mut self)
        ensures
            final(self).spec_rows().len() == old(self).spec_rows().len(),
            forall|i: int|
                0 <= i < old(self).spec_rows().len() ==> (#[trigger] final(self).spec_rows()[i])@
                    == old(self).spec_rows()[i]@ && final(self).spec_rows()[i].hl() == old(
                    self,
                ).spec_rows()[i].hl() && final(self).spec_rows()[i].spec_highlighted() == old(
                    self,
                ).spec_rows()[i].spec_highlighted() && !final(self).spec_rows()[i].spec_dirty(),
            !final(self).spec_dirty(),
            final(self).spec_lines_changed() == old(self).spec_lines_changed(),
            final(self).spec_file_name() == old(self).spec_file_name(),
            old(self).spec_file_name() is Some ==> ({
                let n = old(self).spec_file_name().unwrap();
                crate::filetype::is_rust_name(n@) == (final(self).spec_file_type().spec_name()
                    == "Rust"@) && (!crate::filetype::is_rust_name(n@) ==> final(self).spec_file_type().spec_name() == "No filetype"@)
            }),
            old(self).spec_file_name() is None ==> final(self).spec_file_type() == old(self).spec_file_type(),
            old(self).wf() ==> final(self).wf(),
    {
        proof {
            reveal_strlit("Rust");
            reveal_strlit("No filetype");
            assert("Rust"@.len() == 4);
            assert("No filetype"@.len() == 11);
        }
        let mut i: usize = 0;
        while i < self.rows.len()
            invariant
                i <= self.spec_rows().len(),
                self.spec_rows().len() == old(self).spec_rows().len(),
                forall|j: int|
                    0 <= j < i ==> (#[trigger] self.spec_rows()[j])@ == old(self).spec_rows()[j]@
                        && self.spec_rows()[j].hl() == old(self).spec_rows()[j].hl()
                        && self.spec_rows()[j].spec_highlighted() == old(
                        self,
                    ).spec_rows()[j].spec_highlighted() && !self.spec_rows()[j].spec_dirty(),
                forall|j: int|
                    i <= j < old(self).spec_rows().len() ==> self.spec_rows()[j] == old(
                        self,
                    ).spec_rows()[j],
                self.spec_dirty() == old(self).spec_dirty(),
                self.spec_lines_changed() == old(self).spec_lines_changed(),
                self.spec_file_name() == old(self).spec_file_name(),
                self.spec_file_type() == old(self).spec_file_type(),
            decreases self.spec_rows().len() - i,
        {
            self.rows[i].mark_saved();
            i += 1;
        }
        match &self.file_name {
            Option::Some(n) => {
                let name = n.clone();
                self.file_type = crate::filetype::FileType::from(name.as_str());
                proof {
                    assert(name@ == n@);
                    if crate::filetype::is_rust_name(n@) {
                        assert(self.spec_file_type().spec_name() == "Rust"@);
                    } else {
                        assert(self.spec_file_type().spec_name() == "No filetype"@);
                        assert("No filetype"@ != "Rust"@);
                    }
                }
            },
            Option::None => {},
        }
        self.dirty = false;
    }

    /// Re-run the highlighter over the rows before `highlight_bound`,
    /// threading the block-comment state from row 0 on; rows beyond the
    /// bound keep their stale caches until they come into view.
    pub fn highlight(&mut self, word: &Option<String>, until: Option<usize>)
        ensures
            final(self).spec_rows().len() == old(self).spec_rows().len(),
            final(self).content() == old(self).content(),
            forall|i: int|
                0 <= i < highlight_bound(until, old(self).spec_rows().len() as int) ==> (
                #[trigger] final(self).spec_rows()[i]).hl() == crate::highlighting::line_highlight(
                    old(self).lines()[i],
                    old(self).spec_file_type().spec_options(),
                    crate::highlighting::word_view(*word),
                    carry_states(
                        old(self).lines(),
                        old(self).spec_file_type().spec_options(),
                        i,
                    ),
                ) && final(self).spec_rows()[i].spec_highlighted() && final(self).spec_rows()[i]@
                    == old(self).spec_rows()[i]@ && final(self).spec_rows()[i].spec_dirty() == old(
                    self,
                ).spec_rows()[i].spec_dirty(),
            forall|i: int|
                highlight_bound(until, old(self).spec_rows().len() as int) <= i < old(
                    self,
                ).spec_rows().len() ==> final(self).spec_rows()[i] == old(self).spec_rows()[i],
            final(self).spec_dirty() == old(self).spec_dirty(),
            final(self).spec_lines_changed() == old(self).spec_lines_changed(),
            final(self).same_identity(old(self)),
            old(self).wf() ==> final(self).wf(),
    {
        let bound = match until {
            Option::Some(u) => {
                if u < self.rows.len() {
                    u
                } else {
                    self.rows.len()
                }
            },
            Option::None => self.rows.len(),
        };
        proof {
            assert(bound == highlight_bound(until, old(self).spec_rows().len() as int));
        }
        let ghost opts = self.file_type.spec_options();
        let mut carry = false;
        let mut i: usize = 0;
        while i < bound
            invariant
                i <= bound,
                bound <= self.spec_rows().len(),
                self.spec_rows().len() == old(self).spec_rows().len(),
                self.lines() == old(self).lines(),
                self.content() == old(self).content(),
                opts == self.spec_file_type().spec_options(),
                self.same_identity(old(self)),
                self.spec_dirty() == old(self).spec_dirty(),
                self.spec_lines_changed() == old(self).spec_lines_changed(),
                carry == carry_states(old(self).lines(), opts, i as int),
                forall|j: int|
                    0 <= j < i ==> (#[trigger] self.spec_rows()[j]).hl()
                        == crate::highlighting::line_highlight(
                        old(self).lines()[j],
                        opts,
                        crate::highlighting::word_view(*word),
                        carry_states(old(self).lines(), opts, j),
                    ) && self.spec_rows()[j].spec_highlighted() && self.spec_rows()[j]@ == old(
                        self,
                    ).spec_rows()[j]@ && self.spec_rows()[j].spec_dirty() == old(
                        self,
                    ).spec_rows()[j].spec_dirty(),
                forall|j: int|
                    i <= j < old(self).spec_rows().len() ==> self.spec_rows()[j] == old(
                        self,
                    ).spec_rows()[j],
            decreases bound - i,
        {
            let ghost pre_rows = self.spec_rows();
            let next = self.rows[i].highlight(self.file_type.highlighting_options(), word, carry);
            proof {
                assert(self.spec_rows()[i as int]@ == pre_rows[i as int]@);
                assert(self.lines() =~= old(self).lines());
                assert(self.content() =~= old(self).content());
                assert(old(self).lines()[i as int] == pre_rows[i as int].flat());
            }
            carry = next;
            i += 1;
        }
    }
}

/// Inserting a newline at a valid position grows the buffer by exactly
/// one line and splits the addressed line's content at the insertion
/// offset; every other line is carried over.
pub proof fn lemma_insert_newline_splits(content: Seq<Seq<Seq<char>>>, x: int, y: int)
    requires
        0 <= y < content.len(),
        0 <= x <= content[y].len(),
    ensures
        content_after_insert(content, x, y, '\n').len() == content.len() + 1,
        content_after_insert(content, x, y, '\n')[y] == content[y].take(x),
        content_after_insert(content, x, y, '\n')[y + 1] == content[y].skip(x),
        forall|i: int| 0 <= i < y ==> content_after_insert(content, x, y, '\n')[i] == content[i],
        forall|i: int|
            y + 1 < i < content.len() + 1 ==> content_after_insert(content, x, y, '\n')[i]
                == content[i - 1],
{
    let c2 = content_after_insert(content, x, y, '\n');
    assert(crate::row::spec_min(x, content[y].len() as int) == x);
    assert(c2 == content.update(y, content[y].take(x)).insert(y + 1, content[y].skip(x)));
}

/// Inserting an ordinary character at a valid position keeps the line
/// count and grows the addressed line by exactly one grapheme; every
/// other line is carried over.
pub proof fn lemma_insert_char_grows(content: Seq<Seq<Seq<char>>>, x: int, y: int, c: char)
    requires
        c != '\n',
        0 <= y < content.len(),
        0 <= x <= content[y].len(),
    ensures
        content_after_insert(content, x, y, c).len() == content.len(),
        content_after_insert(content, x, y, c)[y] == content[y].insert(x, seq![c]),
        content_after_insert(content, x, y, c)[y].len() == content[y].len() + 1,
        forall|i: int|
            0 <= i < content.len() && i != y ==> content_after_insert(content, x, y, c)[i]
                == content[i],
{
}

/// Deleting at the end of a line that has a following line shrinks the
/// buffer by exactly one line and concatenates the two lines' content;
/// every other line is carried over.
pub proof fn lemma_delete_merges(content: Seq<Seq<Seq<char>>>, y: int)
    requires
        0 <= y,
        y + 1 < content.len(),
    ensures
        content_after_delete(content, content[y].len() as int, y).len() == content.len() - 1,
        content_after_delete(content, content[y].len() as int, y)[y] == content[y] + content[y
            + 1],
        forall|i: int|
            0 <= i < y ==> content_after_delete(content, content[y].len() as int, y)[i]
                == content[i],
        forall|i: int|
            y < i < content.len() - 1 ==> content_after_delete(content, content[y].len() as int, y)[
                i] == content[i + 1],
{
    let x = content[y].len() as int;
    let c2 = content_after_delete(content, x, y);
    assert(c2 == content.update(y, content[y] + content[y + 1]).remove(y + 1));
}

/// Deleting inside a line keeps the line count and removes exactly one
/// grapheme of the addressed line; every other line is carried over.
pub proof fn lemma_delete_char_shrinks(content: Seq<Seq<Seq<char>>>, x: int, y: int)
    requires
        0 <= y < content.len(),
        0 <= x < content[y].len(),
    ensures
        content_after_delete(content, x, y).len() == content.len(),
        content_after_delete(content, x, y)[y] == content[y].remove(x),
        content_after_delete(content, x, y)[y].len() == content[y].len() - 1,
        forall|i: int|
            0 <= i < content.len() && i != y ==> content_after_delete(content, x, y)[i]
                == content[i],
{
}

/// A match found scanning forward is also found scanning backward from
/// any boundary the match fits before.
pub proof fn lemma_match_fits_backward(line: Seq<Seq<char>>, q: Seq<char>, x: int, b: int)
    requires
        0 <= x <= b <= line.len(),
        crate::row::match_at(line, q, x),
        q.len() <= line.subrange(x, b).flatten().len(),
    ensures
        crate::row::match_within(line, q, x, b),
{
    let pre = line.subrange(x, b).flatten();
    let suf = line.skip(x).flatten();
    assert(line.subrange(x, b) + line.skip(b) =~= line.skip(x));
    vstd::seq_lib::lemma_flatten_concat(line.subrange(x, b), line.skip(b));
    assert(suf =~= pre + line.skip(b).flatten());
    assert(pre.subrange(0, q.len() as int) =~= suf.subrange(0, q.len() as int));
}

/// A match found scanning backward is a match of the line.
pub proof fn lemma_match_backward_forward(line: Seq<Seq<char>>, q: Seq<char>, x: int, b: int)
    requires
        0 <= x <= b <= line.len(),
        crate::row::match_within(line, q, x, b),
    ensures
        crate::row::match_at(line, q, x),
{
    let pre = line.subrange(x, b).flatten();
    let suf = line.skip(x).flatten();
    assert(line.subrange(x, b) + line.skip(b) =~= line.skip(x));
    vstd::seq_lib::lemma_flatten_concat(line.subrange(x, b), line.skip(b));
    assert(suf =~= pre + line.skip(b).flatten());
    assert(pre.subrange(0, q.len() as int) =~= suf.subrange(0, q.len() as int));
}

impl Document {
    /// Search is directionally symmetric for an isolated occurrence: if
    /// the buffer holds exactly one occurrence of the query, then every
    /// forward hit from a start at or before it is that occurrence, it
    /// is itself a forward hit, and every backward hit from a start
    /// whose window still holds the whole occurrence is that occurrence
    /// too — so `find` returns the same position from either side.
    pub proof fn lemma_find_direction_symmetric(
        &self,
        q: Seq<char>,
        x0: int,
        y0: int,
        fwd_at: Position,
        back_at: Position,
    )
        requires
            q.len() >= 1,
            0 <= y0 < self.content().len(),
            0 <= x0 <= self.content()[y0].len(),
            crate::row::match_at(self.content()[y0], q, x0),
            forall|y: int, x: int|
                0 <= y < self.content().len() && 0 <= x <= self.content()[y].len()
                    && #[trigger] crate::row::match_at(self.content()[y], q, x) ==> y == y0 && x
                    == x0,
            fwd_at.y <= y0 < self.content().len(),
            fwd_at.y == y0 ==> fwd_at.x <= x0,
            back_at.y == y0,
            x0 <= back_at.x <= self.content()[y0].len(),
            q.len() <= self.content()[y0].subrange(x0, back_at.x as int).flatten().len(),
        ensures
            self.fwd_hit(q, fwd_at, x0, y0),
            forall|x: int, y: int| #[trigger] self.fwd_hit(q, fwd_at, x, y) ==> x == x0 && y == y0,
            self.back_hit(q, back_at, x0, y0),
            forall|x: int, y: int|
                #[trigger] self.back_hit(q, back_at, x, y) ==> x == x0 && y == y0,
    {
        let line = self.content()[y0];
        let b = back_window(self.line_lens(), back_at, y0);
        assert(self.line_lens()[y0] == line.len());
        assert(b == crate::row::spec_min(back_at.x as int, line.len() as int));
        assert(b == back_at.x);
        lemma_match_fits_backward(line, q, x0, b);
        assert(x0 < b) by {
            if x0 == b {
                assert(line.subrange(x0, b) =~= Seq::<Seq<char>>::empty());
                assert(line.subrange(x0, b).flatten() =~= Seq::<char>::empty());
            }
        }
        assert(self.back_hit(q, back_at, x0, y0));
        assert forall|x: int, y: int| #[trigger] self.back_hit(q, back_at, x, y) implies x == x0
            && y == y0 by {
            let bw = back_window(self.line_lens(), back_at, y);
            assert(self.line_lens()[y] == self.content()[y].len());
            lemma_match_backward_forward(self.content()[y], q, x, bw);
            assert(crate::row::match_at(self.content()[y], q, x));
        }
    }
}

/// A buffer opened from any text saves back as that text with its line
/// terminators normalized: `save_content` on a buffer built by
/// `from_text` yields the original up to terminator normalization.
pub proof fn lemma_document_round_trip(text: Seq<char>, d: &Document)
    requires
        d.lines() == split_lines(text),
    ensures
        join_lines(d.lines()) == normalized_text(text),
{
    lemma_save_open_round_trip(text);
}

/// No block-comment close marker after `i` means none is found.
proof fn lemma_close_none(s: Seq<char>, i: int)
    requires
        0 <= i <= s.len(),
        forall|j: int| i <= j < s.len() - 1 ==> !(#[trigger] s[j] == '*' && s[j + 1] == '/'),
    ensures
        crate::highlighting::close_from(s, i) == s.len(),
    decreases s.len() - i,
{
    if i + 1 >= s.len() {
    } else {
        lemma_close_none(s, i + 1);
    }
}

/// A line that begins inside a block comment and holds no close marker
/// reports "still inside comment" to the next line's pass — however the
/// pass was bounded, since the carried state is threaded from line 0.
pub proof fn lemma_still_inside_comment(
    line: Seq<char>,
    opts: crate::highlighting::HighlightingOptions,
)
    requires
        forall|j: int| 0 <= j < line.len() - 1 ==> !(#[trigger] line[j] == '*' && line[j + 1] == '/'),
    ensures
        crate::highlighting::line_carry(line, opts, true),
{
    if line.len() == 0 {
    } else {
        lemma_close_none(line, 0);
        let step = crate::highlighting::hl_step(line, opts, true, 0);
        assert(step == (
            crate::highlighting::HlKind::MultilineComment,
            line.len() as int,
            true,
        ));
        assert(crate::highlighting::hl_scan(line, opts, true, line.len() as int).1 == true);
    }
}

/// The block-comment state a line hands onward is exactly what the
/// chained states of the buffer give the next line.
pub proof fn lemma_carry_chain(
    lines: Seq<Seq<char>>,
    opts: crate::highlighting::HighlightingOptions,
    k: int,
)
    requires
        0 <= k,
    ensures
        carry_states(lines, opts, k + 1) == crate::highlighting::line_carry(
            lines[k],
            opts,
            carry_states(lines, opts, k),
        ),
{
}

/// The state carried into line `k` depends on the lines before `k`
/// alone: how many further lines a highlight pass covers cannot change
/// it.
pub proof fn lemma_carry_prefix(
    lines1: Seq<Seq<char>>,
    lines2: Seq<Seq<char>>,
    opts: crate::highlighting::HighlightingOptions,
    k: int,
)
    requires
        0 <= k,
        k <= lines1.len(),
        k <= lines2.len(),
        forall|j: int| 0 <= j < k ==> lines1[j] == lines2[j],
    ensures
        carry_states(lines1, opts, k) == carry_states(lines2, opts, k),
    decreases k,
{
    if k > 0 {
        lemma_carry_prefix(lines1, lines2, opts, k - 1);
    }
}

/// One step of the saturating mutation counter.
pub open spec fn spec_bump(n: u64) -> u64 {
    if n < u64::MAX {
        (n + 1) as u64
    } else {
        n
    }
}

} // verus!
