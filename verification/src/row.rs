//! One document row, stored and edited by Unicode grapheme cluster.
//!
//! A [`Row`] keeps its text as the sequence of its grapheme clusters; all
//! cursor, insert and delete offsets count graphemes, never bytes or code
//! points. The view of a row is the sequence of its graphemes, each the
//! sequence of that cluster's characters.

use vstd::prelude::*;

use crate::editor::SearchDirection;
use crate::highlighting::HlKind;
use unicode_segmentation::UnicodeSegmentation;

verus! {

/// The grapheme clusters of a string, in order. The clusters partition the
/// string: their concatenation is the string itself, and none is empty.
pub uninterp spec fn grapheme_split(s: Seq<char>) -> Seq<Seq<char>>;

/// Relies on `unicode_segmentation`'s `graphemes(true)`: the extended
/// grapheme clusters of the string, in order. The iterator yields
/// consecutive subslices of its input, so the clusters concatenate back to
/// the input and each holds at least one character.
#[verifier::external_body]
fn split_graphemes(s: &str) -> (r: Vec<Vec<char>>)
    ensures
        r.deep_view() == grapheme_split(s@),
        r.deep_view().flatten() == s@,
        forall|i: int| 0 <= i < r.deep_view().len() ==> r.deep_view()[i].len() > 0,
{
    s.graphemes(true).map(|g| g.chars().collect()).collect()
}

/// One row of the document: its grapheme clusters, plus the cached
/// highlighting of its characters, a cache-validity flag and a diff marker
/// for rows edited since the last save.
pub struct Row {
    pub(crate) graphemes: Vec<Vec<char>>,
    pub(crate) highlighting: Vec<HlKind>,
    pub(crate) is_highlighted: bool,
    pub(crate) dirty: bool,
}

impl View for Row {
    type V = Seq<Seq<char>>;

    closed spec fn view(&self) -> Seq<Seq<char>> {
        self.graphemes.deep_view()
    }
}

impl Row {
    /// Every grapheme of a well-formed row holds at least one character.
    pub open spec fn wf(&self) -> bool {
        forall|i: int| 0 <= i < self@.len() ==> self@[i].len() > 0
    }

    /// The characters of the row, with the grapheme structure flattened.
    pub open spec fn flat(&self) -> Seq<char> {
        self@.flatten()
    }

    /// Whether the row carries the diff marker, in specifications.
    pub closed spec fn spec_dirty(&self) -> bool {
        self.dirty
    }

    /// Whether the cached highlighting is current, in specifications.
    pub closed spec fn spec_highlighted(&self) -> bool {
        self.is_highlighted
    }

    /// Whether the cached highlighting is current.
    pub fn is_highlighted(&self) -> (r: bool)
        ensures
            r == self.spec_highlighted(),
    {
        self.is_highlighted
    }

    /// The cached per-character highlighting, in specifications.
    pub closed spec fn hl(&self) -> Seq<HlKind> {
        self.highlighting@
    }

    /// An empty row.
    pub fn empty() -> (r: Row)
        ensures
            r@ =~= Seq::<Seq<char>>::empty(),
            r.wf(),
            !r.spec_highlighted(),
            !r.spec_dirty(),
            r.hl().len() == 0,
    {
        Row {
            graphemes: Vec::new(),
            highlighting: Vec::new(),
            is_highlighted: false,
            dirty: false,
        }
    }

    /// A row holding the graphemes of the given text.
    pub fn from(text: &str) -> (r: Row)
        ensures
            r@ == grapheme_split(text@),
            r.flat() == text@,
            r.wf(),
            !r.spec_highlighted(),
            !r.spec_dirty(),
            r.hl().len() == 0,
    {
        Row {
            graphemes: split_graphemes(text),
            highlighting: Vec::new(),
            is_highlighted: false,
            dirty: false,
        }
    }

    /// The number of graphemes in the row.
    pub fn len(&self) -> (n: usize)
        ensures
            n == self@.len(),
    {
        self.graphemes.len()
    }

    /// Whether the row holds no graphemes.
    pub fn is_empty(&self) -> (r: bool)
        ensures
            r == (self@.len() == 0),
    {
        self.graphemes.is_empty()
    }

    /// Whether the row was edited since the last save.
    pub fn is_dirty(&self) -> (r: bool)
        ensures
            r == self.spec_dirty(),
    {
        self.dirty
    }

    /// Mark the cached highlighting stale.
    pub fn mark_stale(&mut self)
        ensures
            final(self)@ == old(self)@,
            final(self).hl() == old(self).hl(),
            final(self).spec_dirty() == old(self).spec_dirty(),
            !final(self).spec_highlighted(),
    {
        self.is_highlighted = false;
    }

    /// Clear the diff marker once the row has reached the disk.
    pub fn mark_saved(&mut self)
        ensures
            final(self)@ == old(self)@,
            !final(self).spec_dirty(),
            final(self).hl() == old(self).hl(),
            final(self).spec_highlighted() == old(self).spec_highlighted(),
    {
        self.dirty = false;
    }

    /// Insert one character as a fresh grapheme at grapheme offset `at`,
    /// shifting the following graphemes right by one; an offset past the
    /// end appends.
    pub fn insert(&mut self, at: usize, c: char)
        ensures
            at <= old(self)@.len() ==> final(self)@ == old(self)@.insert(at as int, seq![c]),
            at > old(self)@.len() ==> final(self)@ == old(self)@.push(seq![c]),
            old(self).wf() ==> final(self).wf(),
            final(self).spec_dirty(),
            !final(self).spec_highlighted(),
    {
        let mut g: Vec<char> = Vec::new();
        g.push(c);
        if at >= self.graphemes.len() {
            self.graphemes.push(g);
        } else {
            self.graphemes.insert(at, g);
        }
        self.dirty = true;
        self.is_highlighted = false;
        proof {
            assert(g.deep_view() =~= seq![c]);
            if at <= old(self)@.len() {
                assert(self@ =~= old(self)@.insert(at as int, seq![c]));
            } else {
                assert(self@ =~= old(self)@.push(seq![c]));
            }
        }
    }

    /// Remove the grapheme at offset `at`; a no-op returning 0 when `at`
    /// is at or past the end, else returns 1.
    pub fn delete(&mut self, at: usize) -> (removed: usize)
        ensures
            at < old(self)@.len() ==> final(self)@ == old(self)@.remove(at as int) && removed
                == 1 && final(self).spec_dirty() && !final(self).spec_highlighted(),
            at >= old(self)@.len() ==> *final(self) == *old(self) && removed == 0,
            old(self).wf() ==> final(self).wf(),
    {
        if at >= self.graphemes.len() {
            return 0;
        }
        self.graphemes.remove(at);
        self.dirty = true;
        self.is_highlighted = false;
        proof {
            assert(self@ =~= old(self)@.remove(at as int));
        }
        1
    }

    /// Truncate the row to its first `at` graphemes and return a new row
    /// holding the rest. An offset past the end leaves the row whole and
    /// returns an empty rest.
    pub fn split(&mut self, at: usize) -> (rest: Row)
        ensures
            final(self)@ == old(self)@.take(spec_min(at as int, old(self)@.len() as int)),
            rest@ == old(self)@.skip(spec_min(at as int, old(self)@.len() as int)),
            old(self).wf() ==> final(self).wf() && rest.wf(),
            final(self).spec_dirty(),
            !final(self).spec_highlighted(),
            rest.spec_dirty(),
            !rest.spec_highlighted(),
    {
        let cut = if at < self.graphemes.len() {
            at
        } else {
            self.graphemes.len()
        };
        let tail = self.graphemes.split_off(cut);
        self.dirty = true;
        self.is_highlighted = false;
        let rest = Row { graphemes: tail, highlighting: Vec::new(), is_highlighted: false, dirty: true };
        proof {
            let m = spec_min(at as int, old(self)@.len() as int);
            assert(self@ =~= old(self)@.take(m));
            assert(rest@ =~= old(self)@.skip(m));
        }
        rest
    }

    /// Concatenate another row's graphemes onto this one.
    pub fn append(&mut self, other: &Row)
        ensures
            final(self)@ == old(self)@ + other@,
            old(self).wf() && other.wf() ==> final(self).wf(),
            final(self).spec_dirty(),
            !final(self).spec_highlighted(),
    {
        let ghost prefix = self@;
        let mut i: usize = 0;
        while i < other.graphemes.len()
            invariant
                i <= other@.len(),
                self@ == prefix + other@.take(i as int),
            decreases other@.len() - i,
        {
            let mut g: Vec<char> = Vec::new();
            let src = &other.graphemes[i];
            let mut j: usize = 0;
            while j < src.len()
                invariant
                    j <= src@.len(),
                    g@ == src@.take(j as int),
                decreases src@.len() - j,
            {
                g.push(src[j]);
                j += 1;
            }
            proof {
                assert(g@ =~= src@);
                assert(g.deep_view() =~= other@[i as int]);
            }
            let ghost pre = self@;
            let ghost gv = g.deep_view();
            self.graphemes.push(g);
            proof {
                assert(self@.len() == pre.len() + 1);
                assert forall|k: int| 0 <= k < pre.len() implies self@[k] == pre[k] by {
                    assert(self@[k] == self.graphemes@[k].deep_view());
                }
                assert(self@[pre.len() as int] == gv);
                assert(pre == prefix + other@.take(i as int));
                assert forall|k: int| 0 <= k < self@.len() implies self@[k] == (prefix
                    + other@.take(i + 1))[k] by {
                    if k < pre.len() {
                        assert(self@[k] == pre[k]);
                        if k >= prefix.len() {
                            assert(pre[k] == other@.take(i as int)[k - prefix.len()]);
                            assert(other@.take(i as int)[k - prefix.len()] == other@[k
                                - prefix.len()]);
                        }
                    } else {
                        assert(self@[k] == gv);
                        assert((prefix + other@.take(i + 1))[k] == other@[i as int]);
                    }
                }
                assert(self@ =~= prefix + other@.take(i + 1));
            }
            i += 1;
        }
        self.dirty = true;
        self.is_highlighted = false;
        proof {
            assert(other@.take(other@.len() as int) =~= other@);
        }
    }

    /// The flattened characters of the row.
    pub fn flat_chars(&self) -> (r: Vec<char>)
        ensures
            r@ == self.flat(),
    {
        let mut r: Vec<char> = Vec::new();
        let mut i: usize = 0;
        while i < self.graphemes.len()
            invariant
                i <= self@.len(),
                r@ == self@.take(i as int).flatten(),
            decreases self@.len() - i,
        {
            let src = &self.graphemes[i];
            let ghost prefix = r@;
            let mut j: usize = 0;
            while j < src.len()
                invariant
                    j <= src@.len(),
                    src.deep_view() == self@[i as int],
                    i < self@.len(),
                    r@ == prefix + src@.take(j as int),
                decreases src@.len() - j,
            {
                r.push(src[j]);
                j += 1;
            }
            proof {
                assert(src@.take(src@.len() as int) =~= src@);
                assert(self@.take(i as int).push(self@[i as int]) =~= self@.take(i + 1));
                self@.take(i as int).lemma_flatten_push(self@[i as int]);
                assert(r@ =~= self@.take(i + 1).flatten());
            }
            i += 1;
        }
        proof {
            assert(self@.take(self@.len() as int) =~= self@);
        }
        r
    }

    /// The row's text as a string.
    pub fn contents(&self) -> (r: String)
        ensures
            r@ == self.flat(),
    {
        let cs = self.flat_chars();
        crate::text::chars_to_string(&cs)
    }
}

/// `q` occurs in the grapheme sequence `s` at grapheme boundary `x`: the
/// characters of the graphemes from `x` on, concatenated, begin with `q`.
pub open spec fn match_at(s: Seq<Seq<char>>, q: Seq<char>, x: int) -> bool {
    let suf = s.skip(x).flatten();
    q.len() <= suf.len() && suf.subrange(0, q.len() as int) == q
}

/// `q` occurs at grapheme boundary `x` and lies wholly inside the
/// characters of the graphemes `[x, b)`.
pub open spec fn match_within(s: Seq<Seq<char>>, q: Seq<char>, x: int, b: int) -> bool {
    let pre = s.subrange(x, b).flatten();
    q.len() <= pre.len() && pre.subrange(0, q.len() as int) == q
}

/// Splitting a sequence of sequences and flattening the halves yields the
/// flattened whole.
pub proof fn lemma_flatten_split(s: Seq<Seq<char>>, x: int)
    requires
        0 <= x <= s.len(),
    ensures
        s.flatten() == s.take(x).flatten() + s.skip(x).flatten(),
{
    vstd::seq_lib::lemma_flatten_concat(s.take(x), s.skip(x));
    assert(s.take(x) + s.skip(x) =~= s);
}

/// On flattened characters, a match at boundary `x` is a match at the
/// character offset where grapheme `x` starts.
pub proof fn lemma_match_at_chars(s: Seq<Seq<char>>, q: Seq<char>, x: int, flat: Seq<char>, px: int)
    requires
        0 <= x <= s.len(),
        flat == s.flatten(),
        px == s.take(x).flatten().len(),
    ensures
        0 <= px <= flat.len(),
        match_at(s, q, x) == (px + q.len() <= flat.len() && flat.subrange(px, px + q.len() as int)
            == q),
{
    lemma_flatten_split(s, x);
    let suf = s.skip(x).flatten();
    assert(flat =~= s.take(x).flatten() + suf);
    assert(suf =~= flat.subrange(px, flat.len() as int));
    if px + q.len() <= flat.len() {
        assert(flat.subrange(px, px + q.len() as int) =~= suf.subrange(0, q.len() as int));
    }
}

/// On flattened characters, a match inside the graphemes `[x, b)` is a
/// match at grapheme `x`'s start offset that ends by grapheme `b`'s start
/// offset.
pub proof fn lemma_match_within_chars(
    s: Seq<Seq<char>>,
    q: Seq<char>,
    x: int,
    b: int,
    flat: Seq<char>,
    px: int,
    pb: int,
)
    requires
        0 <= x <= b <= s.len(),
        flat == s.flatten(),
        px == s.take(x).flatten().len(),
        pb == s.take(b).flatten().len(),
    ensures
        0 <= px <= pb <= flat.len(),
        match_within(s, q, x, b) == (px + q.len() <= pb && flat.subrange(px, px + q.len() as int)
            == q),
{
    let pre = s.subrange(x, b).flatten();
    assert(s.take(x) + s.subrange(x, b) =~= s.take(b));
    vstd::seq_lib::lemma_flatten_concat(s.take(x), s.subrange(x, b));
    assert(s.take(b).flatten() =~= s.take(x).flatten() + pre);
    lemma_flatten_split(s, b);
    assert(flat =~= s.take(b).flatten() + s.skip(b).flatten());
    assert(pre =~= flat.subrange(px, pb));
    if px + q.len() <= pb {
        assert(pre.subrange(0, q.len() as int) =~= flat.subrange(px, px + q.len() as int));
    }
}

/// Whether `q` occurs in `flat` starting at character offset `p`.
pub(crate) fn chars_match_at(flat: &Vec<char>, q: &Vec<char>, p: usize) -> (r: bool)
    requires
        p <= flat@.len(),
    ensures
        r == (p + q@.len() <= flat@.len() && flat@.subrange(p as int, p + q@.len() as int) == q@),
{
    if q.len() > flat.len() - p {
        return false;
    }
    let mut k: usize = 0;
    while k < q.len()
        invariant
            p + q@.len() <= flat@.len(),
            k <= q@.len(),
            forall|t: int| 0 <= t < k ==> flat@[p + t] == q@[t],
        decreases q@.len() - k,
    {
        if flat[p + k] != q[k] {
            proof {
                if flat@.subrange(p as int, p + q@.len() as int) == q@ {
                    assert(flat@.subrange(p as int, p + q@.len() as int)[k as int] == q@[
                        k as int]);
                }
            }
            return false;
        }
        k += 1;
    }
    proof {
        assert(flat@.subrange(p as int, p + q@.len() as int) =~= q@);
    }
    true
}

impl Row {
    /// The flattened characters of the row together with, at every
    /// grapheme boundary, the character offset where that boundary falls.
    fn flat_starts(&self) -> (res: (Vec<char>, Vec<usize>))
        ensures
            res.0@ == self.flat(),
            res.1@.len() == self@.len() + 1,
            forall|i: int|
                0 <= i <= self@.len() ==> #[trigger] res.1@[i] == self@.take(i).flatten().len(),
    {
        let mut flat: Vec<char> = Vec::new();
        let mut starts: Vec<usize> = Vec::new();
        starts.push(0);
        proof {
            assert(self@.take(0).flatten() =~= Seq::<char>::empty());
        }
        let mut i: usize = 0;
        while i < self.graphemes.len()
            invariant
                i <= self@.len(),
                flat@ == self@.take(i as int).flatten(),
                starts@.len() == i + 1,
                forall|j: int| 0 <= j <= i ==> #[trigger] starts@[j] == self@.take(j).flatten().len(),
            decreases self@.len() - i,
        {
            let src = &self.graphemes[i];
            let ghost prefix = flat@;
            let mut j: usize = 0;
            while j < src.len()
                invariant
                    j <= src@.len(),
                    src.deep_view() == self@[i as int],
                    i < self@.len(),
                    flat@ == prefix + src@.take(j as int),
                decreases src@.len() - j,
            {
                flat.push(src[j]);
                j += 1;
            }
            proof {
                assert(src@.take(src@.len() as int) =~= src@);
                assert(src@ =~= src.deep_view());
                assert(self@.take(i as int).push(self@[i as int]) =~= self@.take(i + 1));
                self@.take(i as int).lemma_flatten_push(self@[i as int]);
                assert(flat@ =~= self@.take(i + 1).flatten());
            }
            starts.push(flat.len());
            i += 1;
        }
        proof {
            assert(self@.take(self@.len() as int) =~= self@);
        }
        (flat, starts)
    }

    /// Search for `query` inside this row alone, starting at grapheme
    /// offset `at`. Forward, the earliest occurrence at or after `at` is
    /// returned; backward, the latest occurrence lying wholly before
    /// boundary `at`.
    pub fn find(&self, query: &str, at: usize, direction: SearchDirection) -> (r: Option<usize>)
        ensures
            query@.len() == 0 ==> r is None,
            query@.len() >= 1 && direction == SearchDirection::Forward ==> (match r {
                Some(x) => at <= x < self@.len() && match_at(self@, query@, x as int) && (forall|
                    j: int|
                    at <= j < x ==> !match_at(self@, query@, j)),
                None => forall|j: int| at <= j < self@.len() ==> !match_at(self@, query@, j),
            }),
            query@.len() >= 1 && direction == SearchDirection::Backward ==> (match r {
                Some(x) => x < spec_min(at as int, self@.len() as int) && match_within(
                    self@,
                    query@,
                    x as int,
                    spec_min(at as int, self@.len() as int),
                ) && (forall|j: int|
                    x < j < spec_min(at as int, self@.len() as int) ==> !match_within(
                        self@,
                        query@,
                        j,
                        spec_min(at as int, self@.len() as int),
                    )),
                None => forall|j: int|
                    0 <= j < spec_min(at as int, self@.len() as int) ==> !match_within(
                        self@,
                        query@,
                        j,
                        spec_min(at as int, self@.len() as int),
                    ),
            }),
    {
        if query.is_empty() {
            return Option::None;
        }
        let (flat, starts) = self.flat_starts();
        let q = crate::text::str_chars(query);
        match direction {
            SearchDirection::Forward => {
                if at >= self.graphemes.len() {
                    return Option::None;
                }
                let mut x: usize = at;
                while x < self.graphemes.len()
                    invariant
                        at <= x <= self@.len(),
                        flat@ == self.flat(),
                        q@ == query@,
                        starts@.len() == self@.len() + 1,
                        forall|j: int|
                            0 <= j <= self@.len() ==> #[trigger] starts@[j] == self@.take(
                                j,
                            ).flatten().len(),
                        forall|j: int| at <= j < x ==> !match_at(self@, query@, j),
                    decreases self@.len() - x,
                {
                    let p = starts[x];
                    proof {
                        lemma_match_at_chars(self@, q@, x as int, flat@, p as int);
                    }
                    if chars_match_at(&flat, &q, p) {
                        return Option::Some(x);
                    }
                    x += 1;
                }
                Option::None
            },
            SearchDirection::Backward => {
                let b = if at < self.graphemes.len() {
                    at
                } else {
                    self.graphemes.len()
                };
                let pb = starts[b];
                let mut x: usize = b;
                while x > 0
                    invariant
                        x <= b,
                        b == spec_min(at as int, self@.len() as int),
                        flat@ == self.flat(),
                        q@ == query@,
                        pb == starts@[b as int],
                        starts@.len() == self@.len() + 1,
                        forall|j: int|
                            0 <= j <= self@.len() ==> #[trigger] starts@[j] == self@.take(
                                j,
                            ).flatten().len(),
                        forall|j: int|
                            x <= j < b ==> !match_within(self@, query@, j, b as int),
                    decreases x,
                {
                    x -= 1;
                    let px = starts[x];
                    proof {
                        lemma_match_within_chars(
                            self@,
                            q@,
                            x as int,
                            b as int,
                            flat@,
                            px as int,
                            pb as int,
                        );
                    }
                    if q.len() <= pb - px && chars_match_at(&flat, &q, px) {
                        return Option::Some(x);
                    }
                }
                Option::None
            },
        }
    }

    /// The number of leading whitespace graphemes, used to auto-indent
    /// after a newline insert.
    pub fn indentation(&self) -> (n: usize)
        ensures
            n <= self@.len(),
            forall|i: int| 0 <= i < n ==> white_grapheme(self@[i]),
            n < self@.len() ==> !white_grapheme(self@[n as int]),
    {
        let mut i: usize = 0;
        while i < self.graphemes.len()
            invariant
                i <= self@.len(),
                forall|j: int| 0 <= j < i ==> white_grapheme(self@[j]),
            decreases self@.len() - i,
        {
            if !grapheme_is_white(&self.graphemes[i]) {
                proof {
                    assert(self.graphemes@[i as int].deep_view() == self@[i as int]);
                    assert(self.graphemes@[i as int]@ =~= self@[i as int]);
                }
                return i;
            }
            proof {
                assert(self.graphemes@[i as int]@ =~= self@[i as int]);
            }
            i += 1;
        }
        i
    }
}

/// A grapheme counted as whitespace by indentation and trimming: all of
/// its characters are blanks.
pub open spec fn white_grapheme(g: Seq<char>) -> bool {
    forall|k: int| 0 <= k < g.len() ==> crate::text::spec_is_white(g[k])
}

/// Executable check of [`white_grapheme`].
fn grapheme_is_white(g: &Vec<char>) -> (r: bool)
    ensures
        r == white_grapheme(g@),
{
    let mut k: usize = 0;
    while k < g.len()
        invariant
            k <= g@.len(),
            forall|t: int| 0 <= t < k ==> crate::text::spec_is_white(g@[t]),
        decreases g@.len() - k,
    {
        if !crate::text::is_white(g[k]) {
            return false;
        }
        k += 1;
    }
    true
}

/// `n` blank characters.
pub open spec fn spec_spaces(n: nat) -> Seq<char> {
    Seq::new(n, |i: int| ' ')
}

/// Blanks to the next four-column tab stop from column `w`.
pub open spec fn tab_fill(w: nat) -> nat {
    (4 - (w % 4)) as nat
}

/// The rendered text of the graphemes `gs` starting at display column
/// `w`: a tab grapheme becomes blanks up to the next four-column stop,
/// any other grapheme contributes its characters and occupies one column.
pub open spec fn render_spec(gs: Seq<Seq<char>>, w: nat) -> Seq<char>
    decreases gs.len(),
{
    if gs.len() == 0 {
        Seq::<char>::empty()
    } else if gs[0] == seq!['\t'] {
        spec_spaces(tab_fill(w)) + render_spec(gs.drop_first(), (w + tab_fill(w)) as nat)
    } else {
        gs[0] + render_spec(gs.drop_first(), (w + 1) as nat)
    }
}

/// The characters of `s` with leading whitespace removed.
pub open spec fn drop_leading_white(s: Seq<char>) -> Seq<char>
    decreases s.len(),
{
    if s.len() > 0 && crate::text::spec_is_white(s[0]) {
        drop_leading_white(s.drop_first())
    } else {
        s
    }
}

/// The characters of `s` with trailing whitespace removed.
pub open spec fn drop_trailing_white(s: Seq<char>) -> Seq<char>
    decreases s.len(),
{
    if s.len() > 0 && crate::text::spec_is_white(s.last()) {
        drop_trailing_white(s.drop_last())
    } else {
        s
    }
}

/// `s` without leading and trailing whitespace.
pub open spec fn trim_white(s: Seq<char>) -> Seq<char> {
    drop_trailing_white(drop_leading_white(s))
}

/// Dropping leading whitespace skips exactly the leading run of blanks.
proof fn lemma_drop_leading(s: Seq<char>, a: int)
    requires
        0 <= a <= s.len(),
        forall|i: int| 0 <= i < a ==> crate::text::spec_is_white(s[i]),
        a < s.len() ==> !crate::text::spec_is_white(s[a]),
    ensures
        drop_leading_white(s) == s.skip(a),
    decreases a,
{
    if a == 0 {
        assert(s.skip(0) =~= s);
    } else {
        let t = s.drop_first();
        assert(t =~= s.skip(1));
        lemma_drop_leading(t, a - 1);
        assert(t.skip(a - 1) =~= s.skip(a));
    }
}

/// Dropping trailing whitespace keeps exactly the part before the
/// trailing run of blanks.
proof fn lemma_drop_trailing(s: Seq<char>, b: int)
    requires
        0 <= b <= s.len(),
        forall|i: int| b <= i < s.len() ==> crate::text::spec_is_white(s[i]),
        b > 0 ==> !crate::text::spec_is_white(s[b - 1]),
    ensures
        drop_trailing_white(s) == s.take(b),
    decreases s.len(),
{
    if s.len() > 0 && crate::text::spec_is_white(s.last()) {
        let t = s.drop_last();
        assert(t =~= s.take(s.len() - 1));
        lemma_drop_trailing(t, b);
        assert(t.take(b) =~= s.take(b));
    } else {
        assert(b == s.len());
        assert(s.take(b) =~= s);
    }
}

/// Append one grapheme to a grapheme vector, tracked on the deep view.
pub(crate) fn push_grapheme(gs: &mut Vec<Vec<char>>, g: Vec<char>)
    ensures
        final(gs).deep_view() == old(gs).deep_view().push(g@),
{
    let ghost pre = gs.deep_view();
    let ghost gv = g.deep_view();
    gs.push(g);
    proof {
        assert(gv =~= gs.deep_view()[pre.len() as int]);
        assert forall|k: int| 0 <= k < pre.len() implies gs.deep_view()[k] == pre[k] by {
            assert(gs.deep_view()[k] == gs@[k].deep_view());
        }
        assert(gs.deep_view() =~= pre.push(gv));
        assert(gv =~= gs@[pre.len() as int]@);
    }
}

/// A copy of a character vector, element by element.
fn copy_chars(v: &Vec<char>) -> (r: Vec<char>)
    ensures
        r@ == v@,
{
    let mut r: Vec<char> = Vec::new();
    let mut k: usize = 0;
    while k < v.len()
        invariant
            k <= v@.len(),
            r@ == v@.take(k as int),
        decreases v@.len() - k,
    {
        r.push(v[k]);
        k += 1;
    }
    proof {
        assert(v@.take(v@.len() as int) =~= v@);
    }
    r
}

/// A copy of a grapheme vector, equal on the deep view.
pub(crate) fn copy_graphemes(v: &Vec<Vec<char>>) -> (r: Vec<Vec<char>>)
    ensures
        r.deep_view() == v.deep_view(),
{
    let mut gs: Vec<Vec<char>> = Vec::new();
    let mut i: usize = 0;
    while i < v.len()
        invariant
            i <= v@.len(),
            gs.deep_view() == v.deep_view().take(i as int),
        decreases v@.len() - i,
    {
        let g = copy_chars(&v[i]);
        proof {
            assert(g@ =~= v@[i as int]@);
            assert(v@[i as int]@ =~= v.deep_view()[i as int]);
        }
        push_grapheme(&mut gs, g);
        proof {
            assert(v.deep_view().take(i as int).push(v.deep_view()[i as int]) =~= v.deep_view().take(
                i + 1,
            ));
        }
        i += 1;
    }
    proof {
        assert(v.deep_view().take(v.deep_view().len() as int) =~= v.deep_view());
    }
    gs
}

impl Clone for Row {
    /// A clone keeps the graphemes, the cached highlighting and both
    /// flags.
    fn clone(&self) -> (r: Self)
        ensures
            r@ == self@,
            r.hl() == self.hl(),
            r.spec_highlighted() == self.spec_highlighted(),
            r.spec_dirty() == self.spec_dirty(),
    {
        let gs = copy_graphemes(&self.graphemes);
        let mut hl: Vec<HlKind> = Vec::new();
        let mut j: usize = 0;
        while j < self.highlighting.len()
            invariant
                j <= self.hl().len(),
                hl@ == self.hl().take(j as int),
            decreases self.hl().len() - j,
        {
            hl.push(self.highlighting[j]);
            j += 1;
        }
        proof {
            assert(self.hl().take(self.hl().len() as int) =~= self.hl());
        }
        Row { graphemes: gs, highlighting: hl, is_highlighted: self.is_highlighted, dirty: self.dirty }
    }
}

impl Row {
    /// The visible text for grapheme columns `[start, end)`, with tabs
    /// expanded to the editor's four-column stops.
    pub fn render(&self, start: usize, end: usize) -> (r: String)
        ensures
            r@ == render_spec(
                self@.subrange(
                    spec_min(start as int, spec_min(end as int, self@.len() as int)),
                    spec_min(end as int, self@.len() as int),
                ),
                0,
            ),
    {
        let hi = if end < self.graphemes.len() {
            end
        } else {
            self.graphemes.len()
        };
        let lo = if start < hi {
            start
        } else {
            hi
        };
        let mut out: Vec<char> = Vec::new();
        let mut wm: usize = 0;
        let ghost mut w: nat = 0nat;
        let mut x: usize = lo;
        while x < hi
            invariant
                lo <= x <= hi,
                hi <= self@.len(),
                wm == w % 4,
                render_spec(self@.subrange(lo as int, hi as int), 0) == out@ + render_spec(
                    self@.subrange(x as int, hi as int),
                    w,
                ),
            decreases hi - x,
        {
            let ghost tail = self@.subrange(x as int, hi as int);
            proof {
                assert(tail[0] == self@[x as int]);
                assert(tail.drop_first() =~= self@.subrange(x + 1, hi as int));
            }
            let g = &self.graphemes[x];
            proof {
                assert(g@ =~= self@[x as int]);
            }
            if g.len() == 1 && g[0] == '\t' {
                proof {
                    assert(self@[x as int] =~= seq!['\t']);
                }
                let fill = 4 - wm;
                let ghost pre = out@;
                let mut t: usize = 0;
                while t < fill
                    invariant
                        t <= fill,
                        out@ == pre + spec_spaces(t as nat),
                    decreases fill - t,
                {
                    out.push(' ');
                    proof {
                        assert(out@ =~= pre + spec_spaces((t + 1) as nat));
                    }
                    t += 1;
                }
                proof {
                    assert(fill == tab_fill(w));
                    w = (w + tab_fill(w)) as nat;
                    assert(w % 4 == 0);
                }
                wm = 0;
            } else {
                proof {
                    assert(self@[x as int] != seq!['\t']) by {
                        if self@[x as int] == seq!['\t'] {
                            assert(g@.len() == 1 && g@[0] == '\t');
                        }
                    }
                }
                let ghost pre = out@;
                let mut k: usize = 0;
                while k < g.len()
                    invariant
                        k <= g@.len(),
                        out@ == pre + g@.take(k as int),
                    decreases g@.len() - k,
                {
                    out.push(g[k]);
                    k += 1;
                }
                proof {
                    assert(g@.take(g@.len() as int) =~= g@);
                }
                wm = if wm == 3 {
                    0
                } else {
                    wm + 1
                };
                proof {
                    w = (w + 1) as nat;
                }
            }
            x += 1;
        }
        proof {
            assert(self@.subrange(hi as int, hi as int) =~= Seq::<Seq<char>>::empty());
        }
        crate::text::chars_to_string(&out)
    }

    /// The row's text with leading and trailing whitespace removed, as
    /// yanked to the clipboard register.
    pub fn trimmed_contents(&self) -> (r: String)
        ensures
            r@ == trim_white(self.flat()),
    {
        let cs = self.flat_chars();
        let n = cs.len();
        let mut a: usize = 0;
        while a < n && crate::text::is_white(cs[a])
            invariant
                a <= n,
                forall|i: int| 0 <= i < a ==> crate::text::spec_is_white(cs@[i]),
            decreases n - a,
        {
            a += 1;
        }
        let mut z: usize = n;
        while z > a && crate::text::is_white(cs[z - 1])
            invariant
                a <= z <= n,
                forall|i: int| z <= i < n ==> crate::text::spec_is_white(cs@[i]),
            decreases z,
        {
            z -= 1;
        }
        let mut out: Vec<char> = Vec::new();
        let mut k: usize = a;
        while k < z
            invariant
                a <= k <= z,
                z <= n,
                n == cs@.len(),
                out@ == cs@.subrange(a as int, k as int),
            decreases z - k,
        {
            out.push(cs[k]);
            proof {
                assert(out@ =~= cs@.subrange(a as int, k + 1));
            }
            k += 1;
        }
        proof {
            lemma_drop_leading(cs@, a as int);
            let t = cs@.skip(a as int);
            lemma_drop_trailing(t, (z - a) as int);
            assert(t.take((z - a) as int) =~= cs@.subrange(a as int, z as int));
        }
        crate::text::chars_to_string(&out)
    }
}

impl Row {
    /// The cached per-character highlighting.
    pub fn highlighting(&self) -> (r: &Vec<HlKind>)
        ensures
            r@ == self.hl(),
    {
        &self.highlighting
    }

    /// Re-tokenize the row, caching one category per character of its
    /// text, and return the block-comment state handed to the next row.
    pub fn highlight(
        &mut self,
        opts: &crate::highlighting::HighlightingOptions,
        word: &Option<String>,
        start_with_comment: bool,
    ) -> (carry: bool)
        ensures
            final(self)@ == old(self)@,
            final(self).spec_dirty() == old(self).spec_dirty(),
            final(self).hl() == crate::highlighting::line_highlight(
                old(self).flat(),
                *opts,
                crate::highlighting::word_view(*word),
                start_with_comment,
            ),
            final(self).spec_highlighted(),
            carry == crate::highlighting::line_carry(old(self).flat(), *opts, start_with_comment),
    {
        let flat = self.flat_chars();
        let res = match word {
            Option::Some(wstr) => {
                let wv = crate::text::str_chars(wstr.as_str());
                crate::highlighting::highlight_line(
                    &flat,
                    opts,
                    Option::Some(&wv),
                    start_with_comment,
                )
            },
            Option::None => crate::highlighting::highlight_line(
                &flat,
                opts,
                Option::None,
                start_with_comment,
            ),
        };
        self.highlighting = res.0;
        self.is_highlighted = true;
        res.1
    }
}

/// The smaller of two integers.
pub open spec fn spec_min(a: int, b: int) -> int {
    if a < b {
        a
    } else {
        b
    }
}

} // verus!
