//! Syntax highlighting categories and the per-filetype profile that says
//! which of them are recognized. The per-line tokenizer itself also lives
//! here: a single left-to-right pass over a line's characters that carries
//! the "inside a block comment" state from one line to the next.

use vstd::prelude::*;

verus! {

/// The category attached to one character of a line for display emphasis.
#[derive(Clone, Copy, PartialEq, Eq, Structural, Debug)]
pub enum HlKind {
    /// No emphasis.
    Plain,
    /// A numeric literal.
    Number,
    /// An occurrence of the current search word.
    SearchMatch,
    /// A double-quoted string literal.
    StringLit,
    /// A single-quoted character literal.
    CharLit,
    /// A line comment, from its opening marker to the end of the line.
    Comment,
    /// A block comment, possibly spanning several lines.
    MultilineComment,
    /// A keyword of the first keyword set.
    PrimaryKeyword,
    /// A keyword of the second keyword set.
    SecondaryKeyword,
}

/// Which categories a filetype's highlighter recognizes, and its keyword
/// sets. An empty keyword set disables keyword highlighting.
pub struct HighlightingOptions {
    /// Recognize numeric literals.
    pub numbers: bool,
    /// Recognize double-quoted string literals.
    pub strings: bool,
    /// Recognize single-quoted character literals.
    pub characters: bool,
    /// Recognize line comments introduced by `//`.
    pub comments: bool,
    /// Recognize block comments delimited by `/*` and `*/`.
    pub multiline_comments: bool,
    /// Keywords of the first set, each as its characters.
    pub primary_keywords: Vec<Vec<char>>,
    /// Keywords of the second set, each as its characters.
    pub secondary_keywords: Vec<Vec<char>>,
}

impl Clone for HighlightingOptions {
    /// A clone keeps every flag and both keyword sets.
    fn clone(&self) -> (r: Self)
        ensures
            r.numbers == self.numbers,
            r.strings == self.strings,
            r.characters == self.characters,
            r.comments == self.comments,
            r.multiline_comments == self.multiline_comments,
            r.primary_keywords.deep_view() == self.primary_keywords.deep_view(),
            r.secondary_keywords.deep_view() == self.secondary_keywords.deep_view(),
    {
        HighlightingOptions {
            numbers: self.numbers,
            strings: self.strings,
            characters: self.characters,
            comments: self.comments,
            multiline_comments: self.multiline_comments,
            primary_keywords: crate::row::copy_graphemes(&self.primary_keywords),
            secondary_keywords: crate::row::copy_graphemes(&self.secondary_keywords),
        }
    }
}

impl HighlightingOptions {
    /// A profile that highlights nothing.
    pub fn none() -> (r: HighlightingOptions)
        ensures
            !r.numbers,
            !r.strings,
            !r.characters,
            !r.comments,
            !r.multiline_comments,
            r.primary_keywords@.len() == 0,
            r.secondary_keywords@.len() == 0,
    {
        HighlightingOptions {
            numbers: false,
            strings: false,
            characters: false,
            comments: false,
            multiline_comments: false,
            primary_keywords: Vec::new(),
            secondary_keywords: Vec::new(),
        }
    }
}

/// The keyword sets of a profile, as sequences.
pub open spec fn opts_primary(o: HighlightingOptions) -> Seq<Seq<char>> {
    o.primary_keywords.deep_view()
}

/// The secondary keyword set of a profile, as sequences.
pub open spec fn opts_secondary(o: HighlightingOptions) -> Seq<Seq<char>> {
    o.secondary_keywords.deep_view()
}

/// The index where a block-comment close marker `*/` first begins at or
/// after `i`, or the line length when the line has none.
pub open spec fn close_from(s: Seq<char>, i: int) -> int
    decreases s.len() - i when 0 <= i
{
    if i + 1 >= s.len() {
        s.len() as int
    } else if s[i] == '*' && s[i + 1] == '/' {
        i
    } else {
        close_from(s, i + 1)
    }
}

/// The position just past the quote character `q` that closes a literal
/// opened before `i`, honoring backslash escapes; the line length when
/// the literal runs to the end of the line.
pub open spec fn quote_end(s: Seq<char>, i: int, q: char) -> int
    decreases s.len() - i when 0 <= i
{
    if i >= s.len() {
        s.len() as int
    } else if s[i] == q {
        i + 1
    } else if s[i] == '\\' && i + 1 < s.len() {
        quote_end(s, i + 2, q)
    } else {
        quote_end(s, i + 1, q)
    }
}

/// The position just past a numeric literal continued from `i`: digits,
/// with at most one interior dot that must be followed by a digit.
pub open spec fn number_end(s: Seq<char>, i: int, seen_dot: bool) -> int
    decreases s.len() - i when 0 <= i
{
    if i >= s.len() {
        s.len() as int
    } else if crate::text::spec_is_digit(s[i]) {
        number_end(s, i + 1, seen_dot)
    } else if s[i] == '.' && !seen_dot && i + 1 < s.len() && crate::text::spec_is_digit(
        s[i + 1],
    ) {
        number_end(s, i + 1, true)
    } else {
        i
    }
}

/// Whether a word may begin at `i`: the line starts there or the
/// previous character is no identifier character.
pub open spec fn word_boundary(s: Seq<char>, i: int) -> bool {
    i == 0 || !crate::text::spec_is_ident(s[i - 1])
}

/// The keyword `kw` occurs at `i` and ends at a word boundary.
pub open spec fn kw_matches_at(s: Seq<char>, i: int, kw: Seq<char>) -> bool {
    kw.len() > 0 && i + kw.len() <= s.len() && s.subrange(i, i + kw.len()) == kw && (i + kw.len()
        == s.len() || !crate::text::spec_is_ident(s[i + kw.len()]))
}

/// The index in `kws` of the first keyword matching at `i`, or the
/// number of keywords when none matches.
pub open spec fn first_kw(kws: Seq<Seq<char>>, s: Seq<char>, i: int) -> int
    decreases kws.len(),
{
    if kws.len() == 0 {
        0
    } else if kw_matches_at(s, i, kws[0]) {
        0
    } else {
        1 + first_kw(kws.drop_first(), s, i)
    }
}

/// One tokenizer step at position `i`: the category it emits, the
/// position where the next token starts, and the carried block-comment
/// state after this token.
pub open spec fn hl_step(s: Seq<char>, opts: HighlightingOptions, in_ml: bool, i: int) -> (
    HlKind,
    int,
    bool,
)
    recommends
        0 <= i < s.len(),
{
    if in_ml {
        let j = close_from(s, i);
        if j < s.len() {
            (HlKind::MultilineComment, j + 2, false)
        } else {
            (HlKind::MultilineComment, s.len() as int, true)
        }
    } else if opts.multiline_comments && i + 1 < s.len() && s[i] == '/' && s[i + 1] == '*' {
        let j = close_from(s, i + 2);
        if j < s.len() {
            (HlKind::MultilineComment, j + 2, false)
        } else {
            (HlKind::MultilineComment, s.len() as int, true)
        }
    } else if opts.comments && i + 1 < s.len() && s[i] == '/' && s[i + 1] == '/' {
        (HlKind::Comment, s.len() as int, false)
    } else if opts.strings && s[i] == '"' {
        (HlKind::StringLit, quote_end(s, i + 1, '"'), false)
    } else if opts.characters && s[i] == '\'' {
        (HlKind::CharLit, quote_end(s, i + 1, '\''), false)
    } else if opts.numbers && crate::text::spec_is_digit(s[i]) && word_boundary(s, i) {
        (HlKind::Number, number_end(s, i + 1, false), false)
    } else if word_boundary(s, i) && first_kw(opts_primary(opts), s, i) < opts_primary(
        opts,
    ).len() {
        (
            HlKind::PrimaryKeyword,
            i + opts_primary(opts)[first_kw(opts_primary(opts), s, i)].len(),
            false,
        )
    } else if word_boundary(s, i) && first_kw(opts_secondary(opts), s, i) < opts_secondary(
        opts,
    ).len() {
        (
            HlKind::SecondaryKeyword,
            i + opts_secondary(opts)[first_kw(opts_secondary(opts), s, i)].len(),
            false,
        )
    } else {
        (HlKind::Plain, i + 1, false)
    }
}

/// `n` copies of one category.
pub open spec fn mk_kinds(k: HlKind, n: int) -> Seq<HlKind> {
    Seq::new(n as nat, |t: int| k)
}

/// The tokenizer's left-to-right pass from position `i` with carried
/// state `ml`: the categories of the remaining characters and the state
/// carried out at the end of the line.
pub open spec fn hl_scan(s: Seq<char>, opts: HighlightingOptions, ml: bool, i: int) -> (
    Seq<HlKind>,
    bool,
)
    decreases s.len() - i when 0 <= i
{
    if i < 0 || i >= s.len() {
        (Seq::<HlKind>::empty(), ml)
    } else {
        let (k, next, ml2) = hl_step(s, opts, ml, i);
        if i < next <= s.len() {
            let (rest, out) = hl_scan(s, opts, ml2, next);
            (mk_kinds(k, next - i) + rest, out)
        } else {
            (Seq::<HlKind>::empty(), ml)
        }
    }
}

/// The categories of a whole line, before search emphasis.
pub open spec fn scan_kinds(s: Seq<char>, opts: HighlightingOptions, ml: bool) -> Seq<HlKind> {
    hl_scan(s, opts, ml, 0).0
}

/// The block-comment state a line hands to the line after it.
pub open spec fn line_carry(s: Seq<char>, opts: HighlightingOptions, ml: bool) -> bool {
    hl_scan(s, opts, ml, 0).1
}

/// Character `k` lies inside an occurrence of the search word whose
/// whole span is unclaimed by any other category.
pub open spec fn word_match_cover(s: Seq<char>, kinds: Seq<HlKind>, w: Seq<char>, k: int) -> bool {
    exists|p: int|
        0 <= p <= k < p + w.len() && p + w.len() <= s.len() && #[trigger] s.subrange(
            p,
            p + w.len(),
        ) == w && (forall|t: int| p <= t < p + w.len() ==> kinds[t] == HlKind::Plain)
}

/// Overlay search-word emphasis on a line's categories: every unclaimed
/// occurrence of the word is tagged, all else is kept.
pub open spec fn apply_word(s: Seq<char>, kinds: Seq<HlKind>, w: Option<Seq<char>>) -> Seq<
    HlKind,
> {
    match w {
        Option::Some(wq) => {
            if wq.len() == 0 {
                kinds
            } else {
                Seq::new(
                    kinds.len(),
                    |k: int|
                        if word_match_cover(s, kinds, wq, k) {
                            HlKind::SearchMatch
                        } else {
                            kinds[k]
                        },
                )
            }
        },
        Option::None => kinds,
    }
}

/// An optional search word, as its characters.
pub open spec fn word_view(w: Option<String>) -> Option<Seq<char>> {
    match w {
        Option::Some(s) => Option::Some(s@),
        Option::None => Option::None,
    }
}

/// The categories of a whole line: the tokenizer's pass with the search
/// word overlaid.
pub open spec fn line_highlight(
    s: Seq<char>,
    opts: HighlightingOptions,
    w: Option<Seq<char>>,
    ml: bool,
) -> Seq<HlKind> {
    apply_word(s, scan_kinds(s, opts, ml), w)
}

/// `close_from` stays between `i` and the line length, and leaves room
/// for the two characters of the marker it found.
pub proof fn lemma_close_bounds(s: Seq<char>, i: int)
    requires
        0 <= i <= s.len(),
    ensures
        i <= close_from(s, i),
        close_from(s, i) <= s.len(),
        close_from(s, i) < s.len() ==> close_from(s, i) + 2 <= s.len(),
    decreases s.len() - i,
{
    if i + 1 >= s.len() {
    } else if s[i] == '*' && s[i + 1] == '/' {
    } else {
        lemma_close_bounds(s, i + 1);
    }
}

/// `quote_end` stays between `i` and the line length.
pub proof fn lemma_quote_bounds(s: Seq<char>, i: int, q: char)
    requires
        0 <= i <= s.len(),
    ensures
        i <= quote_end(s, i, q) <= s.len(),
    decreases s.len() - i,
{
    if i >= s.len() {
    } else if s[i] == q {
    } else if s[i] == '\\' && i + 1 < s.len() {
        lemma_quote_bounds(s, i + 2, q);
    } else {
        lemma_quote_bounds(s, i + 1, q);
    }
}

/// `number_end` stays between `i` and the line length.
pub proof fn lemma_number_bounds(s: Seq<char>, i: int, d: bool)
    requires
        0 <= i <= s.len(),
    ensures
        i <= number_end(s, i, d) <= s.len(),
    decreases s.len() - i,
{
    if i >= s.len() {
    } else if crate::text::spec_is_digit(s[i]) {
        lemma_number_bounds(s, i + 1, d);
    } else if s[i] == '.' && !d && i + 1 < s.len() && crate::text::spec_is_digit(s[i + 1]) {
        lemma_number_bounds(s, i + 1, true);
    } else {
    }
}

/// What the index returned by `first_kw` means: the first match, or
/// none.
pub proof fn lemma_first_kw(kws: Seq<Seq<char>>, s: Seq<char>, i: int)
    ensures
        0 <= first_kw(kws, s, i) <= kws.len(),
        first_kw(kws, s, i) < kws.len() ==> kw_matches_at(s, i, kws[first_kw(kws, s, i)]) && (
        forall|t: int| 0 <= t < first_kw(kws, s, i) ==> !kw_matches_at(s, i, kws[t])),
        first_kw(kws, s, i) == kws.len() ==> forall|t: int|
            0 <= t < kws.len() ==> !kw_matches_at(s, i, kws[t]),
    decreases kws.len(),
{
    if kws.len() == 0 {
    } else if kw_matches_at(s, i, kws[0]) {
    } else {
        lemma_first_kw(kws.drop_first(), s, i);
        assert forall|t: int| 1 <= t < kws.len() implies kws.drop_first()[t - 1] == kws[t] by {}
    }
}

/// Every tokenizer step moves forward and stays inside the line.
pub proof fn lemma_step_bounds(s: Seq<char>, opts: HighlightingOptions, ml: bool, i: int)
    requires
        0 <= i < s.len(),
    ensures
        i < hl_step(s, opts, ml, i).1 <= s.len(),
{
    lemma_close_bounds(s, i);
    if i + 1 < s.len() {
        lemma_close_bounds(s, i + 2);
    }
    lemma_quote_bounds(s, i + 1, '"');
    lemma_quote_bounds(s, i + 1, '\'');
    lemma_number_bounds(s, i + 1, false);
    lemma_first_kw(opts_primary(opts), s, i);
    lemma_first_kw(opts_secondary(opts), s, i);
}

/// A scan emits one category per character.
pub proof fn lemma_scan_len(s: Seq<char>, opts: HighlightingOptions, ml: bool, i: int)
    requires
        0 <= i <= s.len(),
    ensures
        hl_scan(s, opts, ml, i).0.len() == s.len() - i,
    decreases s.len() - i,
{
    if i < s.len() {
        let (k, next, ml2) = hl_step(s, opts, ml, i);
        lemma_step_bounds(s, opts, ml, i);
        lemma_scan_len(s, opts, ml2, next);
    }
}

/// Executable search for the next block-comment close marker.
fn close_from_exec(s: &Vec<char>, i: usize) -> (j: usize)
    requires
        i <= s@.len(),
    ensures
        j == close_from(s@, i as int),
{
    let slen = s.len();
    let mut j = i;
    while j < slen
        invariant
            i <= j <= s@.len(),
            slen == s@.len(),
            close_from(s@, i as int) == close_from(s@, j as int),
        decreases s@.len() - j,
    {
        if j + 1 >= slen {
            return slen;
        }
        if s[j] == '*' && s[j + 1] == '/' {
            return j;
        }
        proof {
            assert(close_from(s@, j as int) == close_from(s@, j + 1));
        }
        j += 1;
    }
    slen
}

/// Executable scan for the end of a quoted literal.
fn quote_end_exec(s: &Vec<char>, i: usize, q: char) -> (j: usize)
    requires
        i <= s@.len(),
    ensures
        j == quote_end(s@, i as int, q),
{
    let mut j = i;
    while j < s.len()
        invariant
            i <= j <= s@.len(),
            quote_end(s@, i as int, q) == quote_end(s@, j as int, q),
        decreases s@.len() - j,
    {
        if s[j] == q {
            return j + 1;
        }
        if s[j] == '\\' && j + 1 < s.len() {
            proof {
                assert(quote_end(s@, j as int, q) == quote_end(s@, j + 2, q));
            }
            j += 2;
        } else {
            proof {
                assert(quote_end(s@, j as int, q) == quote_end(s@, j + 1, q));
            }
            j += 1;
        }
    }
    s.len()
}

/// Executable scan for the end of a numeric literal.
fn number_end_exec(s: &Vec<char>, i: usize) -> (j: usize)
    requires
        i <= s@.len(),
    ensures
        j == number_end(s@, i as int, false),
{
    let mut j = i;
    let mut dot = false;
    while j < s.len()
        invariant
            i <= j <= s@.len(),
            number_end(s@, i as int, false) == number_end(s@, j as int, dot),
        decreases s@.len() - j,
    {
        if crate::text::is_digit(s[j]) {
            proof {
                assert(number_end(s@, j as int, dot) == number_end(s@, j + 1, dot));
            }
            j += 1;
        } else if s[j] == '.' && !dot && j + 1 < s.len() && crate::text::is_digit(s[j + 1]) {
            proof {
                assert(number_end(s@, j as int, dot) == number_end(s@, j + 1, true));
            }
            dot = true;
            j += 1;
        } else {
            return j;
        }
    }
    s.len()
}

/// Executable check of [`kw_matches_at`].
fn kw_match_exec(s: &Vec<char>, i: usize, kw: &Vec<char>) -> (r: bool)
    requires
        i <= s@.len(),
    ensures
        r == kw_matches_at(s@, i as int, kw@),
{
    if kw.len() == 0 {
        return false;
    }
    if kw.len() > s.len() - i {
        return false;
    }
    if !crate::row::chars_match_at(s, kw, i) {
        return false;
    }
    if i + kw.len() == s.len() {
        return true;
    }
    !crate::text::is_ident(s[i + kw.len()])
}

/// Executable counterpart of [`first_kw`].
fn first_kw_exec(kws: &Vec<Vec<char>>, s: &Vec<char>, i: usize) -> (m: usize)
    requires
        i <= s@.len(),
    ensures
        m == first_kw(kws.deep_view(), s@, i as int),
        m < kws.deep_view().len() ==> kw_matches_at(s@, i as int, kws.deep_view()[m as int]),
{
    proof {
        lemma_first_kw(kws.deep_view(), s@, i as int);
    }
    let ghost fk = first_kw(kws.deep_view(), s@, i as int);
    let mut k: usize = 0;
    while k < kws.len()
        invariant
            k <= kws@.len(),
            forall|t: int| 0 <= t < k ==> !kw_matches_at(s@, i as int, kws.deep_view()[t]),
        decreases kws@.len() - k,
    {
        let hit = kw_match_exec(s, i, &kws[k]);
        proof {
            assert(kws@[k as int]@ =~= kws.deep_view()[k as int]);
        }
        if hit {
            proof {
                if fk < k {
                    assert(kw_matches_at(s@, i as int, kws.deep_view()[fk]));
                } else if fk > k as int {
                    assert(!kw_matches_at(s@, i as int, kws.deep_view()[k as int]));
                }
            }
            return k;
        }
        k += 1;
    }
    proof {
        if fk < kws.deep_view().len() {
            assert(kw_matches_at(s@, i as int, kws.deep_view()[fk]));
        }
    }
    kws.len()
}

/// One executable tokenizer step, mirroring [`hl_step`].
fn step_exec(s: &Vec<char>, opts: &HighlightingOptions, ml: bool, i: usize) -> (res: (
    HlKind,
    usize,
    bool,
))
    requires
        i < s@.len(),
    ensures
        (res.0, res.1 as int, res.2) == hl_step(s@, *opts, ml, i as int),
        i < res.1 <= s@.len(),
{
    let slen = s.len();
    proof {
        lemma_step_bounds(s@, *opts, ml, i as int);
    }
    if ml {
        let j = close_from_exec(s, i);
        proof {
            lemma_close_bounds(s@, i as int);
        }
        if j < s.len() {
            (HlKind::MultilineComment, j + 2, false)
        } else {
            (HlKind::MultilineComment, s.len(), true)
        }
    } else if opts.multiline_comments && i + 1 < s.len() && s[i] == '/' && s[i + 1] == '*' {
        let j = close_from_exec(s, i + 2);
        proof {
            lemma_close_bounds(s@, i + 2);
        }
        if j < s.len() {
            (HlKind::MultilineComment, j + 2, false)
        } else {
            (HlKind::MultilineComment, s.len(), true)
        }
    } else if opts.comments && i + 1 < s.len() && s[i] == '/' && s[i + 1] == '/' {
        (HlKind::Comment, s.len(), false)
    } else if opts.strings && s[i] == '"' {
        (HlKind::StringLit, quote_end_exec(s, i + 1, '"'), false)
    } else if opts.characters && s[i] == '\'' {
        (HlKind::CharLit, quote_end_exec(s, i + 1, '\''), false)
    } else if opts.numbers && crate::text::is_digit(s[i]) && (i == 0 || !crate::text::is_ident(
        s[i - 1],
    )) {
        (HlKind::Number, number_end_exec(s, i + 1), false)
    } else if i == 0 || !crate::text::is_ident(s[i - 1]) {
        let m = first_kw_exec(&opts.primary_keywords, s, i);
        if m < opts.primary_keywords.len() {
            let kwlen = opts.primary_keywords[m].len();
            proof {
                assert(opts.primary_keywords@[m as int]@ =~= opts_primary(*opts)[m as int]);
            }
            (HlKind::PrimaryKeyword, i + kwlen, false)
        } else {
            let m2 = first_kw_exec(&opts.secondary_keywords, s, i);
            if m2 < opts.secondary_keywords.len() {
                let kwlen = opts.secondary_keywords[m2].len();
                proof {
                    assert(opts.secondary_keywords@[m2 as int]@ =~= opts_secondary(*opts)[
                        m2 as int]);
                }
                (HlKind::SecondaryKeyword, i + kwlen, false)
            } else {
                (HlKind::Plain, i + 1, false)
            }
        }
    } else {
        (HlKind::Plain, i + 1, false)
    }
}

/// A copy of a category vector.
fn copy_kinds(v: &Vec<HlKind>) -> (r: Vec<HlKind>)
    ensures
        r@ == v@,
{
    let mut r: Vec<HlKind> = Vec::new();
    let mut k: usize = 0;
    while k < v.len()
        invariant
            k <= v@.len(),
            r@ == v@.take(k as int),
        decreases v@.len() - k,
    {
        r.push(v[k]);
        k += 1;
    }
    proof {
        assert(v@.take(v@.len() as int) =~= v@);
    }
    r
}

/// `k` lies inside an unclaimed occurrence of the word beginning before
/// `pmax`.
pub open spec fn word_match_cover_before(
    s: Seq<char>,
    kinds: Seq<HlKind>,
    w: Seq<char>,
    k: int,
    pmax: int,
) -> bool {
    exists|p: int|
        0 <= p < pmax && p <= k < p + w.len() && p + w.len() <= s.len() && #[trigger] s.subrange(
            p,
            p + w.len(),
        ) == w && (forall|t: int| p <= t < p + w.len() ==> kinds[t] == HlKind::Plain)
}

/// A covering occurrence below one bound also lies below any larger
/// bound.
proof fn lemma_cover_monotone(
    s: Seq<char>,
    kinds: Seq<HlKind>,
    w: Seq<char>,
    k: int,
    p1: int,
    p2: int,
)
    requires
        p1 <= p2,
        word_match_cover_before(s, kinds, w, k, p1),
    ensures
        word_match_cover_before(s, kinds, w, k, p2),
{
    let p0 = choose|p0: int|
        0 <= p0 < p1 && p0 <= k < p0 + w.len() && p0 + w.len() <= s.len() && #[trigger] s.subrange(
            p0,
            p0 + w.len(),
        ) == w && (forall|t: int| p0 <= t < p0 + w.len() ==> kinds[t] == HlKind::Plain);
    assert(0 <= p0 < p2 && p0 <= k < p0 + w.len() && p0 + w.len() <= s.len() && s.subrange(
        p0,
        p0 + w.len(),
    ) == w && (forall|t: int| p0 <= t < p0 + w.len() ==> kinds[t] == HlKind::Plain));
}

/// When raising the bound by one adds a covering occurrence, that
/// occurrence starts exactly at the old bound.
proof fn lemma_cover_last(s: Seq<char>, kinds: Seq<HlKind>, w: Seq<char>, k: int, p: int)
    requires
        word_match_cover_before(s, kinds, w, k, p + 1),
        !word_match_cover_before(s, kinds, w, k, p),
    ensures
        p <= k < p + w.len(),
        p + w.len() <= s.len(),
        s.subrange(p, p + w.len()) == w,
        forall|t: int| p <= t < p + w.len() ==> kinds[t] == HlKind::Plain,
{
    let p0 = choose|p0: int|
        0 <= p0 < p + 1 && p0 <= k < p0 + w.len() && p0 + w.len() <= s.len()
            && #[trigger] s.subrange(p0, p0 + w.len()) == w && (forall|t: int|
            p0 <= t < p0 + w.len() ==> kinds[t] == HlKind::Plain);
    if p0 < p {
        assert(word_match_cover_before(s, kinds, w, k, p));
    }
    assert(p0 == p);
}

/// Every covering occurrence is seen once the bound passes the last
/// place the word can start.
proof fn lemma_cover_complete(s: Seq<char>, kinds: Seq<HlKind>, w: Seq<char>, k: int, pend: int)
    requires
        w.len() >= 1,
        s.len() - w.len() < pend,
        word_match_cover(s, kinds, w, k),
    ensures
        word_match_cover_before(s, kinds, w, k, pend),
{
    let p0 = choose|p0: int|
        0 <= p0 <= k < p0 + w.len() && p0 + w.len() <= s.len() && #[trigger] s.subrange(
            p0,
            p0 + w.len(),
        ) == w && (forall|t: int| p0 <= t < p0 + w.len() ==> kinds[t] == HlKind::Plain);
    assert(0 <= p0 < pend && p0 <= k < p0 + w.len() && p0 + w.len() <= s.len() && s.subrange(
        p0,
        p0 + w.len(),
    ) == w && (forall|t: int| p0 <= t < p0 + w.len() ==> kinds[t] == HlKind::Plain));
}

/// A covering occurrence below any bound is a covering occurrence.
proof fn lemma_cover_weaken(s: Seq<char>, kinds: Seq<HlKind>, w: Seq<char>, k: int, p: int)
    requires
        word_match_cover_before(s, kinds, w, k, p),
    ensures
        word_match_cover(s, kinds, w, k),
{
    let p0 = choose|p0: int|
        0 <= p0 < p && p0 <= k < p0 + w.len() && p0 + w.len() <= s.len() && #[trigger] s.subrange(
            p0,
            p0 + w.len(),
        ) == w && (forall|t: int| p0 <= t < p0 + w.len() ==> kinds[t] == HlKind::Plain);
    assert(0 <= p0 <= k < p0 + w.len() && p0 + w.len() <= s.len() && s.subrange(p0, p0 + w.len())
        == w && (forall|t: int| p0 <= t < p0 + w.len() ==> kinds[t] == HlKind::Plain));
}

/// Overlay the search word on a line's categories.
fn overlay_word(s: &Vec<char>, base: &Vec<HlKind>, w: &Vec<char>) -> (out: Vec<HlKind>)
    requires
        base@.len() == s@.len(),
        w@.len() >= 1,
    ensures
        out@ == apply_word(s@, base@, Option::Some(w@)),
{
    let mut out = copy_kinds(base);
    let mut p: usize = 0;
    while w.len() <= s.len() && p <= s.len() - w.len()
        invariant
            out@.len() == base@.len(),
            p <= s@.len(),
            forall|k: int|
                0 <= k < out@.len() ==> out@[k] == (if word_match_cover_before(
                    s@,
                    base@,
                    w@,
                    k,
                    p as int,
                ) {
                    HlKind::SearchMatch
                } else {
                    base@[k]
                }),
        decreases s@.len() - p,
    {
        let hit = crate::row::chars_match_at(s, w, p);
        let mut allp = true;
        if hit {
            let mut t: usize = 0;
            while t < w.len()
                invariant
                    t <= w@.len(),
                    p + w@.len() <= s@.len(),
                    allp == (forall|u: int| p <= u < p + t ==> base@[u] == HlKind::Plain),
                decreases w@.len() - t,
            {
                if !(matches!(base[p + t], HlKind::Plain)) {
                    proof {
                        assert(base@[p + t] != HlKind::Plain);
                        assert(!(forall|u: int|
                            p <= u < p + w@.len() ==> base@[u] == HlKind::Plain));
                    }
                    allp = false;
                    t = w.len();
                } else {
                    proof {
                        assert(base@[p + t] == HlKind::Plain);
                        if allp {
                            assert forall|u: int| p <= u < p + (t + 1) implies base@[u]
                                == HlKind::Plain by {
                                if u < p + t {
                                    assert(base@[u] == HlKind::Plain);
                                }
                            }
                        } else {
                            assert(!(forall|u: int|
                                p <= u < p + (t + 1) ==> base@[u] == HlKind::Plain)) by {
                                if (forall|u: int|
                                    p <= u < p + (t + 1) ==> base@[u] == HlKind::Plain) {
                                    assert(forall|u: int|
                                        p <= u < p + t ==> base@[u] == HlKind::Plain);
                                }
                            }
                        }
                    }
                    t += 1;
                }
            }
        }
        if hit && allp {
            let ghost prior = out@;
            let mut u: usize = 0;
            while u < w.len()
                invariant
                    u <= w@.len(),
                    p + w@.len() <= s@.len(),
                    out@.len() == prior.len(),
                    prior.len() == base@.len(),
                    forall|k: int|
                        0 <= k < out@.len() ==> out@[k] == (if p <= k < p + u {
                            HlKind::SearchMatch
                        } else {
                            prior[k]
                        }),
                decreases w@.len() - u,
            {
                out[p + u] = HlKind::SearchMatch;
                u += 1;
            }
            proof {
                assert forall|k: int| 0 <= k < out@.len() implies out@[k] == (
                if word_match_cover_before(s@, base@, w@, k, p + 1) {
                    HlKind::SearchMatch
                } else {
                    base@[k]
                }) by {
                    if p <= k < p + w@.len() {
                        assert(word_match_cover_before(s@, base@, w@, k, p + 1));
                    } else {
                        if word_match_cover_before(s@, base@, w@, k, p + 1)
                            && !word_match_cover_before(s@, base@, w@, k, p as int) {
                            lemma_cover_last(s@, base@, w@, k, p as int);
                        }
                        if word_match_cover_before(s@, base@, w@, k, p as int) {
                            lemma_cover_monotone(s@, base@, w@, k, p as int, p + 1);
                        }
                    }
                }
            }
        } else {
            proof {
                assert forall|k: int| 0 <= k < out@.len() implies out@[k] == (
                if word_match_cover_before(s@, base@, w@, k, p + 1) {
                    HlKind::SearchMatch
                } else {
                    base@[k]
                }) by {
                    if word_match_cover_before(s@, base@, w@, k, p + 1)
                        && !word_match_cover_before(s@, base@, w@, k, p as int) {
                        lemma_cover_last(s@, base@, w@, k, p as int);
                        assert(s@.subrange(p as int, p + w@.len()) == w@);
                        assert(forall|u: int| p <= u < p + w@.len() ==> base@[u] == HlKind::Plain);
                    }
                    if word_match_cover_before(s@, base@, w@, k, p as int) {
                        lemma_cover_monotone(s@, base@, w@, k, p as int, p + 1);
                    }
                }
            }
        }
        p += 1;
    }
    proof {
        assert forall|k: int| 0 <= k < out@.len() implies out@[k] == apply_word(
            s@,
            base@,
            Option::Some(w@),
        )[k] by {
            if word_match_cover(s@, base@, w@, k) {
                lemma_cover_complete(s@, base@, w@, k, p as int);
            }
            if word_match_cover_before(s@, base@, w@, k, p as int) {
                lemma_cover_weaken(s@, base@, w@, k, p as int);
            }
        }
        assert(out@ =~= apply_word(s@, base@, Option::Some(w@)));
    }
    out
}

/// Tokenize one line: the category of every character plus the carried
/// block-comment state handed to the next line, with the search word
/// overlaid on unclaimed spans.
pub fn highlight_line(
    s: &Vec<char>,
    opts: &HighlightingOptions,
    word: Option<&Vec<char>>,
    in_ml: bool,
) -> (res: (Vec<HlKind>, bool))
    ensures
        res.0@ == line_highlight(
            s@,
            *opts,
            match word {
                Option::Some(w) => Option::Some(w@),
                Option::None => Option::None,
            },
            in_ml,
        ),
        res.1 == line_carry(s@, *opts, in_ml),
{
    let mut kinds: Vec<HlKind> = Vec::new();
    let mut ml = in_ml;
    let mut i: usize = 0;
    while i < s.len()
        invariant
            i <= s@.len(),
            kinds@.len() == i,
            hl_scan(s@, *opts, in_ml, 0).0 == kinds@ + hl_scan(s@, *opts, ml, i as int).0,
            hl_scan(s@, *opts, in_ml, 0).1 == hl_scan(s@, *opts, ml, i as int).1,
        decreases s@.len() - i,
    {
        let (k, next, ml2) = step_exec(s, opts, ml, i);
        let ghost pre = kinds@;
        let mut t = i;
        while t < next
            invariant
                i <= t <= next,
                kinds@ == pre + mk_kinds(k, t - i),
            decreases next - t,
        {
            kinds.push(k);
            proof {
                assert(kinds@ =~= pre + mk_kinds(k, t + 1 - i));
            }
            t += 1;
        }
        proof {
            let tail = hl_scan(s@, *opts, ml2, next as int);
            assert(hl_scan(s@, *opts, ml, i as int).0 == mk_kinds(k, next - i) + tail.0);
            assert(hl_scan(s@, *opts, ml, i as int).1 == tail.1);
            assert(pre + (mk_kinds(k, next - i) + tail.0) =~= (pre + mk_kinds(k, next - i))
                + tail.0);
        }
        ml = ml2;
        i = next;
    }
    proof {
        assert(hl_scan(s@, *opts, ml, i as int).0 =~= Seq::<HlKind>::empty());
        assert(kinds@ + Seq::<HlKind>::empty() =~= kinds@);
        lemma_scan_len(s@, *opts, in_ml, 0);
    }
    match word {
        Option::Some(w) => {
            if w.len() > 0 {
                let out = overlay_word(s, &kinds, w);
                (out, ml)
            } else {
                (kinds, ml)
            }
        },
        Option::None => (kinds, ml),
    }
}

} // verus!
