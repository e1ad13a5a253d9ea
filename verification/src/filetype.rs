//! Filetype detection and the per-filetype highlighting profile. The
//! filetype is detected once from the file name's extension when a file
//! is opened or saved; it fixes which lexical categories the highlighter
//! recognizes and the two keyword sets.

use vstd::prelude::*;

use crate::highlighting::HighlightingOptions;

verus! {

use vstd::string::StringExecFns;

/// A file name that selects the Rust profile: it ends in `.rs`.
pub open spec fn is_rust_name(s: Seq<char>) -> bool {
    s.len() >= 3 && s.subrange(s.len() - 3, s.len() as int) == ".rs"@
}

/// The first keyword set of the Rust profile.
pub open spec fn rust_primary_keywords() -> Seq<Seq<char>> {
    seq![
        "as"@, "break"@, "continue"@, "crate"@, "dyn"@, "else"@, "enum"@, "false"@, "fn"@,
        "for"@, "if"@, "impl"@, "in"@, "let"@, "loop"@, "match"@, "mod"@, "move"@, "mut"@,
        "pub"@, "ref"@, "return"@, "struct"@, "super"@, "trait"@, "true"@, "type"@, "use"@,
        "where"@, "while"@,
    ]
}

/// The second keyword set of the Rust profile: primitive type names.
pub open spec fn rust_secondary_keywords() -> Seq<Seq<char>> {
    seq![
        "bool"@, "char"@, "i8"@, "i16"@, "i32"@, "i64"@, "isize"@, "str"@, "u8"@, "u16"@,
        "u32"@, "u64"@, "usize"@,
    ]
}

/// Append a keyword, given as a string literal, to a keyword list.
fn push_kw(v: &mut Vec<Vec<char>>, s: &str)
    ensures
        final(v).deep_view() == old(v).deep_view().push(s@),
{
    let cs = crate::text::str_chars(s);
    crate::row::push_grapheme(v, cs);
}

/// The first keyword set of the Rust profile, as character vectors.
fn rust_primary() -> (r: Vec<Vec<char>>)
    ensures
        r.deep_view() == rust_primary_keywords(),
{
    let mut v: Vec<Vec<char>> = Vec::new();
    push_kw(&mut v, "as");
    push_kw(&mut v, "break");
    push_kw(&mut v, "continue");
    push_kw(&mut v, "crate");
    push_kw(&mut v, "dyn");
    push_kw(&mut v, "else");
    push_kw(&mut v, "enum");
    push_kw(&mut v, "false");
    push_kw(&mut v, "fn");
    push_kw(&mut v, "for");
    push_kw(&mut v, "if");
    push_kw(&mut v, "impl");
    push_kw(&mut v, "in");
    push_kw(&mut v, "let");
    push_kw(&mut v, "loop");
    push_kw(&mut v, "match");
    push_kw(&mut v, "mod");
    push_kw(&mut v, "move");
    push_kw(&mut v, "mut");
    push_kw(&mut v, "pub");
    push_kw(&mut v, "ref");
    push_kw(&mut v, "return");
    push_kw(&mut v, "struct");
    push_kw(&mut v, "super");
    push_kw(&mut v, "trait");
    push_kw(&mut v, "true");
    push_kw(&mut v, "type");
    push_kw(&mut v, "use");
    push_kw(&mut v, "where");
    push_kw(&mut v, "while");
    proof {
        assert(v.deep_view() =~= rust_primary_keywords());
    }
    v
}

/// The second keyword set of the Rust profile, as character vectors.
fn rust_secondary() -> (r: Vec<Vec<char>>)
    ensures
        r.deep_view() == rust_secondary_keywords(),
{
    let mut v: Vec<Vec<char>> = Vec::new();
    push_kw(&mut v, "bool");
    push_kw(&mut v, "char");
    push_kw(&mut v, "i8");
    push_kw(&mut v, "i16");
    push_kw(&mut v, "i32");
    push_kw(&mut v, "i64");
    push_kw(&mut v, "isize");
    push_kw(&mut v, "str");
    push_kw(&mut v, "u8");
    push_kw(&mut v, "u16");
    push_kw(&mut v, "u32");
    push_kw(&mut v, "u64");
    push_kw(&mut v, "usize");
    proof {
        assert(v.deep_view() =~= rust_secondary_keywords());
    }
    v
}

/// A detected filetype: its display name and its highlighting profile.
pub struct FileType {
    name: String,
    hlopts: HighlightingOptions,
}

impl Clone for FileType {
    /// A clone keeps the name and the whole profile.
    fn clone(&self) -> (r: Self)
        ensures
            r.spec_name() == self.spec_name(),
            r.spec_options().numbers == self.spec_options().numbers,
            r.spec_options().strings == self.spec_options().strings,
            r.spec_options().characters == self.spec_options().characters,
            r.spec_options().comments == self.spec_options().comments,
            r.spec_options().multiline_comments == self.spec_options().multiline_comments,
            crate::highlighting::opts_primary(r.spec_options()) == crate::highlighting::opts_primary(
                self.spec_options(),
            ),
            crate::highlighting::opts_secondary(r.spec_options())
                == crate::highlighting::opts_secondary(self.spec_options()),
    {
        FileType { name: self.name.clone(), hlopts: self.hlopts.clone() }
    }
}

impl FileType {
    /// The profile's display name, in specifications.
    pub closed spec fn spec_name(&self) -> Seq<char> {
        self.name@
    }

    /// The highlighting profile, in specifications.
    pub closed spec fn spec_options(&self) -> HighlightingOptions {
        self.hlopts
    }

    /// The filetype of a file with no recognized extension.
    pub fn plain() -> (r: FileType)
        ensures
            r.spec_name() == "No filetype"@,
            !r.spec_options().numbers,
            !r.spec_options().strings,
            !r.spec_options().characters,
            !r.spec_options().comments,
            !r.spec_options().multiline_comments,
            r.spec_options().primary_keywords.deep_view() =~= Seq::<Seq<char>>::empty(),
            r.spec_options().secondary_keywords.deep_view() =~= Seq::<Seq<char>>::empty(),
    {
        FileType { name: String::from_str("No filetype"), hlopts: HighlightingOptions::none() }
    }

    /// Detect the filetype from a file name: a name ending in `.rs`
    /// selects the Rust profile, any other name none.
    pub fn from(file_name: &str) -> (r: FileType)
        ensures
            is_rust_name(file_name@) ==> r.spec_name() == "Rust"@ && r.spec_options().numbers
                && r.spec_options().strings && r.spec_options().characters
                && r.spec_options().comments && r.spec_options().multiline_comments
                && r.spec_options().primary_keywords.deep_view() == rust_primary_keywords()
                && r.spec_options().secondary_keywords.deep_view() == rust_secondary_keywords(),
            !is_rust_name(file_name@) ==> r.spec_name() == "No filetype"@
                && !r.spec_options().numbers && !r.spec_options().strings
                && !r.spec_options().characters && !r.spec_options().comments
                && !r.spec_options().multiline_comments
                && r.spec_options().primary_keywords.deep_view() =~= Seq::<Seq<char>>::empty()
                && r.spec_options().secondary_keywords.deep_view() =~= Seq::<Seq<char>>::empty(),
    {
        let n = file_name.unicode_len();
        let is_rust = n >= 3 && file_name.get_char(n - 3) == '.' && file_name.get_char(n - 2)
            == 'r' && file_name.get_char(n - 1) == 's';
        proof {
            reveal_strlit(".rs");
            if is_rust {
                assert(file_name@.subrange(file_name@.len() - 3, file_name@.len() as int)
                    =~= ".rs"@);
            } else if file_name@.len() >= 3 {
                let tail = file_name@.subrange(file_name@.len() - 3, file_name@.len() as int);
                if tail == ".rs"@ {
                    assert(tail[0] == file_name@[file_name@.len() - 3]);
                    assert(tail[1] == file_name@[file_name@.len() - 2]);
                    assert(tail[2] == file_name@[file_name@.len() - 1]);
                    assert(tail[0] == '.' && tail[1] == 'r' && tail[2] == 's');
                }
            }
        }
        if is_rust {
            FileType {
                name: String::from_str("Rust"),
                hlopts: HighlightingOptions {
                    numbers: true,
                    strings: true,
                    characters: true,
                    comments: true,
                    multiline_comments: true,
                    primary_keywords: rust_primary(),
                    secondary_keywords: rust_secondary(),
                },
            }
        } else {
            FileType::plain()
        }
    }

    /// The profile's display name.
    pub fn name(&self) -> (r: String)
        ensures
            r@ == self.spec_name(),
    {
        self.name.clone()
    }

    /// The highlighting profile for this filetype.
    pub fn highlighting_options(&self) -> (r: &HighlightingOptions)
        ensures
            *r == self.spec_options(),
    {
        &self.hlopts
    }
}

} // verus!
