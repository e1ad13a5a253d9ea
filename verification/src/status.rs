//! The status line: the text the editor shows at the bottom of the
//! frame, built from the mode, the file identity, the cursor and the
//! viewport. Only the clock reading comes from outside.

use vstd::prelude::*;

use crate::editor::CursorPosition;
use crate::editor::Editor;
use crate::editor::Mode;
use crate::editor::Size;

verus! {

/// Relies on `chrono`'s timestamp formatting: the local date and clock
/// time of the given second. The result depends on the machine's time
/// zone, so nothing more is promised of it.
#[verifier::external_body]
fn format_date_time(secs: i64) -> String {
    match chrono::DateTime::from_timestamp(secs, 0) {
        Option::Some(t) => t.with_timezone(&chrono::Local).format("%Y-%m-%d %H:%M:%S").to_string(),
        Option::None => String::new(),
    }
}

/// The display name of a mode.
pub open spec fn mode_name_spec(m: Mode) -> Seq<char> {
    if m == Mode::Insert {
        "INSERT MODE"@
    } else if m == Mode::Normal {
        "NORMAL MODE"@
    } else if m == Mode::Replace {
        "REPLACE MODE"@
    } else {
        "VISUAL MODE"@
    }
}

/// The scroll indicator: `Top` on the first row, `Bottom` when the last
/// window of the buffer is shown and the cursor is inside it, else the
/// cursor's position as a percentage of the line count.
pub open spec fn progress_spec(
    off_y: int,
    cur_y: int,
    doclen: int,
    height: int,
) -> Seq<char> {
    if off_y == 0 {
        "Top"@
    } else if off_y == crate::editor::spec_sat_sub(doclen, crate::editor::spec_sat_sub(height, 1)) && cur_y >= off_y {
        "Bottom"@
    } else {
        "%"@ + crate::text::spec_decimal((if doclen > 0 {
            (crate::row::spec_min(cur_y, doclen) * 100) / doclen
        } else {
            0int
        }) as nat)
    }
}

/// The status line's text: mode, file name (at most twenty characters),
/// line count and modified marker on the left; clock, filetype, cursor
/// position and scroll indicator on the right, padded apart with blanks
/// and cut to the bar's width.
pub open spec fn status_bar_spec(
    mode: Mode,
    file_name: Option<String>,
    doclen: int,
    modified: bool,
    clock: Seq<char>,
    filetype: Seq<char>,
    cur: CursorPosition,
    off_y: int,
    width: int,
    height: int,
) -> Seq<char> {
    let name = (match file_name {
        Option::Some(n) => n@.take(if n@.len() < 20 {
            n@.len() as int
        } else {
            20
        }),
        Option::None => "[No Name]"@,
    });
    let left = mode_name_spec(mode) + " | "@ + name + " - "@ + crate::text::spec_decimal(
        doclen as nat,
    ) + " lines"@ + (if modified {
        " (modified)"@
    } else {
        ""@
    });
    let right = status_right_spec(clock, filetype, cur, off_y, doclen, height);
    let padded = left + spec_spaces_n(crate::editor::spec_sat_sub(width, (left.len() + right.len()) as int))
        + right;
    padded.take(if padded.len() < width {
        padded.len() as int
    } else {
        width
    })
}

/// `n` blanks.
pub open spec fn spec_spaces_n(n: int) -> Seq<char> {
    Seq::new(n as nat, |i: int| ' ')
}

/// The right half of the status bar's text.
pub open spec fn status_right_spec(
    clock: Seq<char>,
    filetype: Seq<char>,
    cur: CursorPosition,
    off_y: int,
    doclen: int,
    height: int,
) -> Seq<char> {
    clock + " "@ + filetype + " | "@ + crate::text::spec_decimal(
        crate::editor::spec_sat_add(cur.y as int, 1) as nat,
    ) + ":"@ + crate::text::spec_decimal(crate::editor::spec_sat_add(cur.x as int, 1) as nat) + " "@
        + progress_spec(off_y, cur.y as int, doclen, height)
}

impl Editor {
    /// Whether the buffer counts as modified for the status bar.
    pub open spec fn spec_modified(&self) -> bool {
        self.spec_versions().len() != 1 && self.spec_version_index() != 0
            && !self.spec_has_saved()
    }

    /// The left half of the status bar: mode, file name, line count
    /// and the modified marker.
    fn status_left(&self) -> (r: Vec<char>)
        ensures
            r@ == mode_name_spec(self.spec_mode()) + " | "@ + (match self.spec_doc().spec_file_name() {
                Option::Some(n) => n@.take(if n@.len() < 20 {
                    n@.len() as int
                } else {
                    20
                }),
                Option::None => "[No Name]"@,
            }) + " - "@ + crate::text::spec_decimal(self.spec_doc().content().len() as nat)
                + " lines"@ + (if self.spec_modified() {
                " (modified)"@
            } else {
                ""@
            }),
    {
        let doclen = self.document().len();
        let modified = self.contains_changes();
        let mut left: Vec<char> = Vec::new();
        match self.mode() {
            Mode::Insert => crate::text::push_str_chars(&mut left, "INSERT MODE"),
            Mode::Normal => crate::text::push_str_chars(&mut left, "NORMAL MODE"),
            Mode::Replace => crate::text::push_str_chars(&mut left, "REPLACE MODE"),
            Mode::Visual => crate::text::push_str_chars(&mut left, "VISUAL MODE"),
        }
        crate::text::push_str_chars(&mut left, " | ");
        match &self.document().file_name() {
            Option::Some(n) => {
                let cs = crate::text::str_chars(n.as_str());
                let cut = if cs.len() < 20 {
                    cs.len()
                } else {
                    20
                };
                let mut k: usize = 0;
                let ghost pre = left@;
                while k < cut
                    invariant
                        k <= cut,
                        cut <= cs@.len(),
                        left@ == pre + cs@.take(k as int),
                    decreases cut - k,
                {
                    left.push(cs[k]);
                    proof {
                        assert(left@ =~= pre + cs@.take(k + 1));
                    }
                    k += 1;
                }
            },
            Option::None => {
                crate::text::push_str_chars(&mut left, "[No Name]");
            },
        }
        crate::text::push_str_chars(&mut left, " - ");
        crate::text::push_decimal(&mut left, doclen as u64);
        crate::text::push_str_chars(&mut left, " lines");
        if modified {
            crate::text::push_str_chars(&mut left, " (modified)");
        }
        proof {
            reveal_strlit("");
            assert(""@ =~= Seq::<char>::empty());
            assert(left@ =~= mode_name_spec(self.spec_mode()) + " | "@ + (
            match self.spec_doc().spec_file_name() {
                Option::Some(n) => n@.take(if n@.len() < 20 {
                    n@.len() as int
                } else {
                    20
                }),
                Option::None => "[No Name]"@,
            }) + " - "@ + crate::text::spec_decimal(self.spec_doc().content().len() as nat)
                + " lines"@ + (if self.spec_modified() {
                " (modified)"@
            } else {
                ""@
            }));
        }
        left
    }

    /// The right half of the status bar: clock, filetype, cursor
    /// position and the scroll indicator.
    fn status_right(&self) -> (r: Vec<char>)
        ensures
            exists|clock: Seq<char>|
                r@ == #[trigger] status_right_spec(
                    clock,
                    self.spec_doc().spec_file_type().spec_name(),
                    self.spec_cursor(),
                    self.spec_offset().y as int,
                    self.spec_doc().content().len() as int,
                    self.spec_size().height as int,
                ),
    {
        let doclen = self.document().len();
        let mut right: Vec<char> = Vec::new();
        let clock = format_date_time(crate::editor::now_seconds());
        crate::text::push_str_chars(&mut right, clock.as_str());
        crate::text::push_str_chars(&mut right, " ");
        let ft = self.document().file_type();
        crate::text::push_str_chars(&mut right, ft.as_str());
        crate::text::push_str_chars(&mut right, " | ");
        crate::text::push_decimal(&mut right, self.cursor().y.saturating_add(1) as u64);
        crate::text::push_str_chars(&mut right, ":");
        crate::text::push_decimal(&mut right, self.cursor().x.saturating_add(1) as u64);
        crate::text::push_str_chars(&mut right, " ");
        let height = self.size().height as usize;
        if self.viewport_offset().y == 0 {
            crate::text::push_str_chars(&mut right, "Top");
        } else if self.viewport_offset().y == doclen.saturating_sub(height.saturating_sub(1))
            && self.cursor().y >= self.viewport_offset().y {
            crate::text::push_str_chars(&mut right, "Bottom");
        } else {
            crate::text::push_str_chars(&mut right, "%");
            let ycl = if self.cursor().y > doclen {
                doclen
            } else {
                self.cursor().y
            };
            proof {
                if doclen > 0 {
                    assert(((ycl as int) * 100) / (doclen as int) <= 100) by (nonlinear_arith)
                        requires
                            0 < doclen as int,
                            ycl as int <= doclen as int,
                    ;
                }
            }
            let pct: u64 = if doclen > 0 {
                ((((ycl as u128) * 100) / (doclen as u128))) as u64
            } else {
                0
            };
            crate::text::push_decimal(&mut right, pct);
        }
        proof {
            assert(doclen as int == self.spec_doc().content().len() as int);
            assert(right@ =~= status_right_spec(
                clock@,
                self.spec_doc().spec_file_type().spec_name(),
                self.spec_cursor(),
                self.spec_offset().y as int,
                self.spec_doc().content().len() as int,
                self.spec_size().height as int,
            ));
            assert(exists|clock: Seq<char>|
                right@ == #[trigger] status_right_spec(
                    clock,
                    self.spec_doc().spec_file_type().spec_name(),
                    self.spec_cursor(),
                    self.spec_offset().y as int,
                    self.spec_doc().content().len() as int,
                    self.spec_size().height as int,
                ));
        }
        right
    }

    /// The status bar's text for the current frame. The clock part is
    /// whatever the machine's clock and time zone give.
    pub fn status_bar_text(&self) -> (r: String)
        ensures
            exists|clock: Seq<char>|
                r@ == #[trigger] status_bar_spec(
                    self.spec_mode(),
                    self.spec_doc().spec_file_name(),
                    self.spec_doc().content().len() as int,
                    self.spec_modified(),
                    clock,
                    self.spec_doc().spec_file_type().spec_name(),
                    self.spec_cursor(),
                    self.spec_offset().y as int,
                    self.spec_size().width as int + 5,
                    self.spec_size().height as int,
                ),
    {
        let width = (self.size().width as usize) + 5;
        let left = self.status_left();
        let right = self.status_right();
        let ghost lv = left@;
        let ghost rv = right@;
        let ghost clock0 = choose|clock: Seq<char>|
            rv == #[trigger] status_right_spec(
                clock,
                self.spec_doc().spec_file_type().spec_name(),
                self.spec_cursor(),
                self.spec_offset().y as int,
                self.spec_doc().content().len() as int,
                self.spec_size().height as int,
            );
        let mut out: Vec<char> = Vec::new();
        let mut k: usize = 0;
        while k < left.len()
            invariant
                k <= lv.len(),
                left@ == lv,
                out@ == lv.take(k as int),
            decreases lv.len() - k,
        {
            out.push(left[k]);
            k += 1;
        }
        proof {
            assert(lv.take(lv.len() as int) =~= lv);
        }
        let total = if left.len() <= usize::MAX - right.len() {
            left.len() + right.len()
        } else {
            usize::MAX
        };
        let pad = width.saturating_sub(total);
        let ghost pre_pad = out@;
        let mut t: usize = 0;
        while t < pad
            invariant
                t <= pad,
                out@ == pre_pad + spec_spaces_n(t as int),
            decreases pad - t,
        {
            out.push(' ');
            proof {
                assert(out@ =~= pre_pad + spec_spaces_n(t + 1));
            }
            t += 1;
        }
        let ghost pre_right = out@;
        let mut k2: usize = 0;
        while k2 < right.len()
            invariant
                k2 <= rv.len(),
                right@ == rv,
                out@ == pre_right + rv.take(k2 as int),
            decreases rv.len() - k2,
        {
            out.push(right[k2]);
            proof {
                assert(out@ =~= pre_right + rv.take(k2 + 1));
            }
            k2 += 1;
        }
        proof {
            assert(rv.take(rv.len() as int) =~= rv);
        }
        if out.len() > width {
            out.truncate(width);
        }
        let r = crate::text::chars_to_string(&out);
        proof {
            let padded = lv + spec_spaces_n(pad as int) + rv;
            assert(pad as int == crate::editor::spec_sat_sub(width as int, (lv.len() + rv.len()) as int));
            assert(out@ =~= padded.take(if padded.len() < width as int {
                padded.len() as int
            } else {
                width as int
            }));
            assert(r@ == status_bar_spec(
                self.spec_mode(),
                self.spec_doc().spec_file_name(),
                self.spec_doc().content().len() as int,
                self.spec_modified(),
                clock0,
                self.spec_doc().spec_file_type().spec_name(),
                self.spec_cursor(),
                self.spec_offset().y as int,
                self.spec_size().width as int + 5,
                self.spec_size().height as int,
            ));
        }
        r
    }
}

} // verus!
