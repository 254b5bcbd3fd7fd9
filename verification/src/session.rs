//! The reading session of one open file and the page navigation over it.

use vstd::prelude::*;
use crate::backward::{backward_page, render_backward};
use crate::config::{buffer_size, Settings};
use crate::decoder::Decoder;
use crate::forward::{forward_page, render_forward, Page};
use crate::units::{drop_empty, printable, to_units, units_of, units_view};

verus! {

/// The position of a reader in one file.
#[derive(Clone, Copy, Debug, PartialEq, Eq, Structural)]
pub struct Session {
    pub decoder: Decoder,
    /// The length of the file in bytes.
    pub file_len: u64,
    /// The offset behind the byte-order mark.
    pub bom_end: u64,
    /// Where the page shown begins.
    pub bookmark: u64,
    /// Where the page shown ends.
    pub bookmark_end: u64,
}

/// What paging backward came to.
pub enum PrevOutcome {
    /// Nothing lies before the page: the session is unchanged.
    TopOfFile,
    /// The bytes before the page hold nothing that can be shown.
    NonPrintable,
    /// The text of the page before.
    Page(String),
}

/// The byte-order mark of UTF-8.
pub open spec fn utf8_bom() -> Seq<u8> {
    seq![0xEFu8, 0xBBu8, 0xBFu8]
}

/// The byte-order mark of GB18030.
pub open spec fn gb18030_bom() -> Seq<u8> {
    seq![0x84u8, 0x31u8, 0x95u8, 0x33u8]
}

/// The length of the byte-order mark that `head`, the first bytes of a file,
/// begins with: 0 where it begins with none.
pub open spec fn bom_len(dec: Decoder, head: Seq<u8>) -> int {
    match dec {
        Decoder::Utf8 => if head.len() >= 3 && head.take(3) == utf8_bom() {
            3
        } else {
            0
        },
        Decoder::Gb18030 => if head.len() >= 4 && head.take(4) == gb18030_bom() {
            4
        } else {
            0
        },
    }
}

/// Looks for the decoder's byte-order mark at the head of a file.
pub fn chk_bom(dec: Decoder, head: &[u8]) -> (len: u64)
    ensures
        len == bom_len(dec, head@),
        len <= head@.len(),
{
    match dec {
        Decoder::Utf8 => {
            if head.len() >= 3 && head[0] == 0xEF && head[1] == 0xBB && head[2] == 0xBF {
                assert(head@.take(3) =~= utf8_bom());
                3
            } else {
                if head.len() >= 3 {
                    assert(head@.take(3)[0] == head@[0] && head@.take(3)[1] == head@[1] && head@.take(3)[2]
                        == head@[2]);
                }
                0
            }
        },
        Decoder::Gb18030 => {
            if head.len() >= 4 && head[0] == 0x84 && head[1] == 0x31 && head[2] == 0x95 && head[3] == 0x33 {
                assert(head@.take(4) =~= gb18030_bom());
                4
            } else {
                if head.len() >= 4 {
                    assert(head@.take(4)[0] == head@[0] && head@.take(4)[1] == head@[1] && head@.take(4)[2]
                        == head@[2] && head@.take(4)[3] == head@[3]);
                }
                0
            }
        },
    }
}

impl Session {
    /// The three offsets lie within the file.
    pub open spec fn wf(&self) -> bool {
        &&& self.bom_end <= self.file_len
        &&& self.bookmark <= self.file_len
        &&& self.bookmark_end <= self.file_len
    }

    /// A page is shown: it begins behind the byte-order mark and ends
    /// within the file.
    pub open spec fn settled(&self) -> bool {
        self.bom_end <= self.bookmark <= self.bookmark_end <= self.file_len
    }

    /// Where the next forward page is read from.
    pub open spec fn page_start(&self) -> int {
        if self.bookmark < self.bom_end {
            self.bom_end as int
        } else {
            self.bookmark as int
        }
    }

    /// Where the window of the page before begins: a page buffer before the
    /// end of the page shown, but not before the byte-order mark's end.
    pub open spec fn prev_start(&self, settings: Settings) -> int {
        let size = buffer_size(settings.dlwidth as int, settings.dheight as int, settings.wind_size as int);
        let back = if size > self.bookmark_end {
            0
        } else {
            self.bookmark_end - size
        };
        if back < self.bom_end {
            self.bom_end as int
        } else {
            back
        }
    }

    /// Opens a session on a file of `file_len` bytes that begins with
    /// `head`. The caret `saved` by an earlier session is taken up unless it
    /// lies behind the end of the file.
    pub fn open(decoder: Decoder, file_len: u64, saved: Option<u64>, head: &[u8]) -> (s: Session)
        requires
            head@.len() <= file_len,
        ensures
            s.decoder == decoder,
            s.file_len == file_len,
            s.bom_end == bom_len(decoder, head@),
            s.bookmark == match saved {
                Some(b) => if b <= file_len {
                    b
                } else {
                    0
                },
                None => 0,
            },
            s.bookmark_end == 0,
            s.wf(),
    {
        let bookmark: u64 = match saved {
            Some(b) => if b <= file_len {
                b
            } else {
                0
            },
            None => 0,
        };
        Session { decoder, file_len, bom_end: chk_bom(decoder, head), bookmark, bookmark_end: 0 }
    }

    /// The offset to read the next forward page from, and how many bytes.
    pub fn page_request(&self, settings: &Settings) -> (r: (u64, usize))
        requires
            settings.wf(),
        ensures
            r.0 == self.page_start(),
            r.1 == buffer_size(settings.dlwidth as int, settings.dheight as int, settings.wind_size as int),
    {
        let start: u64 = if self.bookmark < self.bom_end {
            self.bom_end
        } else {
            self.bookmark
        };
        (start, settings.big_enough_buf_size())
    }

    /// Shows the page that begins at the bookmark. `window` is the buffer
    /// that was read into from `page_start()` and `valid_len` what the read
    /// filled. The bookmark moves behind the byte-order mark if it stood
    /// before its end, and the page's end follows from what was laid out.
    pub fn show_page(&mut self, settings: &Settings, window: &[u8], valid_len: usize) -> (page: Page)
        requires
            old(self).wf(),
            settings.wf(),
            valid_len <= window.len(),
            old(self).page_start() + valid_len <= old(self).file_len,
        ensures
            final(self).bookmark == old(self).page_start(),
            final(self).bookmark_end == old(self).page_start() + page.consumed,
            final(self).decoder == old(self).decoder,
            final(self).file_len == old(self).file_len,
            final(self).bom_end == old(self).bom_end,
            final(self).settled(),
            page.text() == forward_page(
                old(self).decoder,
                window@.take(valid_len as int),
                settings.dlwidth as int,
                settings.dheight as int,
            ).lines,
            page.consumed == forward_page(
                old(self).decoder,
                window@.take(valid_len as int),
                settings.dlwidth as int,
                settings.dheight as int,
            ).consumed,
            page.depleted == forward_page(
                old(self).decoder,
                window@.take(valid_len as int),
                settings.dlwidth as int,
                settings.dheight as int,
            ).depleted,
            page.end_of_file == (page.depleted && valid_len < window.len()),
    {
        if self.bookmark < self.bom_end {
            self.bookmark = self.bom_end;
        }
        let page = render_forward(self.decoder, window, valid_len, settings.dlwidth, settings.dheight);
        self.bookmark_end = self.bookmark + page.consumed as u64;
        page
    }

    /// The offset to read the window of the page before from, and how many
    /// bytes; `None` at the top of the file.
    pub fn prev_request(&self, settings: &Settings) -> (r: Option<(u64, usize)>)
        requires
            settings.wf(),
        ensures
            self.prev_start(*settings) >= self.bookmark_end ==> r.is_none(),
            self.prev_start(*settings) < self.bookmark_end ==> r == Some(
                (self.prev_start(*settings) as u64, (self.bookmark_end - self.prev_start(*settings)) as usize),
            ),
    {
        let size = settings.big_enough_buf_size();
        let back: u64 = if size as u64 > self.bookmark_end {
            0
        } else {
            self.bookmark_end - size as u64
        };
        let start: u64 = if back < self.bom_end {
            self.bom_end
        } else {
            back
        };
        if start >= self.bookmark_end {
            None
        } else {
            Some((start, (self.bookmark_end - start) as usize))
        }
    }

    /// Shows the page that ends where the page shown ends (`bookmark_end`).
    /// `window` holds what was read from `prev_start()`, `valid_len` bytes
    /// of it. At the top of the file nothing changes. Else the units of the
    /// window (which begins on a character boundary where it begins behind
    /// the byte-order mark) that have text are laid out from the last one backward and the
    /// bookmark moves to the first unit of the page; where no unit has text
    /// it moves to the start of the window. `bookmark_end` stays.
    pub fn show_prev_page(&mut self, settings: &Settings, window: &[u8], valid_len: usize) -> (out: PrevOutcome)
        requires
            old(self).wf(),
            settings.wf(),
            valid_len <= window.len(),
            old(self).prev_start(*settings) < old(self).bookmark_end ==> valid_len <= old(self).bookmark_end - old(
                self,
            ).prev_start(*settings),
        ensures
            final(self).decoder == old(self).decoder,
            final(self).file_len == old(self).file_len,
            final(self).bom_end == old(self).bom_end,
            final(self).bookmark_end == old(self).bookmark_end,
            old(self).prev_start(*settings) >= old(self).bookmark_end ==> out is TopOfFile && *final(self) == *old(
                self,
            ),
            old(self).prev_start(*settings) < old(self).bookmark_end ==> {
                let units = printable(
                    units_of(
                        old(self).decoder,
                        window@.take(valid_len as int),
                        old(self).prev_start(*settings) == old(self).bom_end,
                    ),
                );
                let layout = backward_page(units, settings.dlwidth as int, settings.dheight as int);
                &&& final(self).settled()
                &&& units.len() == 0 ==> out is NonPrintable && final(self).bookmark == old(self).prev_start(
                    *settings,
                )
                &&& units.len() > 0 ==> out is Page && out->Page_0@ == layout.text && final(self).bookmark == old(
                    self,
                ).prev_start(*settings) + layout.start
            },
    {
        let start = match self.prev_request(settings) {
            None => {
                return PrevOutcome::TopOfFile;
            },
            Some(r) => r.0,
        };
        let all = to_units(self.decoder, window, valid_len, start == self.bom_end);
        let units = drop_empty(&all);
        if units.len() == 0 {
            self.bookmark = start;
            return PrevOutcome::NonPrintable;
        }
        assert forall|i: int| 0 <= i < units@.len() implies 1 <= (#[trigger] units@[i]).cols <= 2 && units@[i].offset
            < valid_len by {
            let j = choose|j: int| 0 <= j < all@.len() && units@[i]@ == (#[trigger] all@[j])@;
            assert(1 <= all@[j].cols <= 2);
        }
        let page = render_backward(&units, settings.dlwidth, settings.dheight);
        self.bookmark = start + page.start as u64;
        PrevOutcome::Page(page.text)
    }

    /// Moves to `target`, the product of the file's length and a share
    /// between 0 and 1, cut to the file's length. The page there is shown by
    /// `show_page`.
    pub fn percentage_seek(&mut self, target: u64)
        ensures
            final(self).bookmark == if target > old(self).file_len {
                old(self).file_len
            } else {
                target
            },
            final(self).bookmark_end == final(self).bookmark,
            final(self).decoder == old(self).decoder,
            final(self).file_len == old(self).file_len,
            final(self).bom_end == old(self).bom_end,
            old(self).bom_end <= old(self).file_len ==> final(self).wf(),
    {
        let bm: u64 = if target > self.file_len {
            self.file_len
        } else {
            target
        };
        self.bookmark = bm;
        self.bookmark_end = bm;
    }

    /// Moves to a match found `idx` bytes behind the bookmark. The page
    /// there is shown by `show_page`.
    pub fn land_on_match(&mut self, idx: u64)
        requires
            old(self).bookmark + idx <= old(self).file_len,
        ensures
            final(self).bookmark == old(self).bookmark + idx,
            final(self).bookmark_end == final(self).bookmark,
            final(self).decoder == old(self).decoder,
            final(self).file_len == old(self).file_len,
            final(self).bom_end == old(self).bom_end,
            old(self).bom_end <= old(self).file_len ==> final(self).wf(),
    {
        self.bookmark = self.bookmark + idx;
        self.bookmark_end = self.bookmark;
    }

    /// Turns to the next page: it begins where the page shown ends.
    pub fn turn_forward(&mut self)
        ensures
            *final(self) == (Session { bookmark: old(self).bookmark_end, ..*old(self) }),
    {
        self.bookmark = self.bookmark_end;
    }

    /// Turns to the page before: it ends where the page shown begins.
    pub fn turn_backward(&mut self)
        ensures
            *final(self) == (Session { bookmark_end: old(self).bookmark, ..*old(self) }),
    {
        self.bookmark_end = self.bookmark;
    }

    /// How far into the file the bookmark stands, in whole percent; `None`
    /// for an empty file.
    pub fn progress_percent(&self) -> (p: Option<u64>)
        requires
            self.bookmark <= self.file_len,
        ensures
            self.file_len == 0 ==> p.is_none(),
            self.file_len > 0 ==> p == Some((self.bookmark * 100 / self.file_len as int) as u64),
    {
        if self.file_len == 0 {
            None
        } else {
            let scaled: u128 = self.bookmark as u128 * 100;
            let p: u128 = scaled / self.file_len as u128;
            assert(p <= 100) by (nonlinear_arith)
                requires
                    p == scaled / self.file_len as u128,
                    scaled <= self.file_len * 100,
                    self.file_len > 0,
            ;
            Some(p as u64)
        }
    }
}

} // verus!
