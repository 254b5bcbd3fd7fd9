//! Forward page layout: display lines are filled from an offset onwards.

use vstd::prelude::*;
use vstd::string::*;
use crate::decoder::{Decoder, Token, TokenKind};

verus! {

/// What a forward layout yields: the display lines in order, the offset
/// behind the last line shown and whether the window ran out first.
pub struct Layout {
    pub lines: Seq<Seq<char>>,
    pub consumed: int,
    pub depleted: bool,
}

/// A rendered page.
pub struct Page {
    /// The display lines, each led by its marker column.
    pub lines: Vec<String>,
    /// Offset, within the window, behind the last line shown.
    pub consumed: usize,
    /// The window ran out before the page was full.
    pub depleted: bool,
    /// The window ran out and was shorter than asked for: the file ends here.
    pub end_of_file: bool,
}

impl Page {
    /// The lines as sequences of characters.
    pub open spec fn text(&self) -> Seq<Seq<char>> {
        Seq::new(self.lines@.len(), |i: int| self.lines@[i]@)
    }
}

/// The start of a display line that continues a wrapped line.
pub open spec fn wrapped_lead() -> Seq<char> {
    " "@
}

/// The start of a display line that follows a line feed.
pub open spec fn real_lead() -> Seq<char> {
    "$"@
}

/// The state of a layout in progress: the line being filled, its width in
/// columns, the offset reached, the lines already shown and the offset
/// behind the last of them.
pub struct Scan {
    pub off: int,
    pub line: Seq<char>,
    pub width: int,
    pub height: int,
    pub lines: Seq<Seq<char>>,
    pub consumed: int,
}

/// One step of the layout: the page is finished, or the scan goes on.
pub enum Step {
    Done(Layout),
    Next(Scan),
}

/// The first offset from `off` on at which no bytes are passed over: the
/// end of the window at the latest.
pub open spec fn past_skips(dec: Decoder, w: Seq<u8>, off: int) -> int
    decreases w.len() - off,
{
    let t = dec.token_at(w, off);
    if 0 <= off < w.len() && (t.kind == TokenKind::Skip || t.kind == TokenKind::Invalid) && t.len >= 1 {
        past_skips(dec, w, off + t.len)
    } else {
        off
    }
}

/// Closes the line in progress: `lines` and `consumed` are the page so far.
/// The page ends when `dheight` lines are shown, else a line led by `lead`
/// begins at `off`.
pub open spec fn close_line(
    s: Scan,
    dheight: int,
    off: int,
    lead: Seq<char>,
    lines: Seq<Seq<char>>,
    consumed: int,
) -> Step {
    if s.height + 1 == dheight {
        Step::Done(Layout { lines, consumed, depleted: false })
    } else {
        Step::Next(Scan { off, line: lead, width: 1, height: s.height + 1, lines, consumed })
    }
}

/// What the layout does at state `s`.
///
/// A token that asks for two columns the line has no room for closes the
/// line before anything is consumed. The end of the window, or a sequence
/// cut by it, flushes a line that holds anything. A line feed closes a line
/// that holds anything and marks the next one. A character is appended, and
/// closes the line when that fills it; the bytes behind it that are passed
/// over go with the line, so that a page ends where the next thing to show
/// begins, however its last line was closed.
pub open spec fn forward_step(dec: Decoder, w: Seq<u8>, dlwidth: int, dheight: int, s: Scan) -> Step {
    let t = dec.token_at(w, s.off);
    if t.cols == 2 && s.width + 2 > dlwidth {
        close_line(s, dheight, s.off, wrapped_lead(), s.lines.push(s.line), s.off)
    } else {
        match t.kind {
            TokenKind::End | TokenKind::Cut => {
                if s.line != wrapped_lead() {
                    Step::Done(Layout { lines: s.lines.push(s.line), consumed: s.off, depleted: true })
                } else {
                    Step::Done(Layout { lines: s.lines, consumed: s.consumed, depleted: true })
                }
            },
            TokenKind::Skip | TokenKind::Invalid => Step::Next(Scan { off: s.off + t.len, ..s }),
            TokenKind::Newline => {
                if s.line != wrapped_lead() {
                    close_line(s, dheight, s.off + 1, real_lead(), s.lines.push(s.line), s.off)
                } else {
                    Step::Next(Scan { off: s.off + 1, line: real_lead(), width: 1, ..s })
                }
            },
            TokenKind::Glyph => {
                let grown = s.line + dec.glyph_text(w, s.off, t.len as int);
                if s.width + t.cols == dlwidth {
                    let next = past_skips(dec, w, s.off + t.len);
                    close_line(s, dheight, next, wrapped_lead(), s.lines.push(grown), next)
                } else {
                    Step::Next(Scan { off: s.off + t.len, line: grown, width: s.width + t.cols, ..s })
                }
            },
        }
    }
}

/// The layout reached from state `s` in at most `fuel` steps.
pub open spec fn forward_run(dec: Decoder, w: Seq<u8>, dlwidth: int, dheight: int, s: Scan, fuel: nat) -> Layout
    decreases fuel,
{
    if fuel == 0 {
        Layout { lines: s.lines, consumed: s.consumed, depleted: false }
    } else {
        match forward_step(dec, w, dlwidth, dheight, s) {
            Step::Done(layout) => layout,
            Step::Next(next) => forward_run(dec, w, dlwidth, dheight, next, (fuel - 1) as nat),
        }
    }
}

/// The state in which every page begins.
pub open spec fn first_scan() -> Scan {
    Scan { off: 0, line: wrapped_lead(), width: 1, height: 0, lines: Seq::empty(), consumed: 0 }
}

/// The page that starts at the first byte of window `w`: at most `dheight`
/// display lines of `dlwidth` columns, the first of which is the marker.
/// Every step consumes a byte or closes a line, so the steps allowed here
/// are never used up.
pub open spec fn forward_page(dec: Decoder, w: Seq<u8>, dlwidth: int, dheight: int) -> Layout {
    forward_run(dec, w, dlwidth, dheight, first_scan(), w.len() + dheight as nat)
}

/// Passes over the bytes from `off` on that are never shown.
pub fn skip_over(dec: Decoder, window: &[u8], valid_len: usize, off: usize) -> (next: usize)
    requires
        valid_len <= window.len(),
        off <= valid_len,
    ensures
        next == past_skips(dec, window@.take(valid_len as int), off as int),
        off <= next <= valid_len,
{
    let ghost w = window@.take(valid_len as int);
    let mut next: usize = off;
    let mut done = false;
    while !done
        invariant
            valid_len <= window.len(),
            w == window@.take(valid_len as int),
            off <= next <= valid_len,
            past_skips(dec, w, off as int) == past_skips(dec, w, next as int),
            done ==> past_skips(dec, w, next as int) == next,
        decreases (if done { 0int } else { 1int }) + (valid_len - next),
    {
        let t: Token = dec.classify(window, valid_len, next);
        match t.kind {
            TokenKind::Skip | TokenKind::Invalid => {
                next = next + t.len;
            },
            _ => {
                done = true;
            },
        }
    }
    next
}

/// Lays out one page from the first `valid_len` bytes of `window`.
///
/// `window` is the buffer that was offered to the read and `valid_len` what
/// the read filled: a window that runs out although the buffer had room left
/// ends the file.
pub fn render_forward(dec: Decoder, window: &[u8], valid_len: usize, dlwidth: usize, dheight: usize) -> (page: Page)
    requires
        valid_len <= window.len(),
        dlwidth >= 2,
        dheight >= 1,
    ensures
        page.text() == forward_page(dec, window@.take(valid_len as int), dlwidth as int, dheight as int).lines,
        page.consumed == forward_page(dec, window@.take(valid_len as int), dlwidth as int, dheight as int).consumed,
        page.depleted == forward_page(dec, window@.take(valid_len as int), dlwidth as int, dheight as int).depleted,
        page.end_of_file == (page.depleted && valid_len < window.len()),
        page.consumed <= valid_len,
        page.lines@.len() <= dheight,
{
    let ghost w = window@.take(valid_len as int);
    let ghost goal = forward_page(dec, w, dlwidth as int, dheight as int);
    let blank = String::from_str(" ");
    let mut lines: Vec<String> = Vec::new();
    let mut line = String::from_str(" ");
    let mut off: usize = 0;
    let mut width: usize = 1;
    let mut height: usize = 0;
    let mut consumed: usize = 0;
    let mut depleted = false;
    let mut done = false;
    let ghost mut shown: Seq<Seq<char>> = Seq::empty();
    let ghost mut fuel: nat = w.len() + dheight as nat;
    while !done
        invariant
            valid_len <= window.len(),
            w == window@.take(valid_len as int),
            dlwidth >= 2,
            dheight >= 1,
            blank@ == wrapped_lead(),
            off <= valid_len,
            consumed <= off,
            1 <= width < dlwidth,
            lines@.len() == shown.len(),
            forall|i: int| 0 <= i < shown.len() ==> (#[trigger] lines@[i])@ == shown[i],
            !done ==> height < dheight,
            !done ==> !depleted,
            !done ==> shown.len() == height,
            shown.len() <= dheight,
            !done ==> fuel >= (valid_len - off) + (dheight - height),
            !done ==> fuel >= 1,
            !done ==> goal == forward_run(
                dec,
                w,
                dlwidth as int,
                dheight as int,
                (Scan {
                    off: off as int,
                    line: line@,
                    width: width as int,
                    height: height as int,
                    lines: shown,
                    consumed: consumed as int,
                }),
                fuel,
            ),
            done ==> goal == (Layout { lines: shown, consumed: consumed as int, depleted }),
        decreases (if done { 0int } else { 1int }) + (valid_len - off) + (dheight - height),
    {
        let t: Token = dec.classify(window, valid_len, off);
        let mut broke = false;
        let mut lead_real = false;
        if t.cols == 2 && dlwidth - width < 2 {
            lines.push(line);
            proof {
                shown = shown.push(line@);
            }
            consumed = off;
            broke = true;
            line = String::new();
        } else {
            match t.kind {
                TokenKind::End | TokenKind::Cut => {
                    if !(line == blank) {
                        lines.push(line);
                        proof {
                            shown = shown.push(line@);
                        }
                        consumed = off;
                        line = String::new();
                    }
                    depleted = true;
                    done = true;
                },
                TokenKind::Skip | TokenKind::Invalid => {
                    off = off + t.len;
                    proof {
                        fuel = (fuel - 1) as nat;
                    }
                },
                TokenKind::Newline => {
                    if !(line == blank) {
                        lines.push(line);
                        proof {
                            shown = shown.push(line@);
                        }
                        consumed = off;
                        broke = true;
                        lead_real = true;
                        line = String::new();
                    } else {
                        line = String::from_str("$");
                        width = 1;
                        proof {
                            fuel = (fuel - 1) as nat;
                        }
                    }
                    off = off + 1;
                },
                TokenKind::Glyph => {
                    let piece = dec.glyph_string(window, valid_len, off, t.len);
                    line.append(piece.as_str());
                    off = off + t.len;
                    width = width + t.cols;
                    if width == dlwidth {
                        off = skip_over(dec, window, valid_len, off);
                        lines.push(line);
                        proof {
                            shown = shown.push(line@);
                        }
                        consumed = off;
                        broke = true;
                        line = String::new();
                    } else {
                        proof {
                            fuel = (fuel - 1) as nat;
                        }
                    }
                },
            }
        }
        if broke {
            height = height + 1;
            width = 1;
            if height == dheight {
                done = true;
            } else {
                line = if lead_real { String::from_str("$") } else { String::from_str(" ") };
                proof {
                    fuel = (fuel - 1) as nat;
                }
            }
        }
    }
    let page = Page { lines, consumed, depleted, end_of_file: depleted && valid_len < window.len() };
    assert(page.text() =~= shown);
    page
}

/// No byte of `w` is a line end or lies outside ASCII.
pub open spec fn plain_ascii(w: Seq<u8>) -> bool {
    forall|i: int| 0 <= i < w.len() ==> (#[trigger] w[i]) <= 0x7F && w[i] != 0x0A && w[i] != 0x0D
}

/// Every line of `layout` begins with the wrap marker and is no wider than
/// `dlwidth`, and every line is filled to `dlwidth` columns, but for the
/// last one of a window that ran out.
pub open spec fn lines_filled(layout: Layout, dlwidth: int) -> bool {
    forall|i: int|
        0 <= i < layout.lines.len() ==> {
            &&& 2 <= (#[trigger] layout.lines[i]).len() <= dlwidth
            &&& layout.lines[i][0] == ' '
            &&& (i + 1 < layout.lines.len() || !layout.depleted) ==> layout.lines[i].len() == dlwidth
        }
}

/// The state of a layout over plain ASCII: the lines shown are full and the
/// line in progress holds its marker and one character for each column.
pub open spec fn plain_scan(w: Seq<u8>, dlwidth: int, dheight: int, s: Scan) -> bool {
    &&& 0 <= s.off <= w.len()
    &&& 1 <= s.width < dlwidth
    &&& s.line.len() == s.width
    &&& s.line[0] == ' '
    &&& 0 <= s.height < dheight
    &&& forall|i: int|
        0 <= i < s.lines.len() ==> (#[trigger] s.lines[i]).len() == dlwidth && s.lines[i][0] == ' '
}

/// Nothing of plain ASCII is passed over.
pub proof fn lemma_plain_no_skips(dec: Decoder, w: Seq<u8>, off: int)
    requires
        plain_ascii(w),
    ensures
        past_skips(dec, w, off) == off,
{
    if 0 <= off < w.len() {
        assert(w[off] <= 0x7F && w[off] != 0x0A && w[off] != 0x0D);
        assert(dec.token_at(w, off) == crate::decoder::token(TokenKind::Glyph, 1, 1));
    }
}

proof fn lemma_plain_run(dec: Decoder, w: Seq<u8>, dlwidth: int, dheight: int, s: Scan, fuel: nat)
    requires
        plain_ascii(w),
        dlwidth >= 2,
        plain_scan(w, dlwidth, dheight, s),
        fuel >= (w.len() - s.off) + (dheight - s.height),
    ensures
        lines_filled(forward_run(dec, w, dlwidth, dheight, s, fuel), dlwidth),
        forward_run(dec, w, dlwidth, dheight, s, fuel).lines.len() <= s.lines.len() + (dheight - s.height),
    decreases fuel,
{
    reveal_strlit(" ");
    let t = dec.token_at(w, s.off);
    lemma_plain_no_skips(dec, w, s.off + 1);
    if s.off < w.len() {
        assert(w[s.off] <= 0x7F && w[s.off] != 0x0A && w[s.off] != 0x0D);
        assert(t == crate::decoder::token(TokenKind::Glyph, 1, 1));
        let grown = s.line + dec.glyph_text(w, s.off, 1);
        assert(grown.len() == s.width + 1);
        assert(grown[0] == s.line[0]);
        match forward_step(dec, w, dlwidth, dheight, s) {
            Step::Done(layout) => {
                assert(layout.lines == s.lines.push(grown));
            },
            Step::Next(next) => {
                lemma_plain_run(dec, w, dlwidth, dheight, next, (fuel - 1) as nat);
            },
        }
    } else {
        assert(t.kind == TokenKind::End);
        assert(s.line != wrapped_lead() <==> s.width != 1) by {
            if s.width == 1 {
                assert(s.line =~= wrapped_lead());
            }
        }
    }
}

/// A page of plain ASCII fills every display line: each line shown holds the
/// marker and `dlwidth - 1` characters, but for the last line of a window
/// that ran out, which holds what was left.
pub proof fn lemma_plain_ascii_fills_lines(dec: Decoder, w: Seq<u8>, dlwidth: int, dheight: int)
    requires
        plain_ascii(w),
        dlwidth >= 2,
        dheight >= 1,
    ensures
        lines_filled(forward_page(dec, w, dlwidth, dheight), dlwidth),
        forward_page(dec, w, dlwidth, dheight).lines.len() <= dheight,
{
    reveal_strlit(" ");
    lemma_plain_run(dec, w, dlwidth, dheight, first_scan(), w.len() + dheight as nat);
}

} // verus!
