//! What holds of pages of plain ASCII: what they show, how long they are,
//! and that paging forward and paging backward agree on them.

use vstd::prelude::*;
use crate::backward::{backward_from, backward_page, Edge};
use crate::decoder::{token, Decoder, TokenKind};
use crate::forward::{
    first_scan, forward_page, forward_run, forward_step, lemma_plain_no_skips, plain_ascii, plain_scan, Scan, Step,
};
use crate::units::{
    gb18030_stream, printable, replacement_count, resync_from, unit_at, units_from, units_of, units_start, UnitModel,
};

verus! {

/// The unit of the plain ASCII byte at `i` of `w`.
pub open spec fn plain_unit(w: Seq<u8>, i: int) -> UnitModel {
    UnitModel { offset: i, len: 1, cols: 1, newline: false, text: seq![w[i] as char] }
}

proof fn lemma_next_row(h: int, c: int)
    ensures
        (h + 1) * c == h * c + c,
{
    assert((h + 1) * c == h * c + c) by (nonlinear_arith);
}

proof fn lemma_rows_grow(h: int, d: int, c: int)
    requires
        0 <= h <= d,
        0 <= c,
    ensures
        h * c <= d * c,
{
    assert(h * c <= d * c) by (nonlinear_arith)
        requires
            0 <= h <= d,
            0 <= c,
    ;
}

proof fn lemma_plain_consumed(dec: Decoder, w: Seq<u8>, dlwidth: int, dheight: int, s: Scan, fuel: nat)
    requires
        plain_ascii(w),
        dlwidth >= 2,
        plain_scan(w, dlwidth, dheight, s),
        s.off == s.height * (dlwidth - 1) + (s.width - 1),
        s.consumed == s.height * (dlwidth - 1),
        fuel >= (w.len() - s.off) + (dheight - s.height),
    ensures
        ({
            let page = forward_run(dec, w, dlwidth, dheight, s, fuel);
            let full = dheight * (dlwidth - 1);
            if w.len() >= full {
                page.consumed == full && !page.depleted
            } else {
                page.consumed == w.len() && page.depleted
            }
        }),
    decreases fuel,
{
    reveal_strlit(" ");
    let c = dlwidth - 1;
    let t = dec.token_at(w, s.off);
    lemma_next_row(s.height, c);
    lemma_rows_grow(s.height + 1, dheight, c);
    lemma_plain_no_skips(dec, w, s.off + 1);
    if s.off < w.len() {
        assert(w[s.off] <= 0x7F && w[s.off] != 0x0A && w[s.off] != 0x0D);
        assert(t == token(TokenKind::Glyph, 1, 1));
        let grown = s.line + dec.glyph_text(w, s.off, 1);
        assert(grown.len() == s.width + 1);
        assert(grown[0] == s.line[0]);
        match forward_step(dec, w, dlwidth, dheight, s) {
            Step::Done(layout) => {},
            Step::Next(next) => {
                lemma_plain_consumed(dec, w, dlwidth, dheight, next, (fuel - 1) as nat);
            },
        }
    } else {
        assert(t.kind == TokenKind::End);
        if s.width == 1 {
            assert(s.line =~= crate::forward::wrapped_lead());
        }
    }
}

/// The characters of ASCII bytes.
pub open spec fn ascii_text(bytes: Seq<u8>) -> Seq<char> {
    Seq::new(bytes.len(), |i: int| bytes[i] as char)
}

/// Display line `i` of a page of plain ASCII that consumes `upto` bytes of
/// `w` at `c` characters a line: the marker and the bytes of the line in
/// their order.
pub open spec fn plain_line(w: Seq<u8>, c: int, i: int, upto: int) -> Seq<char> {
    " "@ + ascii_text(
        w.subrange(
            i * c,
            if (i + 1) * c <= upto {
                (i + 1) * c
            } else {
                upto
            },
        ),
    )
}

/// `lines` are the display lines of plain ASCII `w` up to `upto`, at `c`
/// characters a line: as many lines as the bytes take, each holding its
/// bytes in order.
pub open spec fn plain_lines(w: Seq<u8>, c: int, upto: int, lines: Seq<Seq<char>>) -> bool {
    &&& lines.len() == 0 ==> upto == 0
    &&& lines.len() > 0 ==> (lines.len() - 1) * c < upto <= lines.len() * c
    &&& forall|i: int| 0 <= i < lines.len() ==> #[trigger] lines[i] == plain_line(w, c, i, upto)
}

proof fn lemma_plain_lines_run(dec: Decoder, w: Seq<u8>, dlwidth: int, dheight: int, s: Scan, fuel: nat)
    requires
        plain_ascii(w),
        dlwidth >= 2,
        plain_scan(w, dlwidth, dheight, s),
        s.off == s.height * (dlwidth - 1) + (s.width - 1),
        s.consumed == s.height * (dlwidth - 1),
        s.lines.len() == s.height,
        forall|i: int|
            0 <= i < s.height ==> #[trigger] s.lines[i] == " "@ + ascii_text(
                w.subrange(i * (dlwidth - 1), (i + 1) * (dlwidth - 1)),
            ),
        s.line == " "@ + ascii_text(w.subrange(s.height * (dlwidth - 1), s.off)),
        fuel >= (w.len() - s.off) + (dheight - s.height),
    ensures
        ({
            let page = forward_run(dec, w, dlwidth, dheight, s, fuel);
            plain_lines(w, dlwidth - 1, page.consumed, page.lines)
        }),
    decreases fuel,
{
    reveal_strlit(" ");
    let c = dlwidth - 1;
    let h = s.height;
    lemma_next_row(h, c);
    lemma_next_row(h - 1, c);
    let page = forward_run(dec, w, dlwidth, dheight, s, fuel);
    lemma_plain_no_skips(dec, w, s.off + 1);
    if s.off < w.len() {
        assert(w[s.off] <= 0x7F && w[s.off] != 0x0A && w[s.off] != 0x0D);
        assert(dec.token_at(w, s.off) == token(TokenKind::Glyph, 1, 1));
        let grown = s.line + dec.glyph_text(w, s.off, 1);
        assert(grown =~= " "@ + ascii_text(w.subrange(h * c, s.off + 1)));
        assert(grown.len() == s.width + 1);
        assert(grown[0] == ' ');
        match forward_step(dec, w, dlwidth, dheight, s) {
            Step::Done(layout) => {
                assert(layout.lines == s.lines.push(grown));
                assert forall|i: int| 0 <= i < page.lines.len() implies #[trigger] page.lines[i] == plain_line(
                    w,
                    c,
                    i,
                    page.consumed,
                ) by {
                    lemma_rows_grow(i + 1, h + 1, c);
                }
            },
            Step::Next(next) => {
                if s.width + 1 == dlwidth {
                    assert(next.lines == s.lines.push(grown));
                    assert(next.line =~= " "@ + ascii_text(w.subrange((h + 1) * c, next.off)));
                } else {
                    assert(next.line == grown);
                }
                lemma_plain_lines_run(dec, w, dlwidth, dheight, next, (fuel - 1) as nat);
            },
        }
    } else {
        assert(dec.token_at(w, s.off).kind == TokenKind::End);
        if s.width == 1 {
            assert(s.line =~= crate::forward::wrapped_lead());
            assert(page.lines == s.lines);
            assert(page.consumed == h * c);
            assert((h - 1) * c < h * c && (h == 0 ==> h * c == 0)) by (nonlinear_arith)
                requires
                    c >= 1,
            ;
            assert forall|i: int| 0 <= i < page.lines.len() implies #[trigger] page.lines[i] == plain_line(
                w,
                c,
                i,
                page.consumed,
            ) by {
                lemma_rows_grow(i + 1, h, c);
            }
        } else {
            assert(page.lines == s.lines.push(s.line));
            assert forall|i: int| 0 <= i < page.lines.len() implies #[trigger] page.lines[i] == plain_line(
                w,
                c,
                i,
                page.consumed,
            ) by {
                if i < h {
                    lemma_rows_grow(i + 1, h, c);
                }
            }
        }
    }
}

/// A page of plain ASCII shows the bytes it consumes in their order, at
/// `dlwidth - 1` characters a line behind the marker, in as many lines as
/// that takes.
pub proof fn lemma_plain_page_lines(dec: Decoder, w: Seq<u8>, dlwidth: int, dheight: int)
    requires
        plain_ascii(w),
        dlwidth >= 2,
        dheight >= 1,
    ensures
        plain_lines(
            w,
            dlwidth - 1,
            forward_page(dec, w, dlwidth, dheight).consumed,
            forward_page(dec, w, dlwidth, dheight).lines,
        ),
{
    reveal_strlit(" ");
    assert(first_scan().line =~= " "@ + ascii_text(w.subrange(0, 0)));
    lemma_plain_lines_run(dec, w, dlwidth, dheight, first_scan(), w.len() + dheight as nat);
}

proof fn lemma_resync_bounds(w: Seq<u8>, idx: int, best: int, least: int)
    requires
        0 <= best <= idx <= 4,
        best <= 3,
        idx <= w.len(),
    ensures
        0 <= resync_from(w, idx, best, least) <= 3,
        resync_from(w, idx, best, least) <= w.len(),
    decreases 4 - idx,
{
    if idx < 4 && idx < w.len() {
        let decoded = gb18030_stream(w.skip(idx));
        if decoded.1 {
            if replacement_count(decoded.0) < least {
                lemma_resync_bounds(w, idx + 1, idx, replacement_count(decoded.0) as int);
            } else {
                lemma_resync_bounds(w, idx + 1, best, least);
            }
        }
    }
}

/// The units of a window begin within its first three bytes.
pub proof fn lemma_units_start_bounds(dec: Decoder, w: Seq<u8>, at_edge: bool)
    ensures
        0 <= units_start(dec, w, at_edge) <= 3,
        units_start(dec, w, at_edge) <= w.len(),
{
    lemma_resync_bounds(w, 0, 0, w.len() as int);
}

/// One unit for each byte of `w` from `first` on.
pub open spec fn plain_units_after(w: Seq<u8>, first: int) -> Seq<UnitModel> {
    Seq::new((w.len() - first) as nat, |i: int| plain_unit(w, first + i))
}

proof fn lemma_plain_units_from(dec: Decoder, w: Seq<u8>, first: int, off: int, acc: Seq<UnitModel>)
    requires
        plain_ascii(w),
        0 <= first <= off <= w.len(),
        acc == plain_units_after(w, first).take(off - first),
    ensures
        units_from(dec, w, off, acc) == plain_units_after(w, first),
    decreases w.len() - off,
{
    if off < w.len() {
        assert(w[off] <= 0x7F && w[off] != 0x0A && w[off] != 0x0D);
        assert(dec.token_at(w, off) == token(TokenKind::Glyph, 1, 1));
        assert(unit_at(dec, w, off) == Some(plain_unit(w, off)));
        assert(acc.push(plain_unit(w, off)) =~= plain_units_after(w, first).take(off + 1 - first));
        lemma_plain_units_from(dec, w, first, off + 1, acc.push(plain_unit(w, off)));
    } else {
        assert(acc =~= plain_units_after(w, first));
    }
}

proof fn lemma_printable_keeps(units: Seq<UnitModel>)
    requires
        forall|i: int| 0 <= i < units.len() ==> (#[trigger] units[i]).text.len() > 0,
    ensures
        printable(units) == units,
    decreases units.len(),
{
    if units.len() > 0 {
        lemma_printable_keeps(units.drop_last());
        assert(units.drop_last().push(units.last()) =~= units);
    }
}

/// The units of plain ASCII are its bytes from where the units begin: one
/// unit of one column for each byte, at the byte's offset, with the byte as
/// its text.
pub proof fn lemma_plain_units(dec: Decoder, w: Seq<u8>, at_edge: bool)
    requires
        plain_ascii(w),
    ensures
        units_of(dec, w, at_edge) == plain_units_after(w, units_start(dec, w, at_edge)),
        printable(units_of(dec, w, at_edge)) == units_of(dec, w, at_edge),
{
    lemma_units_start_bounds(dec, w, at_edge);
    let first = units_start(dec, w, at_edge);
    assert(plain_units_after(w, first).take(0) =~= Seq::<UnitModel>::empty());
    lemma_plain_units_from(dec, w, first, first, Seq::empty());
    lemma_printable_keeps(plain_units_after(w, first));
}

proof fn lemma_plain_backward(
    units: Seq<UnitModel>,
    first: int,
    dlwidth: int,
    dheight: int,
    n: int,
    text: Seq<char>,
    width: int,
    height: int,
    edge: Edge,
    start: int,
)
    requires
        forall|i: int|
            0 <= i < units.len() ==> !(#[trigger] units[i]).newline && units[i].cols == 1 && units[i].offset == first
                + i,
        dlwidth >= 2,
        0 <= n <= units.len(),
        1 <= width <= dlwidth,
        1 <= height <= dheight,
        units.len() - n == (height - 1) * (dlwidth - 1) + (width - 1),
        edge == if n < units.len() {
            Edge::Open
        } else {
            Edge::Blank
        },
        start == if n < units.len() {
            first + n
        } else {
            0
        },
    ensures
        ({
            let full = dheight * (dlwidth - 1);
            let page = backward_from(units, dlwidth, dheight, n, text, width, height, edge, start);
            page.start == if units.len() >= full {
                first + units.len() - full
            } else if units.len() > 0 {
                first
            } else {
                0
            }
        }),
    decreases n,
{
    let c = dlwidth - 1;
    lemma_next_row(height - 1, c);
    lemma_rows_grow(height, dheight, c);
    if n > 0 {
        let u = units[n - 1];
        if width + 1 > dlwidth {
            if height != dheight {
                lemma_next_row(height, c);
                lemma_plain_backward(
                    units,
                    first,
                    dlwidth,
                    dheight,
                    n - 1,
                    u.text + ("\n"@ + (" "@ + text)),
                    2,
                    height + 1,
                    Edge::Open,
                    first + n - 1,
                );
            }
        } else {
            lemma_plain_backward(
                units,
                first,
                dlwidth,
                dheight,
                n - 1,
                u.text + text,
                width + 1,
                height,
                Edge::Open,
                first + n - 1,
            );
        }
    }
}

/// The page laid out backward over a window of plain ASCII begins a full
/// page before the window's end, or with the first unit of the window where
/// it holds less.
proof fn lemma_plain_page_before(dec: Decoder, v: Seq<u8>, at_edge: bool, dlwidth: int, dheight: int)
    requires
        plain_ascii(v),
        dlwidth >= 2,
        dheight >= 1,
    ensures
        ({
            let first = units_start(dec, v, at_edge);
            let full = dheight * (dlwidth - 1);
            let page = backward_page(printable(units_of(dec, v, at_edge)), dlwidth, dheight);
            page.start == if v.len() - first >= full {
                v.len() - full
            } else if v.len() > first {
                first
            } else {
                0
            }
        }),
{
    lemma_units_start_bounds(dec, v, at_edge);
    let first = units_start(dec, v, at_edge);
    let units = plain_units_after(v, first);
    assert(units.take(0) =~= Seq::<UnitModel>::empty());
    lemma_plain_units_from(dec, v, first, first, Seq::empty());
    lemma_printable_keeps(units);
    lemma_plain_backward(units, first, dlwidth, dheight, units.len() as int, Seq::empty(), 1, 1, Edge::Blank, 0);
}

/// A page of plain ASCII holds `dheight` lines of `dlwidth - 1` characters
/// if the window holds that many, and else all of the window, which then
/// has run out.
pub proof fn lemma_plain_page_length(dec: Decoder, w: Seq<u8>, dlwidth: int, dheight: int)
    requires
        plain_ascii(w),
        dlwidth >= 2,
        dheight >= 1,
    ensures
        ({
            let page = forward_page(dec, w, dlwidth, dheight);
            let full = dheight * (dlwidth - 1);
            if w.len() >= full {
                page.consumed == full && !page.depleted
            } else {
                page.consumed == w.len() && page.depleted
            }
        }),
{
    reveal_strlit(" ");
    lemma_rows_grow(0, dheight, dlwidth - 1);
    lemma_plain_consumed(dec, w, dlwidth, dheight, first_scan(), w.len() + dheight as nat);
}

/// A full page of plain ASCII is found again from its end.
///
/// `file` holds no line end and nothing outside ASCII. The page laid out
/// forward from `from`, over a window that ends at `upto`, did not run out
/// of window. The window read before the end of that page begins at `back`
/// (`at_edge`: where the file's content begins), and its units begin at or
/// before `from`. Then the page laid out backward
/// from the end of the forward page begins at `from`.
pub proof fn lemma_plain_page_found_again(
    dec: Decoder,
    file: Seq<u8>,
    at_edge: bool,
    back: int,
    from: int,
    upto: int,
    dlwidth: int,
    dheight: int,
)
    requires
        plain_ascii(file),
        dlwidth >= 2,
        dheight >= 1,
        0 <= back <= from <= upto <= file.len(),
        !forward_page(dec, file.subrange(from, upto), dlwidth, dheight).depleted,
        back + units_start(dec, file.subrange(back, from + forward_page(dec, file.subrange(from, upto), dlwidth, dheight).consumed), at_edge) <= from,
    ensures
        ({
            let page = forward_page(dec, file.subrange(from, upto), dlwidth, dheight);
            let end = from + page.consumed;
            let before = backward_page(printable(units_of(dec, file.subrange(back, end), at_edge)), dlwidth, dheight);
            &&& from <= end <= upto
            &&& back + before.start == from
        }),
{
    let w = file.subrange(from, upto);
    assert(plain_ascii(w));
    lemma_plain_page_length(dec, w, dlwidth, dheight);
    let full = dheight * (dlwidth - 1);
    lemma_rows_grow(1, dheight, dlwidth - 1);
    let v = file.subrange(back, from + full);
    assert(plain_ascii(v));
    lemma_plain_page_before(dec, v, at_edge, dlwidth, dheight);
}

/// Paging backward and then forward over plain ASCII comes back to the same
/// end.
///
/// `file` holds no line end and nothing outside ASCII. The window read
/// before `end` begins at `back` (`at_edge`: where the file's content
/// begins), and its units reach back a full page or more before `end`; or
/// they begin with the window, and the window read forward ends at `end`
/// too. Then the page laid out forward from where the
/// page before `end` begins, over a window that ends at `upto`, ends at
/// `end`.
pub proof fn lemma_plain_end_restored(
    dec: Decoder,
    file: Seq<u8>,
    at_edge: bool,
    back: int,
    end: int,
    upto: int,
    dlwidth: int,
    dheight: int,
)
    requires
        plain_ascii(file),
        dlwidth >= 2,
        dheight >= 1,
        0 <= back <= end <= upto <= file.len(),
        end - back >= dheight * (dlwidth - 1) + units_start(dec, file.subrange(back, end), at_edge) || (upto == end
            && units_start(dec, file.subrange(back, end), at_edge) == 0),
    ensures
        ({
            let before = backward_page(printable(units_of(dec, file.subrange(back, end), at_edge)), dlwidth, dheight);
            let from = back + before.start;
            let page = forward_page(dec, file.subrange(from, upto), dlwidth, dheight);
            &&& back <= from <= end
            &&& from + page.consumed == end
        }),
{
    let v = file.subrange(back, end);
    assert(plain_ascii(v));
    lemma_rows_grow(0, dheight, dlwidth - 1);
    lemma_units_start_bounds(dec, v, at_edge);
    lemma_plain_page_before(dec, v, at_edge, dlwidth, dheight);
    let before = backward_page(printable(units_of(dec, v, at_edge)), dlwidth, dheight);
    let from = back + before.start;
    let w = file.subrange(from, upto);
    assert(plain_ascii(w));
    lemma_plain_page_length(dec, w, dlwidth, dheight);
}

/// The lines from line `i` on, parted by line feeds.
pub open spec fn joined(lines: Seq<Seq<char>>, i: int) -> Seq<char>
    decreases lines.len() - i,
{
    if i < 0 || i >= lines.len() {
        Seq::empty()
    } else if i + 1 == lines.len() {
        lines[i]
    } else {
        lines[i] + ("\n"@ + joined(lines, i + 1))
    }
}

/// The text of a page: its lines, parted by line feeds.
pub open spec fn page_text(lines: Seq<Seq<char>>) -> Seq<char> {
    joined(lines, 0)
}

/// The full lines of `content`, at `c` characters a line behind the marker.
pub open spec fn full_lines(content: Seq<u8>, c: int, count: int) -> Seq<Seq<char>> {
    Seq::new(count as nat, |i: int| " "@ + ascii_text(content.subrange(i * c, (i + 1) * c)))
}

/// The lines from line `i` on with a line feed before them, and nothing
/// where there is no such line.
pub open spec fn below(lines: Seq<Seq<char>>, i: int) -> Seq<char> {
    if i < lines.len() {
        "\n"@ + joined(lines, i)
    } else {
        Seq::empty()
    }
}

proof fn lemma_plain_backward_text(
    units: Seq<UnitModel>,
    content: Seq<u8>,
    m: int,
    dlwidth: int,
    dheight: int,
    n: int,
    text: Seq<char>,
    width: int,
    height: int,
    edge: Edge,
    start: int,
)
    requires
        dlwidth >= 2,
        dheight >= 1,
        content.len() == dheight * (dlwidth - 1),
        0 <= m,
        units.len() == m + content.len(),
        forall|i: int| 0 <= i < units.len() ==> !(#[trigger] units[i]).newline && units[i].cols == 1,
        forall|j: int| 0 <= j < content.len() ==> (#[trigger] units[m + j]).text == seq![content[j] as char],
        m <= n <= units.len(),
        1 <= width <= dlwidth,
        1 <= height <= dheight,
        units.len() - n == (height - 1) * (dlwidth - 1) + (width - 1),
        edge == if n < units.len() {
            Edge::Open
        } else {
            Edge::Blank
        },
        text == ascii_text(content.subrange(n - m, (dheight - height + 1) * (dlwidth - 1))) + below(
            full_lines(content, dlwidth - 1, dheight),
            dheight - height + 1,
        ),
    ensures
        backward_from(units, dlwidth, dheight, n, text, width, height, edge, start).text == page_text(
            full_lines(content, dlwidth - 1, dheight),
        ),
    decreases n,
{
    reveal_strlit(" ");
    reveal_strlit("\n");
    let c = dlwidth - 1;
    let t = dheight - height;
    let lines = full_lines(content, c, dheight);
    assert((t + 1) * c == dheight * c - (height - 1) * c && t * c == (t + 1) * c - c) by (nonlinear_arith)
        requires
            t == dheight - height,
    ;
    lemma_rows_grow(t + 1, dheight, c);
    lemma_rows_grow(1, t + 1, c);
    lemma_next_row(height - 1, c);
    let top = ascii_text(content.subrange(n - m, (t + 1) * c));
    let rest = below(lines, t + 1);
    if n == m || width == dlwidth {
        // the top line is complete
        assert(n - m == t * c);
        assert(" "@ + top =~= lines[t]);
        assert(" "@ + text =~= lines[t] + rest);
        assert(lines[t] + rest =~= joined(lines, t));
        if n == m {
            assert((t + 1) * c == width - 1);
            assert(t == 0) by (nonlinear_arith)
                requires
                    (t + 1) * c <= c,
                    c >= 1,
                    t >= 0,
            ;
            assert(height == dheight && width == dlwidth);
        } else {
            assert(height != dheight) by (nonlinear_arith)
                requires
                    units.len() - n == (height - 1) * c + c,
                    units.len() - n < dheight * c,
            ;
            let u = units[n - 1];
            assert(u == units[m + (n - 1 - m)]);
            let grown = u.text + ("\n"@ + (" "@ + text));
            assert("\n"@ + (" "@ + text) =~= below(lines, t));
            assert(u.text =~= ascii_text(content.subrange(n - 1 - m, t * c)));
            assert((dheight - (height + 1) + 1) * c == t * c);
            lemma_next_row(height, c);
            lemma_plain_backward_text(
                units,
                content,
                m,
                dlwidth,
                dheight,
                n - 1,
                grown,
                2,
                height + 1,
                Edge::Open,
                u.offset,
            );
        }
    } else {
        let u = units[n - 1];
        assert(u == units[m + (n - 1 - m)]);
        let grown = u.text + text;
        assert(u.text + top =~= ascii_text(content.subrange(n - 1 - m, (t + 1) * c)));
        assert(grown =~= ascii_text(content.subrange(n - 1 - m, (t + 1) * c)) + rest);
        lemma_plain_backward_text(
            units,
            content,
            m,
            dlwidth,
            dheight,
            n - 1,
            grown,
            width + 1,
            height,
            Edge::Open,
            u.offset,
        );
    }
}

/// A page of plain ASCII that is laid out backward shows what the page laid
/// out forward from its start shows, line for line, markers included.
///
/// `file` holds no line end and nothing outside ASCII. The window read
/// before `end` begins at `back` (`at_edge`: where the file's content
/// begins), and its units reach back a full page or more before `end`. Then
/// the text of the page before `end` is the text of
/// the page laid out forward from where that page begins.
pub proof fn lemma_plain_text_matches(
    dec: Decoder,
    file: Seq<u8>,
    at_edge: bool,
    back: int,
    end: int,
    upto: int,
    dlwidth: int,
    dheight: int,
)
    requires
        plain_ascii(file),
        dlwidth >= 2,
        dheight >= 1,
        0 <= back <= end <= upto <= file.len(),
        end - back >= dheight * (dlwidth - 1) + units_start(dec, file.subrange(back, end), at_edge),
    ensures
        ({
            let before = backward_page(printable(units_of(dec, file.subrange(back, end), at_edge)), dlwidth, dheight);
            let page = forward_page(dec, file.subrange(back + before.start, upto), dlwidth, dheight);
            before.text == page_text(page.lines)
        }),
{
    reveal_strlit(" ");
    let c = dlwidth - 1;
    let full = dheight * c;
    lemma_rows_grow(1, dheight, c);
    let v = file.subrange(back, end);
    assert(plain_ascii(v));
    lemma_units_start_bounds(dec, v, at_edge);
    lemma_plain_page_before(dec, v, at_edge, dlwidth, dheight);
    let first = units_start(dec, v, at_edge);
    let units = plain_units_after(v, first);
    assert(units.take(0) =~= Seq::<UnitModel>::empty());
    lemma_plain_units_from(dec, v, first, first, Seq::empty());
    lemma_printable_keeps(units);
    let content = file.subrange(end - full, end);
    let m = units.len() - full;
    assert forall|j: int| 0 <= j < content.len() implies (#[trigger] units[m + j]).text == seq![
        content[j] as char,
    ] by {
        assert(v[first + m + j] == content[j]);
    }
    assert((dheight - 1 + 1) * c == full);
    assert(ascii_text(content.subrange(full, full)) + below(full_lines(content, c, dheight), dheight)
        =~= Seq::<char>::empty());
    lemma_plain_backward_text(units, content, m, dlwidth, dheight, units.len() as int, Seq::empty(), 1, 1, Edge::Blank, 0);
    let before = backward_page(units, dlwidth, dheight);
    let w = file.subrange(end - full, upto);
    assert(plain_ascii(w));
    lemma_plain_page_length(dec, w, dlwidth, dheight);
    lemma_plain_page_lines(dec, w, dlwidth, dheight);
    let page = forward_page(dec, w, dlwidth, dheight);
    let k = page.lines.len() as int;
    assert(k == dheight) by (nonlinear_arith)
        requires
            k >= 0,
            k == 0 ==> full == 0,
            k > 0 ==> (k - 1) * c < full <= k * c,
            full == dheight * c,
            c >= 1,
            dheight >= 1,
    ;
    assert forall|i: int| 0 <= i < dheight implies #[trigger] page.lines[i] == full_lines(content, c, dheight)[i] by {
        lemma_rows_grow(i + 1, dheight, c);
        lemma_rows_grow(0, i, c);
        lemma_next_row(i, c);
        assert(w.subrange(i * c, (i + 1) * c) =~= content.subrange(i * c, (i + 1) * c));
    }
    assert(page.lines =~= full_lines(content, c, dheight));
}

} // verus!
