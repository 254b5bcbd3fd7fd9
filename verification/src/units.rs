//! The flat sequence of units of a window, as backward paging reads it.

use vstd::prelude::*;
use vstd::string::*;
use vstd::slice::slice_subrange;
use crate::decoder::{Decoder, Token, TokenKind};

verus! {

/// The longest window that a decoder can size its output for.
pub const MAX_WINDOW: usize = usize::MAX / 16;

/// One textual unit of a window.
#[derive(Debug)]
pub struct Unit {
    /// Where the unit starts in the window.
    pub offset: usize,
    /// The raw bytes it covers.
    pub len: usize,
    /// The columns it takes on a display line.
    pub cols: usize,
    /// It is a line feed.
    pub newline: bool,
    /// Its decoded text.
    pub text: String,
}

/// The mathematical value of a unit.
pub struct UnitModel {
    pub offset: int,
    pub len: int,
    pub cols: int,
    pub newline: bool,
    pub text: Seq<char>,
}

impl View for Unit {
    type V = UnitModel;

    open spec fn view(&self) -> UnitModel {
        UnitModel {
            offset: self.offset as int,
            len: self.len as int,
            cols: self.cols as int,
            newline: self.newline,
            text: self.text@,
        }
    }
}

/// The values of a vector of units.
pub open spec fn units_view(units: Seq<Unit>) -> Seq<UnitModel> {
    Seq::new(units.len(), |i: int| units[i]@)
}

/// The text and the error flag that GB18030 decoding without
/// byte-order-mark handling gives for these bytes.
pub uninterp spec fn gb18030_stream(bytes: Seq<u8>) -> (Seq<char>, bool);

/// `Encoding::decode_without_bom_handling` of encoding_rs on `GB18030`: the
/// decoded text and whether a malformed sequence was met, both of which
/// depend on the bytes alone. The length bound keeps the size calculation of
/// the output buffer away from overflow.
#[verifier::external_body]
fn decode_gb18030_stream(bytes: &[u8]) -> (r: (String, bool))
    requires
        bytes@.len() <= MAX_WINDOW,
    ensures
        (r.0@, r.1) == gb18030_stream(bytes@),
{
    let (text, had_errors) = encoding_rs::GB18030.decode_without_bom_handling(bytes);
    (text.into_owned(), had_errors)
}

/// How many replacement characters `text` holds.
pub open spec fn replacement_count(text: Seq<char>) -> nat
    decreases text.len(),
{
    if text.len() == 0 {
        0
    } else {
        replacement_count(text.drop_last()) + if text.last() == '\u{FFFD}' {
            1nat
        } else {
            0nat
        }
    }
}

/// Counts the replacement characters of `text`.
pub fn count_replacements(text: &str) -> (n: usize)
    ensures
        n == replacement_count(text@),
{
    let total: usize = text.unicode_len();
    let mut n: usize = 0;
    let mut i: usize = 0;
    while i < total
        invariant
            total == text@.len(),
            i <= total,
            n <= i,
            n == replacement_count(text@.take(i as int)),
        decreases total - i,
    {
        let c = text.get_char(i);
        assert(text@.take(i + 1).drop_last() =~= text@.take(i as int));
        if c == '\u{FFFD}' {
            n = n + 1;
        }
        i = i + 1;
    }
    assert(text@.take(total as int) =~= text@);
    n
}

/// The search for the start offset of a GB18030 window, from candidate
/// `idx` on, with `best` the candidate of the fewest replacement characters
/// so far and `least` their number.
pub open spec fn resync_from(w: Seq<u8>, idx: int, best: int, least: int) -> int
    decreases 4 - idx,
{
    if idx >= 4 {
        best
    } else if idx >= w.len() {
        idx
    } else {
        let decoded = gb18030_stream(w.skip(idx));
        if !decoded.1 {
            idx
        } else if replacement_count(decoded.0) < least {
            resync_from(w, idx + 1, idx, replacement_count(decoded.0) as int)
        } else {
            resync_from(w, idx + 1, best, least)
        }
    }
}

/// Where the units of a window begin. A GB18030 window may begin inside a
/// sequence: of the first four offsets the first that decodes without error
/// is taken, else the first of those with the fewest replacement characters.
/// A window that is known to begin on a character boundary (`at_edge`: it
/// begins where the file's content begins) is read from its first byte.
pub open spec fn units_start(dec: Decoder, w: Seq<u8>, at_edge: bool) -> int {
    match dec {
        Decoder::Utf8 => 0,
        Decoder::Gb18030 => if at_edge {
            0
        } else {
            resync_from(w, 0, 0, w.len() as int)
        },
    }
}

/// The unit at `off`, if the token there makes one: a line feed and a
/// complete character do, bytes that are passed over or encode nothing do
/// not.
pub open spec fn unit_at(dec: Decoder, w: Seq<u8>, off: int) -> Option<UnitModel> {
    let t = dec.token_at(w, off);
    match t.kind {
        TokenKind::Newline => Some(UnitModel { offset: off, len: 1, cols: 1, newline: true, text: "\n"@ }),
        TokenKind::Glyph => Some(
            UnitModel {
                offset: off,
                len: t.len as int,
                cols: t.cols as int,
                newline: false,
                text: dec.glyph_text(w, off, t.len as int),
            },
        ),
        _ => None,
    }
}

/// The units from `off` to the end of the window, behind those of `acc`. The
/// scan stops at the end and at a sequence that the end cuts.
pub open spec fn units_from(dec: Decoder, w: Seq<u8>, off: int, acc: Seq<UnitModel>) -> Seq<UnitModel>
    decreases w.len() - off,
{
    let t = dec.token_at(w, off);
    if off < 0 || off >= w.len() || t.kind == TokenKind::End || t.kind == TokenKind::Cut || t.len < 1 {
        acc
    } else {
        units_from(
            dec,
            w,
            off + t.len,
            match unit_at(dec, w, off) {
                Some(u) => acc.push(u),
                None => acc,
            },
        )
    }
}

/// The units of window `w`, in the order of their offsets.
pub open spec fn units_of(dec: Decoder, w: Seq<u8>, at_edge: bool) -> Seq<UnitModel> {
    units_from(dec, w, units_start(dec, w, at_edge), Seq::empty())
}

/// The offset at which the units of a GB18030 window begin.
pub fn resync(window: &[u8], valid_len: usize) -> (start: usize)
    requires
        valid_len <= window.len(),
        valid_len <= MAX_WINDOW,
    ensures
        start == units_start(Decoder::Gb18030, window@.take(valid_len as int), false),
        start <= valid_len,
{
    let ghost w = window@.take(valid_len as int);
    let mut best: usize = 0;
    let mut least: usize = valid_len;
    let mut idx: usize = 0;
    while idx < 4
        invariant
            valid_len <= window.len(),
            valid_len <= MAX_WINDOW,
            w == window@.take(valid_len as int),
            idx <= 4,
            idx <= valid_len,
            best <= idx,
            best <= valid_len,
            units_start(Decoder::Gb18030, w, false) == resync_from(w, idx as int, best as int, least as int),
        decreases 4 - idx,
    {
        if idx >= valid_len {
            return idx;
        }
        let rest = slice_subrange(window, idx, valid_len);
        assert(rest@ =~= w.skip(idx as int));
        let decoded = decode_gb18030_stream(rest);
        if !decoded.1 {
            return idx;
        }
        let n = count_replacements(decoded.0.as_str());
        if n < least {
            least = n;
            best = idx;
        }
        idx = idx + 1;
    }
    best
}

/// Turns the first `valid_len` bytes of `window` into its units, without
/// wrapping. `at_edge` says that the window begins where the file's content
/// begins.
pub fn to_units(dec: Decoder, window: &[u8], valid_len: usize, at_edge: bool) -> (units: Vec<Unit>)
    requires
        valid_len <= window.len(),
        dec == Decoder::Gb18030 && !at_edge ==> valid_len <= MAX_WINDOW,
    ensures
        units_view(units@) == units_of(dec, window@.take(valid_len as int), at_edge),
        forall|i: int| 0 <= i < units@.len() ==> 1 <= (#[trigger] units@[i]).cols <= 2,
        forall|i: int| 0 <= i < units@.len() ==> (#[trigger] units@[i]).offset < valid_len,
        forall|i: int|
            0 <= i < units@.len() ==> units_start(dec, window@.take(valid_len as int), at_edge) <= (
            #[trigger] units@[i]).offset && 1 <= units@[i].len && units@[i].offset + units@[i].len <= valid_len,
        forall|i: int, j: int|
            0 <= i < j < units@.len() ==> (#[trigger] units@[i]).offset + units@[i].len <= (
            #[trigger] units@[j]).offset,
{
    let ghost w = window@.take(valid_len as int);
    let mut off: usize = match dec {
        Decoder::Utf8 => 0,
        Decoder::Gb18030 => if at_edge {
            0
        } else {
            resync(window, valid_len)
        },
    };
    let ghost first = off as int;
    let mut units: Vec<Unit> = Vec::new();
    let mut done = false;
    assert(units_view(units@) =~= Seq::empty());
    while !done
        invariant
            valid_len <= window.len(),
            w == window@.take(valid_len as int),
            off <= valid_len,
            forall|i: int| 0 <= i < units@.len() ==> 1 <= (#[trigger] units@[i]).cols <= 2,
            forall|i: int| 0 <= i < units@.len() ==> (#[trigger] units@[i]).offset < valid_len,
            first == units_start(dec, w, at_edge),
            first <= off,
            forall|i: int|
                0 <= i < units@.len() ==> first <= (#[trigger] units@[i]).offset && 1 <= units@[i].len
                    && units@[i].offset + units@[i].len <= off,
            forall|i: int, j: int|
                0 <= i < j < units@.len() ==> (#[trigger] units@[i]).offset + units@[i].len <= (
                #[trigger] units@[j]).offset,
            !done ==> units_of(dec, w, at_edge) == units_from(dec, w, off as int, units_view(units@)),
            done ==> units_of(dec, w, at_edge) == units_view(units@),
        decreases (if done { 0int } else { 1int }) + (valid_len - off),
    {
        let t: Token = dec.classify(window, valid_len, off);
        let ghost before = units_view(units@);
        match t.kind {
            TokenKind::End | TokenKind::Cut => {
                done = true;
            },
            TokenKind::Skip | TokenKind::Invalid => {
                off = off + t.len;
            },
            TokenKind::Newline => {
                units.push(Unit { offset: off, len: 1, cols: 1, newline: true, text: String::from_str("\n") });
                assert(units_view(units@) =~= before.push(unit_at(dec, w, off as int).unwrap()));
                off = off + 1;
            },
            TokenKind::Glyph => {
                let text = dec.glyph_string(window, valid_len, off, t.len);
                units.push(Unit { offset: off, len: t.len, cols: t.cols, newline: false, text });
                assert(units_view(units@) =~= before.push(unit_at(dec, w, off as int).unwrap()));
                off = off + t.len;
            },
        }
    }
    units
}

/// The units of `units` whose text is not empty, in order.
pub open spec fn printable(units: Seq<UnitModel>) -> Seq<UnitModel>
    decreases units.len(),
{
    if units.len() == 0 {
        units
    } else if units.last().text.len() == 0 {
        printable(units.drop_last())
    } else {
        printable(units.drop_last()).push(units.last())
    }
}

/// Drops the units that have no text.
pub fn drop_empty(units: &Vec<Unit>) -> (kept: Vec<Unit>)
    ensures
        units_view(kept@) == printable(units_view(units@)),
        forall|i: int|
            0 <= i < kept@.len() ==> exists|j: int|
                0 <= j < units@.len() && (#[trigger] kept@[i])@ == (#[trigger] units@[j])@,
{
    let mut kept: Vec<Unit> = Vec::new();
    let mut i: usize = 0;
    while i < units.len()
        invariant
            i <= units@.len(),
            units_view(kept@) == printable(units_view(units@).take(i as int)),
            forall|i: int|
            0 <= i < kept@.len() ==> exists|j: int|
                0 <= j < units@.len() && (#[trigger] kept@[i])@ == (#[trigger] units@[j])@,
        decreases units@.len() - i,
    {
        let u = &units[i];
        let ghost before = units_view(kept@);
        assert(units_view(units@).take(i + 1).drop_last() =~= units_view(units@).take(i as int));
        assert(units_view(units@).take(i + 1).last() == u@);
        if !u.text.as_str().is_empty() {
            kept.push(Unit { offset: u.offset, len: u.len, cols: u.cols, newline: u.newline, text: u.text.clone() });
            assert(units_view(kept@) =~= before.push(u@));
        }
        i = i + 1;
    }
    assert(units_view(units@).take(i as int) =~= units_view(units@));
    kept
}

} // verus!
