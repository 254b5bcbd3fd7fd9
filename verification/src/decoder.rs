//! Byte classification for the two supported encodings.

use vstd::prelude::*;
use vstd::slice::slice_subrange;

verus! {

/// The encoding in which a file's bytes are read.
#[derive(Clone, Copy, Debug, PartialEq, Eq, Structural)]
pub enum Decoder {
    Utf8,
    Gb18030,
}

/// What stands at one offset of a byte window.
#[derive(Clone, Copy, Debug, PartialEq, Eq, Structural)]
pub enum TokenKind {
    /// The window is exhausted.
    End,
    /// Bytes that are passed over and never shown (`\r`, stray UTF-8 bytes).
    Skip,
    /// Bytes that no character is encoded by: they are passed over in both
    /// directions and take no column.
    Invalid,
    /// A line feed.
    Newline,
    /// A complete character.
    Glyph,
    /// A lead byte whose sequence runs past the end of the window.
    Cut,
}

/// A classified position: its kind, the bytes it covers and the columns that
/// the forward layout sets aside before it looks at the bytes behind the lead.
#[derive(Clone, Copy, Debug, PartialEq, Eq, Structural)]
pub struct Token {
    pub kind: TokenKind,
    pub len: usize,
    pub cols: usize,
}

/// The text that a lossy UTF-8 decoding gives for these bytes.
pub uninterp spec fn utf8_lossy_text(bytes: Seq<u8>) -> Seq<char>;

/// The text that GB18030 decoding (after byte-order-mark sniffing) gives for
/// these bytes.
pub uninterp spec fn gb18030_text(bytes: Seq<u8>) -> Seq<char>;

pub open spec fn token(kind: TokenKind, len: usize, cols: usize) -> Token {
    Token { kind, len, cols }
}

pub open spec fn utf8_token_at(w: Seq<u8>, off: int) -> Token {
    if off < 0 || off >= w.len() {
        token(TokenKind::End, 0, 0)
    } else {
        let b = w[off];
        let left = w.len() - off;
        if b == 0x0D {
            token(TokenKind::Skip, 1, 0)
        } else if b == 0x0A {
            token(TokenKind::Newline, 1, 0)
        } else if b <= 0x7F {
            token(TokenKind::Glyph, 1, 1)
        } else if 0xC0 <= b <= 0xDF {
            if left >= 2 {
                token(TokenKind::Glyph, 2, 1)
            } else {
                token(TokenKind::Cut, 0, 0)
            }
        } else if 0xE0 <= b <= 0xEF {
            if left >= 3 {
                token(TokenKind::Glyph, 3, 2)
            } else {
                token(TokenKind::Cut, 0, 2)
            }
        } else if 0xF0 <= b <= 0xF7 {
            if left >= 4 {
                token(TokenKind::Glyph, 4, 2)
            } else {
                token(TokenKind::Cut, 0, 2)
            }
        } else {
            token(TokenKind::Skip, 1, 0)
        }
    }
}

pub open spec fn gb18030_token_at(w: Seq<u8>, off: int) -> Token {
    if off < 0 || off >= w.len() {
        token(TokenKind::End, 0, 0)
    } else {
        let b = w[off];
        let left = w.len() - off;
        if b == 0x0D {
            token(TokenKind::Skip, 1, 0)
        } else if b == 0x0A {
            token(TokenKind::Newline, 1, 0)
        } else if b <= 0x7F {
            token(TokenKind::Glyph, 1, 1)
        } else if b == 0x80 || b == 0xFF {
            token(TokenKind::Invalid, 1, 0)
        } else if left < 2 {
            token(TokenKind::Cut, 0, 2)
        } else {
            let c = w[off + 1];
            if c == 0x7F || c == 0xFF {
                token(TokenKind::Invalid, 2, 0)
            } else if c >= 0x40 {
                token(TokenKind::Glyph, 2, 2)
            } else if left >= 4 {
                token(TokenKind::Glyph, 4, 2)
            } else {
                token(TokenKind::Cut, 0, 2)
            }
        }
    }
}

impl Decoder {
    /// The classification of offset `off` of window `w`.
    pub open spec fn token_at(self, w: Seq<u8>, off: int) -> Token {
        match self {
            Decoder::Utf8 => utf8_token_at(w, off),
            Decoder::Gb18030 => gb18030_token_at(w, off),
        }
    }

    /// The text of the complete character of `len` bytes at `off`.
    pub open spec fn glyph_text(self, w: Seq<u8>, off: int, len: int) -> Seq<char> {
        if len == 1 {
            seq![w[off] as char]
        } else {
            match self {
                Decoder::Utf8 => utf8_lossy_text(w.subrange(off, off + len)),
                Decoder::Gb18030 => gb18030_text(w.subrange(off, off + len)),
            }
        }
    }

    /// Classifies the position `off` of the first `valid_len` bytes of `window`.
    pub fn classify(self, window: &[u8], valid_len: usize, off: usize) -> (t: Token)
        requires
            valid_len <= window.len(),
        ensures
            t == self.token_at(window@.take(valid_len as int), off as int),
            t.len <= 4,
            t.cols <= 2,
            t.kind == TokenKind::Glyph ==> 1 <= t.len && off + t.len <= valid_len && 1 <= t.cols,
            t.kind == TokenKind::Skip || t.kind == TokenKind::Newline ==> t.len == 1 && off < valid_len,
            t.kind == TokenKind::Invalid ==> 1 <= t.len <= 2 && off + t.len <= valid_len,
            t.kind == TokenKind::End <==> off >= valid_len,
    {
        if off >= valid_len {
            return Token { kind: TokenKind::End, len: 0, cols: 0 };
        }
        let b: u8 = window[off];
        let left: usize = valid_len - off;
        if b == 0x0D {
            return Token { kind: TokenKind::Skip, len: 1, cols: 0 };
        }
        if b == 0x0A {
            return Token { kind: TokenKind::Newline, len: 1, cols: 0 };
        }
        if b <= 0x7F {
            return Token { kind: TokenKind::Glyph, len: 1, cols: 1 };
        }
        match self {
            Decoder::Utf8 => {
                if 0xC0 <= b && b <= 0xDF {
                    if left >= 2 {
                        Token { kind: TokenKind::Glyph, len: 2, cols: 1 }
                    } else {
                        Token { kind: TokenKind::Cut, len: 0, cols: 0 }
                    }
                } else if 0xE0 <= b && b <= 0xEF {
                    if left >= 3 {
                        Token { kind: TokenKind::Glyph, len: 3, cols: 2 }
                    } else {
                        Token { kind: TokenKind::Cut, len: 0, cols: 2 }
                    }
                } else if 0xF0 <= b && b <= 0xF7 {
                    if left >= 4 {
                        Token { kind: TokenKind::Glyph, len: 4, cols: 2 }
                    } else {
                        Token { kind: TokenKind::Cut, len: 0, cols: 2 }
                    }
                } else {
                    Token { kind: TokenKind::Skip, len: 1, cols: 0 }
                }
            },
            Decoder::Gb18030 => {
                if b == 0x80 || b == 0xFF {
                    Token { kind: TokenKind::Invalid, len: 1, cols: 0 }
                } else if left < 2 {
                    Token { kind: TokenKind::Cut, len: 0, cols: 2 }
                } else {
                    let c: u8 = window[off + 1];
                    if c == 0x7F || c == 0xFF {
                        Token { kind: TokenKind::Invalid, len: 2, cols: 0 }
                    } else if c >= 0x40 {
                        Token { kind: TokenKind::Glyph, len: 2, cols: 2 }
                    } else if left >= 4 {
                        Token { kind: TokenKind::Glyph, len: 4, cols: 2 }
                    } else {
                        Token { kind: TokenKind::Cut, len: 0, cols: 2 }
                    }
                }
            },
        }
    }

    /// Decodes the complete character of `len` bytes at `off`.
    pub fn glyph_string(self, window: &[u8], valid_len: usize, off: usize, len: usize) -> (s: String)
        requires
            valid_len <= window.len(),
            1 <= len <= 4,
            off + len <= valid_len,
            len == 1 ==> window[off as int] <= 0x7F,
        ensures
            s@ == self.glyph_text(window@.take(valid_len as int), off as int, len as int),
    {
        let ghost w = window@.take(valid_len as int);
        if len == 1 {
            let mut s = String::new();
            push_char(&mut s, window[off] as char);
            assert(s@ =~= seq![w[off as int] as char]);
            s
        } else {
            let blob = slice_subrange(window, off, off + len);
            assert(blob@ =~= w.subrange(off as int, off + len));
            match self {
                Decoder::Utf8 => decode_utf8_lossy(blob),
                Decoder::Gb18030 => decode_gb18030(blob),
            }
        }
    }
}

/// `String::push` of std: the character is appended and nothing else changes.
#[verifier::external_body]
pub(crate) fn push_char(s: &mut String, c: char)
    ensures
        final(s)@ == old(s)@.push(c),
{
    s.push(c)
}

/// `String::from_utf8_lossy` of std: the result is the lossy decoding of the
/// bytes, which depends on the bytes alone.
#[verifier::external_body]
pub(crate) fn decode_utf8_lossy(bytes: &[u8]) -> (s: String)
    ensures
        s@ == utf8_lossy_text(bytes@),
{
    String::from_utf8_lossy(bytes).into_owned()
}

/// `Encoding::decode` of encoding_rs on `GB18030`: the result is the decoded
/// text, which depends on the bytes alone. The length bound keeps the size
/// calculation of the output buffer away from overflow.
#[verifier::external_body]
pub(crate) fn decode_gb18030(bytes: &[u8]) -> (s: String)
    requires
        bytes@.len() <= 4,
    ensures
        s@ == gb18030_text(bytes@),
{
    encoding_rs::GB18030.decode(bytes).0.into_owned()
}

} // verus!
