//! Byte-exact search for a pattern in the bytes behind the bookmark.

use vstd::prelude::*;
use crate::decoder::Decoder;

verus! {

/// The longest pattern, in characters, that an encoder can size its output
/// for.
pub const MAX_PATTERN: usize = usize::MAX / 0x400;

/// `needle` stands in `hay` at offset `i`.
pub open spec fn matches_at(hay: Seq<u8>, needle: Seq<u8>, i: int) -> bool {
    0 <= i && i + needle.len() <= hay.len() && hay.subrange(i, i + needle.len()) == needle
}

/// `needle` stands nowhere in `hay`.
pub open spec fn absent(hay: Seq<u8>, needle: Seq<u8>) -> bool {
    forall|j: int| !matches_at(hay, needle, j)
}

/// `i` is the first offset of `hay` at which `needle` stands.
pub open spec fn first_match(hay: Seq<u8>, needle: Seq<u8>, i: int) -> bool {
    matches_at(hay, needle, i) && forall|j: int| j < i ==> !matches_at(hay, needle, j)
}

/// The bytes and the error flag that encoding `text` gives, into GB18030 if
/// `gb` holds and into UTF-8 if not.
pub uninterp spec fn encoded(gb: bool, text: Seq<char>) -> (Seq<u8>, bool);

/// `Encoding::encode` of encoding_rs on `GB18030` or `UTF_8`: the bytes and
/// whether a character had no mapping, both of which depend on the encoding
/// and the text alone. The length bound keeps the size calculation of the
/// output buffer away from overflow.
#[verifier::external_body]
fn encode_text(dec: Decoder, text: &str) -> (r: (Vec<u8>, bool))
    requires
        text@.len() <= MAX_PATTERN,
    ensures
        (r.0@, r.1) == encoded(dec == Decoder::Gb18030, text@),
{
    let encoding = match dec {
        Decoder::Utf8 => encoding_rs::UTF_8,
        Decoder::Gb18030 => encoding_rs::GB18030,
    };
    let (bytes, _, unmappable) = encoding.encode(text);
    (bytes.into_owned(), unmappable)
}

/// What a search pattern comes to.
pub enum Pattern {
    /// Nothing was given to search for.
    Empty,
    /// A character of the pattern has no mapping in the file's encoding.
    Unmappable,
    /// The bytes to search for.
    Bytes(Vec<u8>),
}

/// What the encoding of a pattern's text comes to.
pub open spec fn pattern_of(text: Seq<char>, bytes: Seq<u8>, unmappable: bool, p: Pattern) -> bool {
    if text.len() == 0 {
        p is Empty
    } else if unmappable {
        p is Unmappable
    } else {
        p is Bytes && p->Bytes_0@ == bytes
    }
}

/// Sorts the encoding of a pattern's text: no text is no pattern, and a
/// character without a mapping spoils it.
pub fn sort_pattern(text: &str, bytes: Vec<u8>, unmappable: bool) -> (p: Pattern)
    ensures
        pattern_of(text@, bytes@, unmappable, p),
{
    if text.is_empty() {
        Pattern::Empty
    } else if unmappable {
        Pattern::Unmappable
    } else {
        Pattern::Bytes(bytes)
    }
}

/// Encodes the text of a search into the bytes of the file's encoding.
pub fn encode_pattern(dec: Decoder, text: &str) -> (p: Pattern)
    requires
        text@.len() <= MAX_PATTERN,
    ensures
        pattern_of(text@, encoded(dec == Decoder::Gb18030, text@).0, encoded(dec == Decoder::Gb18030, text@).1, p),
{
    let r = encode_text(dec, text);
    sort_pattern(text, r.0, r.1)
}

/// The size of the buffer that a search reads into.
pub fn search_buf_size(pattern_len: usize) -> (size: usize)
    requires
        pattern_len <= usize::MAX / 0x100,
    ensures
        size == if pattern_len * 0x100 >= 0x10000 {
            pattern_len * 0x100
        } else {
            0x10000
        },
{
    if pattern_len >= 0x100 {
        pattern_len * 0x100
    } else {
        0x10000
    }
}

/// Whether `needle` stands at offset `i` of `hay`.
pub fn holds_at(hay: &[u8], needle: &[u8], i: usize) -> (r: bool)
    requires
        i + needle@.len() <= hay@.len(),
    ensures
        r == matches_at(hay@, needle@, i as int),
{
    let total: usize = hay.len();
    let mut k: usize = 0;
    while k < needle.len()
        invariant
            total == hay@.len(),
            i + needle@.len() <= hay@.len(),
            k <= needle@.len(),
            forall|x: int| 0 <= x < k ==> hay@[i + x] == needle@[x],
        decreases needle@.len() - k,
    {
        if hay[i + k] != needle[k] {
            assert(hay@.subrange(i as int, i + needle@.len())[k as int] == hay@[i + k]);
            return false;
        }
        k = k + 1;
    }
    assert(hay@.subrange(i as int, i + needle@.len()) =~= needle@);
    true
}

/// The first offset at which `needle` stands in `hay`.
pub fn find_bytes(hay: &[u8], needle: &[u8]) -> (r: Option<usize>)
    ensures
        match r {
            Some(i) => first_match(hay@, needle@, i as int),
            None => absent(hay@, needle@),
        },
{
    if needle.len() > hay.len() {
        return None;
    }
    if needle.len() == 0 {
        assert(hay@.subrange(0, 0) =~= needle@);
        return Some(0);
    }
    let last: usize = hay.len() - needle.len();
    let mut i: usize = 0;
    while i <= last
        invariant
            last == hay@.len() - needle@.len(),
            last < hay@.len() <= usize::MAX,
            i <= last + 1,
            forall|j: int| j < i ==> !matches_at(hay@, needle@, j),
        decreases last + 1 - i,
    {
        if holds_at(hay, needle, i) {
            return Some(i);
        }
        i = i + 1;
    }
    None
}

/// A search over a stream of bytes that arrives in chunks.
pub struct Scanner {
    /// The bytes searched for.
    pub needle: Vec<u8>,
    /// The end of what was fed, kept because a match may begin in it.
    pub carry: Vec<u8>,
    /// The offset of `carry` in the stream.
    pub base: u64,
    /// All that was fed.
    pub seen: Ghost<Seq<u8>>,
}

impl Scanner {
    /// The search is under way: the pattern is not empty and stands nowhere
    /// in what was fed, and what is kept is the end of it, one byte shorter
    /// than the pattern unless less was fed.
    pub open spec fn wf(&self) -> bool {
        &&& self.needle@.len() >= 1
        &&& self.base + self.carry@.len() == self.seen@.len()
        &&& self.carry@ == self.seen@.skip(self.base as int)
        &&& self.carry@.len() < self.needle@.len()
        &&& self.base == 0 || self.carry@.len() == self.needle@.len() - 1
        &&& absent(self.seen@, self.needle@)
    }

    /// Begins a search for `needle`.
    pub fn new(needle: Vec<u8>) -> (s: Scanner)
        requires
            needle@.len() >= 1,
        ensures
            s.wf(),
            s.needle@ == needle@,
            s.seen@ == Seq::<u8>::empty(),
    {
        let s = Scanner { needle, carry: Vec::new(), base: 0, seen: Ghost(Seq::empty()) };
        assert(s.carry@ =~= s.seen@.skip(0));
        s
    }

    /// Feeds the next `valid_len` bytes of `chunk`. The result is the first
    /// offset of the stream at which the pattern stands, or `None` where it
    /// stands nowhere in what was fed so far.
    pub fn feed(&mut self, chunk: &[u8], valid_len: usize) -> (found: Option<u64>)
        requires
            old(self).wf(),
            valid_len <= chunk@.len(),
            old(self).seen@.len() + valid_len <= usize::MAX,
        ensures
            final(self).needle@ == old(self).needle@,
            final(self).seen@ == old(self).seen@ + chunk@.take(valid_len as int),
            match found {
                Some(k) => first_match(final(self).seen@, final(self).needle@, k as int),
                None => final(self).wf(),
            },
    {
        let ghost fed = chunk@.take(valid_len as int);
        let ghost before = self.seen@;
        let ghost all = before + fed;
        let ghost needle = self.needle@;
        let ghost base = self.base as int;
        let mut joined: Vec<u8> = Vec::new();
        let mut i: usize = 0;
        while i < self.carry.len()
            invariant
                i <= self.carry@.len(),
                joined@ == self.carry@.take(i as int),
            decreases self.carry@.len() - i,
        {
            joined.push(self.carry[i]);
            assert(joined@ =~= self.carry@.take(i + 1));
            i = i + 1;
        }
        assert(joined@ =~= self.carry@);
        let mut k: usize = 0;
        while k < valid_len
            invariant
                k <= valid_len <= chunk@.len(),
                self.carry@.len() + valid_len <= usize::MAX,
                joined@ == self.carry@ + chunk@.take(k as int),
            decreases valid_len - k,
        {
            joined.push(chunk[k]);
            assert(joined@ =~= self.carry@ + chunk@.take(k + 1));
            k = k + 1;
        }
        assert(joined@ =~= all.skip(base));
        proof {
            self.seen = Ghost(all);
        }
        assert forall|j: int| j < base implies !matches_at(all, needle, j) by {
            if matches_at(all, needle, j) {
                assert(all.subrange(j, j + needle.len()) =~= before.subrange(j, j + needle.len()));
                assert(matches_at(before, needle, j));
            }
        }
        assert forall|j: int| matches_at(all, needle, base + j) == matches_at(joined@, needle, j) by {
            if 0 <= j && j + needle.len() <= joined@.len() {
                assert(all.subrange(base + j, base + j + needle.len()) =~= joined@.subrange(j, j + needle.len()));
            }
        }
        match find_bytes(joined.as_slice(), self.needle.as_slice()) {
            Some(at) => {
                assert forall|j: int| j < base + at implies !matches_at(all, needle, j) by {
                    if j >= base {
                        assert(matches_at(all, needle, base + (j - base)) == matches_at(joined@, needle, j - base));
                    }
                }
                assert(matches_at(all, needle, base + at) == matches_at(joined@, needle, at as int));
                Some(self.base + at as u64)
            },
            None => {
                assert forall|j: int| !matches_at(all, needle, j) by {
                    if j >= base {
                        assert(matches_at(all, needle, base + (j - base)) == matches_at(joined@, needle, j - base));
                    }
                }
                let keep: usize = if joined.len() < self.needle.len() {
                    joined.len()
                } else {
                    self.needle.len() - 1
                };
                let from: usize = joined.len() - keep;
                let mut carry: Vec<u8> = Vec::new();
                let mut c: usize = from;
                while c < joined.len()
                    invariant
                        from <= c <= joined@.len(),
                        carry@ == joined@.subrange(from as int, c as int),
                    decreases joined@.len() - c,
                {
                    carry.push(joined[c]);
                    assert(carry@ =~= joined@.subrange(from as int, c + 1));
                    c = c + 1;
                }
                self.carry = carry;
                self.base = self.base + from as u64;
                assert(self.carry@ =~= all.skip(self.base as int));
                None
            },
        }
    }
}

} // verus!
