//! Extraction of self-framed messages from a byte stream that arrives in
//! chunks of any size.
//!
//! A message is laid out as: a 4-byte magic marker, 4 reserved bytes, an
//! 8-byte big-endian length counting the whole message, a body, and a 4-byte
//! trailer marker as its last bytes.
use crate::buffer::{
    buffer_advance, buffer_append, buffer_bytes, buffer_contents, buffer_split_to, new_buffer,
};
use vstd::prelude::*;

verus! {

/// Length of the magic and of the trailer marker.
pub const MARKER_LEN: usize = 4;

/// Bytes needed from the marker on to read the length field.
pub const HEADER_LEN: usize = 16;

/// A declared length above this is taken for a false match of the marker.
pub const MAX_MESSAGE_LEN: u64 = 1_000_000_000;

/// Whether `m` occurs in `s` at index `i`.
pub open spec fn marker_at(s: Seq<u8>, m: Seq<u8>, i: int) -> bool {
    0 <= i && i + 4 <= s.len() && s.subrange(i, i + 4) == m
}

/// The first index at or after `from` where `m` occurs in `s`.
pub open spec fn first_marker(s: Seq<u8>, m: Seq<u8>, from: nat) -> Option<nat>
    decreases s.len() - from,
{
    if from + 4 > s.len() {
        None
    } else if s.subrange(from as int, from + 4 as int) == m {
        Some(from)
    } else {
        first_marker(s, m, from + 1)
    }
}

/// The unsigned number that `s` writes in big-endian order.
pub open spec fn be_value(s: Seq<u8>) -> nat
    decreases s.len(),
{
    if s.len() == 0 {
        0
    } else {
        (be_value(s.drop_last()) * 256 + s.last()) as nat
    }
}

pub open spec fn pow256(n: nat) -> nat
    decreases n,
{
    if n == 0 {
        1
    } else {
        256 * pow256((n - 1) as nat)
    }
}

/// The length that a buffer starting at a marker declares (bytes 8 to 15).
pub open spec fn declared_len(b: Seq<u8>) -> nat {
    be_value(b.subrange(8, 16))
}

/// Whether `s` ends with the trailer `t`.
pub open spec fn ends_with_trailer(s: Seq<u8>, t: Seq<u8>) -> bool {
    s.len() >= 4 && s.subrange(s.len() - 4, s.len() as int) == t
}

/// One round of extraction on the buffer `buf`: the buffer left and the
/// message emitted, if any.
pub open spec fn round(buf: Seq<u8>, magic: Seq<u8>, trailer: Seq<u8>) -> (Seq<u8>, Option<Seq<u8>>) {
    match first_marker(buf, magic, 0) {
        None => (buf, None),
        Some(p) => {
            let b = buf.subrange(p as int, buf.len() as int);
            if b.len() < 16 {
                (b, None)
            } else if declared_len(b) > MAX_MESSAGE_LEN {
                (b.subrange(4, b.len() as int), None)
            } else if b.len() < declared_len(b) {
                (b, None)
            } else {
                let l = declared_len(b) as int;
                let cand = b.subrange(0, l);
                let rest = b.subrange(l, b.len() as int);
                if ends_with_trailer(cand, trailer) {
                    (rest, Some(cand))
                } else {
                    (rest, None)
                }
            }
        },
    }
}

pub open spec fn opt_seq(m: Option<Seq<u8>>) -> Seq<Seq<u8>> {
    match m {
        Some(x) => seq![x],
        None => seq![],
    }
}

/// Rounds of extraction repeated while the buffer shrinks: the buffer left
/// and the messages emitted, in order.
pub open spec fn drain(buf: Seq<u8>, magic: Seq<u8>, trailer: Seq<u8>) -> (Seq<u8>, Seq<Seq<u8>>)
    decreases buf.len(),
{
    let (rest, m) = round(buf, magic, trailer);
    if rest.len() < buf.len() {
        let (fin, ms) = drain(rest, magic, trailer);
        (fin, opt_seq(m) + ms)
    } else {
        (rest, opt_seq(m))
    }
}

pub open spec fn vec_views(v: Seq<Vec<u8>>) -> Seq<Seq<u8>> {
    v.map_values(|x: Vec<u8>| x@)
}

/// Streaming parser that accumulates bytes and extracts complete messages.
pub struct Grib2StreamParser {
    buffer: bytes::BytesMut,
    magic: [u8; 4],
    trailer: [u8; 4],
}

/// Whether `m` occurs in `s` at index `i`.
fn marker_matches(s: &[u8], i: usize, m: &[u8; 4]) -> (r: bool)
    requires
        i + 4 <= s@.len(),
    ensures
        r == (s@.subrange(i as int, i + 4) == m@),
{
    let r = s[i] == m[0] && s[i + 1] == m[1] && s[i + 2] == m[2] && s[i + 3] == m[3];
    proof {
        let w = s@.subrange(i as int, i + 4);
        if w == m@ {
            assert(w[0] == s@[i as int] && w[1] == s@[i + 1]);
            assert(w[2] == s@[i + 2] && w[3] == s@[i + 3]);
        }
        if r {
            assert(w =~= m@);
        }
    }
    r
}

/// The first index where `m` occurs in `s`.
fn find_marker(s: &[u8], m: &[u8; 4]) -> (r: Option<usize>)
    ensures
        r matches Some(p) ==> first_marker(s@, m@, 0) == Some(p as nat),
        r is None ==> first_marker(s@, m@, 0) is None,
{
    if s.len() < 4 {
        return None;
    }
    let mut i: usize = 0;
    while i <= s.len() - 4
        invariant
            s@.len() >= 4,
            i <= s@.len() - 3,
            first_marker(s@, m@, 0) == first_marker(s@, m@, i as nat),
        decreases s@.len() - i,
    {
        if marker_matches(s, i, m) {
            return Some(i);
        }
        i = i + 1;
    }
    None
}

/// What the first occurrence of a marker is: a match, with none before it.
pub proof fn lemma_first_marker(s: Seq<u8>, m: Seq<u8>, from: nat)
    ensures
        match first_marker(s, m, from) {
            Some(p) => from <= p && marker_at(s, m, p as int) && forall|j: int|
                from <= j < p ==> !#[trigger] marker_at(s, m, j),
            None => forall|j: int| from <= j ==> !#[trigger] marker_at(s, m, j),
        },
    decreases s.len() - from,
{
    if from + 4 <= s.len() && s.subrange(from as int, from + 4 as int) != m {
        lemma_first_marker(s, m, from + 1);
    }
}

proof fn lemma_pow256_mono(i: nat, j: nat)
    requires
        i <= j,
    ensures
        pow256(i) <= pow256(j),
    decreases j,
{
    if i < j {
        lemma_pow256_mono(i, (j - 1) as nat);
    }
}

/// The big-endian number written in the `n` bytes of `s` from `at`.
pub(crate) fn read_be(s: &[u8], at: usize, n: usize) -> (r: u64)
    requires
        n <= 8,
        at + n <= s@.len(),
    ensures
        r as nat == be_value(s@.subrange(at as int, at + n)),
{
    let len = s.len();
    let mut v: u64 = 0;
    let mut i: usize = 0;
    proof {
        assert(s@.subrange(at as int, at as int) =~= Seq::<u8>::empty());
    }
    while i < n
        invariant
            n <= 8,
            at + n <= s@.len(),
            len == s@.len(),
            i <= n,
            v as nat == be_value(s@.subrange(at as int, at + i)),
            v < pow256(i as nat),
        decreases n - i,
    {
        let b = s[at + i];
        proof {
            lemma_pow256_mono((i + 1) as nat, 8);
            reveal_with_fuel(pow256, 9);
            assert(v * 256 + b < pow256(i as nat) * 256) by (nonlinear_arith)
                requires
                    v < pow256(i as nat),
                    b < 256,
            ;
            let next = s@.subrange(at as int, at + i + 1);
            assert(next.drop_last() =~= s@.subrange(at as int, at + i));
        }
        v = v * 256 + b as u64;
        i = i + 1;
    }
    v
}

impl Grib2StreamParser {
    /// The bytes buffered and not yet extracted.
    pub closed spec fn pending(&self) -> Seq<u8> {
        buffer_contents(self.buffer)
    }

    /// The magic marker that opens a message.
    pub closed spec fn magic(&self) -> Seq<u8> {
        self.magic@
    }

    /// The trailer marker that closes a message.
    pub closed spec fn trailer(&self) -> Seq<u8> {
        self.trailer@
    }

    /// A parser for GRIB2 messages: marker `GRIB`, trailer `7777`.
    pub fn new() -> (r: Self)
        ensures
            r.pending() == Seq::<u8>::empty(),
            r.magic() == seq![0x47u8, 0x52u8, 0x49u8, 0x42u8],
            r.trailer() == seq![0x37u8, 0x37u8, 0x37u8, 0x37u8],
    {
        let r = Self::with_markers([0x47u8, 0x52u8, 0x49u8, 0x42u8], [0x37u8, 0x37u8, 0x37u8, 0x37u8]);
        assert(r.magic() =~= seq![0x47u8, 0x52u8, 0x49u8, 0x42u8]);
        assert(r.trailer() =~= seq![0x37u8, 0x37u8, 0x37u8, 0x37u8]);
        r
    }

    /// A parser for messages framed by the given magic and trailer markers.
    pub fn with_markers(magic: [u8; 4], trailer: [u8; 4]) -> (r: Self)
        ensures
            r.pending() == Seq::<u8>::empty(),
            r.magic() == magic@,
            r.trailer() == trailer@,
    {
        Grib2StreamParser { buffer: new_buffer(), magic, trailer }
    }

    /// A copy of the bytes buffered and not yet extracted.
    pub fn buffered(&self) -> (r: Vec<u8>)
        ensures
            r@ == self.pending(),
    {
        vstd::slice::slice_to_vec(buffer_bytes(&self.buffer))
    }

    /// Appends `data` to the buffer and extracts every message that has
    /// become complete, in stream order.
    pub fn feed(&mut self, data: &[u8]) -> (r: Vec<Vec<u8>>)
        requires
            old(self).pending().len() + data@.len() <= isize::MAX,
        ensures
            final(self).magic() == old(self).magic(),
            final(self).trailer() == old(self).trailer(),
            drain(old(self).pending() + data@, old(self).magic(), old(self).trailer()) == (
            final(self).pending(),
            vec_views(r@),
            ),
    {
        buffer_append(&mut self.buffer, data);
        let ghost start = self.pending();
        let ghost mg = self.magic();
        let ghost tr = self.trailer();
        let mut messages: Vec<Vec<u8>> = Vec::new();
        assert(vec_views(messages@) =~= Seq::<Seq<u8>>::empty());
        loop
            invariant
                self.magic() == mg,
                self.trailer() == tr,
                mg == old(self).magic(),
                tr == old(self).trailer(),
                start == old(self).pending() + data@,
                drain(start, mg, tr) == (
                drain(self.pending(), mg, tr).0,
                vec_views(messages@) + drain(self.pending(), mg, tr).1,
                ),
            decreases self.pending().len(),
        {
            let ghost cur = self.pending();
            let before = buffer_bytes(&self.buffer).len();
            let m = self.try_extract_message();
            let ghost prev = vec_views(messages@);
            if let Some(msg) = m {
                messages.push(msg);
            }
            assert(vec_views(messages@) =~= prev + opt_seq(round(cur, mg, tr).1));
            let after = buffer_bytes(&self.buffer).len();
            if after >= before {
                return messages;
            }
            assert(drain(start, mg, tr).1 =~= vec_views(messages@) + drain(self.pending(), mg, tr).1);
        }
    }

    /// How many bytes are buffered and not yet extracted.
    pub fn buffered_len(&self) -> (r: usize)
        ensures
            r == self.pending().len(),
    {
        buffer_bytes(&self.buffer).len()
    }

    /// One round of extraction.
    fn try_extract_message(&mut self) -> (r: Option<Vec<u8>>)
        ensures
            final(self).magic() == old(self).magic(),
            final(self).trailer() == old(self).trailer(),
            round(old(self).pending(), old(self).magic(), old(self).trailer()) == (
            final(self).pending(),
            match r {
                Some(v) => Some(v@),
                None => None::<Seq<u8>>,
            }),
    {
        let ghost buf = self.pending();
        let pos = match find_marker(buffer_bytes(&self.buffer), &self.magic) {
            None => return None,
            Some(p) => p,
        };
        proof {
            lemma_first_marker(buf, self.magic@, 0);
        }
        if pos > 0 {
            buffer_advance(&mut self.buffer, pos);
        }
        let ghost b = self.pending();
        assert(b == buf.subrange(pos as int, buf.len() as int));
        let bytes = buffer_bytes(&self.buffer);
        if bytes.len() < HEADER_LEN {
            return None;
        }
        let declared = read_be(bytes, 8, 8);
        if declared > MAX_MESSAGE_LEN {
            buffer_advance(&mut self.buffer, MARKER_LEN);
            return None;
        }
        let msg_len = declared as usize;
        if bytes.len() < msg_len {
            return None;
        }
        let msg = buffer_split_to(&mut self.buffer, msg_len);
        if msg.len() < MARKER_LEN || !marker_matches(msg.as_slice(), msg.len() - 4, &self.trailer) {
            return None;
        }
        Some(msg)
    }
}

impl Default for Grib2StreamParser {
    /// The GRIB2 parser of `new`.
    fn default() -> (r: Self)
        ensures
            r.pending() == Seq::<u8>::empty(),
            r.magic() == seq![0x47u8, 0x52u8, 0x49u8, 0x42u8],
            r.trailer() == seq![0x37u8, 0x37u8, 0x37u8, 0x37u8],
    {
        Self::new()
    }
}

} // verus!
