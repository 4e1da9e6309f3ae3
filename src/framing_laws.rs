//! What the framer guarantees of whole streams, proved over `round` and
//! `drain`, the model that `Grib2StreamParser::feed` is verified against.
use crate::framer::{
    declared_len, drain, ends_with_trailer, first_marker, lemma_first_marker, marker_at, opt_seq,
    round, MAX_MESSAGE_LEN,
};
use vstd::prelude::*;

verus! {

/// One round never grows the buffer, only drops bytes from its head, and a
/// round that drops nothing emits nothing.
pub proof fn lemma_round_shape(buf: Seq<u8>, magic: Seq<u8>, trailer: Seq<u8>)
    ensures
        ({
            let (rest, m) = round(buf, magic, trailer);
            &&& rest.len() <= buf.len()
            &&& rest == buf.subrange(buf.len() - rest.len(), buf.len() as int)
            &&& m is Some ==> rest.len() + 4 <= buf.len()
            &&& rest.len() == buf.len() ==> m is None
        }),
{
    lemma_first_marker(buf, magic, 0);
    let (rest, m) = round(buf, magic, trailer);
    match first_marker(buf, magic, 0) {
        None => {
            assert(buf.subrange(0, buf.len() as int) =~= buf);
        },
        Some(p) => {
            let b = buf.subrange(p as int, buf.len() as int);
            assert(rest =~= buf.subrange(buf.len() - rest.len(), buf.len() as int));
        },
    }
}

/// What holds of every emitted message: the magic marker first, the trailer
/// marker last, a length within the ceiling, and, where the length field is
/// whole, a declared length equal to its own.
pub open spec fn emitted_framing(m: Seq<u8>, magic: Seq<u8>, trailer: Seq<u8>) -> bool {
    &&& 4 <= m.len() <= MAX_MESSAGE_LEN
    &&& m.subrange(0, 4) == magic
    &&& ends_with_trailer(m, trailer)
    &&& m.len() >= 16 ==> declared_len(m) == m.len()
}

/// Every message that the framer emits starts with the magic marker, ends
/// with the trailer marker, and is as long as it declares: a candidate whose
/// last four bytes are anything else is never emitted.
pub proof fn lemma_emitted_messages_are_framed(buf: Seq<u8>, magic: Seq<u8>, trailer: Seq<u8>)
    ensures
        forall|i: int|
            0 <= i < drain(buf, magic, trailer).1.len() ==> emitted_framing(
                #[trigger] drain(buf, magic, trailer).1[i],
                magic,
                trailer,
            ),
    decreases buf.len(),
{
    lemma_first_marker(buf, magic, 0);
    let (rest, m) = round(buf, magic, trailer);
    if let Some(c) = m {
        let p = first_marker(buf, magic, 0)->Some_0;
        let b = buf.subrange(p as int, buf.len() as int);
        assert(c.subrange(0, 4) =~= buf.subrange(p as int, p + 4 as int));
        if c.len() >= 16 {
            assert(c.subrange(8, 16) =~= b.subrange(8, 16));
        }
    }
    if rest.len() < buf.len() {
        lemma_emitted_messages_are_framed(rest, magic, trailer);
        let ms = drain(buf, magic, trailer).1;
        let tail = drain(rest, magic, trailer).1;
        assert forall|i: int| 0 <= i < ms.len() implies emitted_framing(#[trigger] ms[i], magic, trailer) by {
            if m is Some {
                if i > 0 {
                    assert(ms[i] == tail[i - 1]);
                }
            } else {
                assert(ms[i] == tail[i]);
            }
        }
    }
}

/// Bytes before the first magic marker have no part in what is emitted: the
/// framer treats the buffer as if it began at that marker, and with no
/// marker at all it emits nothing and keeps every byte.
pub proof fn lemma_noise_before_marker_ignored(buf: Seq<u8>, magic: Seq<u8>, trailer: Seq<u8>)
    ensures
        match first_marker(buf, magic, 0) {
            Some(p) => drain(buf, magic, trailer) == drain(
                buf.subrange(p as int, buf.len() as int),
                magic,
                trailer,
            ),
            None => drain(buf, magic, trailer) == (buf, Seq::<Seq<u8>>::empty()),
        },
{
    lemma_first_marker(buf, magic, 0);
    lemma_round_shape(buf, magic, trailer);
    match first_marker(buf, magic, 0) {
        None => {
            assert(opt_seq(None) =~= Seq::<Seq<u8>>::empty());
        },
        Some(p) => {
            let s = buf.subrange(p as int, buf.len() as int);
            assert(s.subrange(0, 4) =~= buf.subrange(p as int, p + 4 as int));
            assert(first_marker(s, magic, 0) == Some(0nat));
            assert(s.subrange(0, s.len() as int) =~= s);
            assert(round(s, magic, trailer) == round(buf, magic, trailer));
            let (rest, m) = round(buf, magic, trailer);
            lemma_round_shape(s, magic, trailer);
            if rest.len() == s.len() && rest.len() < buf.len() {
                assert(rest =~= s);
                assert(opt_seq(m) + drain(rest, magic, trailer).1 =~= drain(rest, magic, trailer).1);
            }
        },
    }
}

/// A marker whose declared length passes the ceiling is a false match: the
/// round drops exactly its four bytes and emits nothing, and scanning goes
/// on from the byte after it.
pub proof fn lemma_oversized_length_skipped(buf: Seq<u8>, magic: Seq<u8>, trailer: Seq<u8>, p: nat)
    requires
        first_marker(buf, magic, 0) == Some(p),
        p + 16 <= buf.len(),
        declared_len(buf.subrange(p as int, buf.len() as int)) > MAX_MESSAGE_LEN,
    ensures
        round(buf, magic, trailer) == (buf.subrange(p + 4 as int, buf.len() as int), None::<Seq<u8>>),
        drain(buf, magic, trailer) == drain(buf.subrange(p + 4 as int, buf.len() as int), magic, trailer),
{
    let b = buf.subrange(p as int, buf.len() as int);
    assert(b.subrange(4, b.len() as int) =~= buf.subrange(p + 4 as int, buf.len() as int));
    assert(opt_seq(None) + drain(buf.subrange(p + 4 as int, buf.len() as int), magic, trailer).1
        =~= drain(buf.subrange(p + 4 as int, buf.len() as int), magic, trailer).1);
}

/// A candidate framed by its length field but with other last four bytes
/// than the trailer is consumed whole: it is neither emitted nor kept, and
/// the next round scans from the byte after it.
pub proof fn lemma_bad_trailer_consumed(buf: Seq<u8>, magic: Seq<u8>, trailer: Seq<u8>, p: nat)
    requires
        first_marker(buf, magic, 0) == Some(p),
        p + 16 <= buf.len(),
        declared_len(buf.subrange(p as int, buf.len() as int)) <= MAX_MESSAGE_LEN,
        p + declared_len(buf.subrange(p as int, buf.len() as int)) <= buf.len(),
        !ends_with_trailer(
            buf.subrange(p as int, (p + declared_len(buf.subrange(p as int, buf.len() as int))) as int),
            trailer,
        ),
    ensures
        ({
            let l = declared_len(buf.subrange(p as int, buf.len() as int));
            round(buf, magic, trailer) == (buf.subrange((p + l) as int, buf.len() as int), None::<Seq<u8>>)
        }),
{
    let b = buf.subrange(p as int, buf.len() as int);
    let l = declared_len(b);
    assert(b.subrange(0, l as int) =~= buf.subrange(p as int, (p + l) as int));
    assert(b.subrange(l as int, b.len() as int) =~= buf.subrange((p + l) as int, buf.len() as int));
}

/// A well-formed message: the magic marker first, a declared length equal to
/// its own length and within the ceiling, room for the header and the
/// trailer, and the trailer marker last.
pub open spec fn well_framed(m: Seq<u8>, magic: Seq<u8>, trailer: Seq<u8>) -> bool {
    &&& 20 <= m.len() <= MAX_MESSAGE_LEN
    &&& m.subrange(0, 4) == magic
    &&& declared_len(m) == m.len()
    &&& ends_with_trailer(m, trailer)
}

pub open spec fn all_well_framed(ms: Seq<Seq<u8>>, magic: Seq<u8>, trailer: Seq<u8>) -> bool {
    forall|i: int| 0 <= i < ms.len() ==> well_framed(#[trigger] ms[i], magic, trailer)
}

/// The byte sequences of `ms`, one after the other.
pub open spec fn concat(ms: Seq<Seq<u8>>) -> Seq<u8>
    decreases ms.len(),
{
    if ms.len() == 0 {
        Seq::<u8>::empty()
    } else {
        ms[0] + concat(ms.drop_first())
    }
}

/// Successive `feed` calls with `chunks`, from a parser that buffers `buf`:
/// what stays buffered, and every message emitted, in order.
pub open spec fn feed_all(buf: Seq<u8>, chunks: Seq<Seq<u8>>, magic: Seq<u8>, trailer: Seq<u8>) -> (
    Seq<u8>,
    Seq<Seq<u8>>,
)
    decreases chunks.len(),
{
    if chunks.len() == 0 {
        (buf, Seq::<Seq<u8>>::empty())
    } else {
        let (b1, out1) = drain(buf + chunks[0], magic, trailer);
        let (b2, out2) = feed_all(b1, chunks.drop_first(), magic, trailer);
        (b2, out1 + out2)
    }
}

/// `p` is empty, or a proper prefix of the first message of `ms`.
pub open spec fn partial_of(p: Seq<u8>, ms: Seq<Seq<u8>>) -> bool {
    p.len() == 0 || (ms.len() > 0 && p.len() < ms[0].len() && p == ms[0].subrange(0, p.len() as int))
}

proof fn lemma_concat_first(ms: Seq<Seq<u8>>)
    requires
        ms.len() > 0,
    ensures
        concat(ms) == ms[0] + concat(ms.drop_first()),
        concat(ms).len() >= ms[0].len(),
{
}

/// Draining complete messages followed by a part of the next one emits
/// exactly those messages and keeps the part.
proof fn lemma_drain_framed(ms: Seq<Seq<u8>>, p: Seq<u8>, next: Seq<Seq<u8>>, magic: Seq<u8>, trailer: Seq<u8>)
    requires
        all_well_framed(ms, magic, trailer),
        all_well_framed(next, magic, trailer),
        partial_of(p, next),
    ensures
        drain(concat(ms) + p, magic, trailer) == (p, ms),
    decreases ms.len(),
{
    let buf = concat(ms) + p;
    if ms.len() == 0 {
        assert(buf =~= p);
        if p.len() >= 4 {
            let n = next[0];
            assert(well_framed(n, magic, trailer));
            assert(p.subrange(0, 4) =~= n.subrange(0, 4));
            assert(first_marker(p, magic, 0) == Some(0nat));
            assert(p.subrange(0, p.len() as int) =~= p);
            if p.len() >= 16 {
                assert(p.subrange(8, 16) =~= n.subrange(8, 16));
            }
        }
        assert(opt_seq(None) =~= Seq::<Seq<u8>>::empty());
    } else {
        let m0 = ms[0];
        let tail = ms.drop_first();
        assert(well_framed(m0, magic, trailer));
        lemma_concat_first(ms);
        assert forall|i: int| 0 <= i < tail.len() implies well_framed(#[trigger] tail[i], magic, trailer) by {
            assert(tail[i] == ms[i + 1]);
        }
        lemma_drain_framed(tail, p, next, magic, trailer);
        let l = m0.len() as int;
        assert(buf.subrange(0, 4) =~= m0.subrange(0, 4));
        assert(first_marker(buf, magic, 0) == Some(0nat));
        assert(buf.subrange(0, buf.len() as int) =~= buf);
        assert(buf.subrange(8, 16) =~= m0.subrange(8, 16));
        assert(buf.subrange(0, l) =~= m0);
        assert(buf.subrange(l, buf.len() as int) =~= concat(tail) + p);
        assert(round(buf, magic, trailer) == (concat(tail) + p, Some(m0)));
        assert(opt_seq(Some(m0)) + tail =~= ms);
    }
}

/// Splits the stream `concat(ms) == x + y` where `x` ends: the first `k`
/// messages are whole in `x`, and `r`, the rest of `x`, is a part of the next.
proof fn lemma_split_stream(ms: Seq<Seq<u8>>, x: Seq<u8>, y: Seq<u8>) -> (res: (nat, Seq<u8>))
    requires
        concat(ms) == x + y,
    ensures
        res.0 <= ms.len(),
        x == concat(ms.take(res.0 as int)) + res.1,
        partial_of(res.1, ms.skip(res.0 as int)),
        concat(ms.skip(res.0 as int)) == res.1 + y,
    decreases ms.len(),
{
    if ms.len() == 0 {
        assert(x =~= Seq::<u8>::empty());
        assert(concat(ms.take(0)) =~= Seq::<u8>::empty());
        assert(x =~= concat(ms.take(0)) + x);
        assert(ms.skip(0) =~= ms);
        (0, x)
    } else if x.len() < ms[0].len() {
        lemma_concat_first(ms);
        assert(ms.take(0) =~= Seq::<Seq<u8>>::empty());
        assert(x =~= concat(ms.take(0)) + x);
        assert(ms.skip(0) =~= ms);
        assert(x =~= ms[0].subrange(0, x.len() as int)) by {
            assert forall|i: int| 0 <= i < x.len() implies x[i] == ms[0][i] by {
                assert((x + y)[i] == (ms[0] + concat(ms.drop_first()))[i]);
            }
        }
        (0, x)
    } else {
        lemma_concat_first(ms);
        let m0 = ms[0];
        let tail = ms.drop_first();
        let x2 = x.subrange(m0.len() as int, x.len() as int);
        assert(x.subrange(0, m0.len() as int) =~= m0) by {
            assert forall|i: int| 0 <= i < m0.len() implies x[i] == m0[i] by {
                assert((x + y)[i] == (m0 + concat(tail))[i]);
            }
        }
        assert(x =~= m0 + x2);
        assert(concat(tail) =~= x2 + y) by {
            assert forall|i: int| 0 <= i < concat(tail).len() implies concat(tail)[i] == (x2 + y)[i] by {
                assert((x + y)[m0.len() + i] == (m0 + concat(tail))[m0.len() + i]);
            }
        }
        let (k2, r) = lemma_split_stream(tail, x2, y);
        let k = k2 + 1;
        assert(ms.take(k as int).drop_first() =~= tail.take(k2 as int));
        lemma_concat_first(ms.take(k as int));
        assert(ms.skip(k as int) =~= tail.skip(k2 as int));
        assert(x =~= concat(ms.take(k as int)) + r);
        (k as nat, r)
    }
}

proof fn lemma_feed_all_framed(ms: Seq<Seq<u8>>, p: Seq<u8>, chunks: Seq<Seq<u8>>, magic: Seq<u8>, trailer: Seq<u8>)
    requires
        all_well_framed(ms, magic, trailer),
        partial_of(p, ms),
        p + concat(chunks) == concat(ms),
    ensures
        feed_all(p, chunks, magic, trailer) == (Seq::<u8>::empty(), ms),
    decreases chunks.len(),
{
    if chunks.len() == 0 {
        assert(p + concat(chunks) =~= p);
        if ms.len() > 0 {
            lemma_concat_first(ms);
            assert(well_framed(ms[0], magic, trailer));
        } else {
            assert(ms =~= Seq::<Seq<u8>>::empty());
        }
    } else {
        let c0 = chunks[0];
        let rest = chunks.drop_first();
        assert(concat(chunks) == c0 + concat(rest));
        assert(concat(ms) =~= (p + c0) + concat(rest));
        let (k, r) = lemma_split_stream(ms, p + c0, concat(rest));
        let done = ms.take(k as int);
        let later = ms.skip(k as int);
        assert forall|i: int| 0 <= i < done.len() implies well_framed(#[trigger] done[i], magic, trailer) by {
            assert(done[i] == ms[i]);
        }
        assert forall|i: int| 0 <= i < later.len() implies well_framed(#[trigger] later[i], magic, trailer) by {
            assert(later[i] == ms[i + k]);
        }
        lemma_drain_framed(done, r, later, magic, trailer);
        lemma_feed_all_framed(later, r, rest, magic, trailer);
        assert(done + later =~= ms);
    }
}

/// Well-formed messages, one after the other, fed to a parser with nothing
/// buffered in chunks of any sizes (one byte at a time included), come out
/// exactly: the same messages, unmodified, in the same order, and nothing
/// stays buffered.
pub proof fn lemma_chunked_stream_yields_messages(
    ms: Seq<Seq<u8>>,
    chunks: Seq<Seq<u8>>,
    magic: Seq<u8>,
    trailer: Seq<u8>,
)
    requires
        all_well_framed(ms, magic, trailer),
        concat(chunks) == concat(ms),
    ensures
        feed_all(Seq::<u8>::empty(), chunks, magic, trailer) == (Seq::<u8>::empty(), ms),
{
    assert(Seq::<u8>::empty() + concat(chunks) =~= concat(chunks));
    lemma_feed_all_framed(ms, Seq::<u8>::empty(), chunks, magic, trailer);
}

/// Over any number of `feed` calls: where the magic marker occurs nowhere in
/// what was buffered and fed, no message is emitted and every byte stays
/// buffered.
pub proof fn lemma_markerless_stream_emits_nothing(
    buf: Seq<u8>,
    chunks: Seq<Seq<u8>>,
    magic: Seq<u8>,
    trailer: Seq<u8>,
)
    requires
        forall|j: int| !#[trigger] marker_at(buf + concat(chunks), magic, j),
    ensures
        feed_all(buf, chunks, magic, trailer) == (buf + concat(chunks), Seq::<Seq<u8>>::empty()),
    decreases chunks.len(),
{
    let whole = buf + concat(chunks);
    if chunks.len() == 0 {
        assert(whole =~= buf);
    } else {
        let x = buf + chunks[0];
        let rest = chunks.drop_first();
        assert(whole =~= x + concat(rest));
        assert forall|j: int| !#[trigger] marker_at(x, magic, j) by {
            if marker_at(x, magic, j) {
                assert(x.subrange(j, j + 4) =~= whole.subrange(j, j + 4));
                assert(marker_at(whole, magic, j));
            }
        }
        lemma_first_marker(x, magic, 0);
        assert(first_marker(x, magic, 0) is None);
        assert(drain(x, magic, trailer) == (x, Seq::<Seq<u8>>::empty())) by {
            assert(opt_seq(None) =~= Seq::<Seq<u8>>::empty());
        }
        assert forall|j: int| !#[trigger] marker_at(x + concat(rest), magic, j) by {
            assert(x + concat(rest) == whole);
        }
        lemma_markerless_stream_emits_nothing(x, rest, magic, trailer);
        assert(Seq::<Seq<u8>>::empty() + Seq::<Seq<u8>>::empty() =~= Seq::<Seq<u8>>::empty());
    }
}

} // verus!
