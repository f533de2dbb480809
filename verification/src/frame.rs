//! The record stream format for batches of serialized vectors: an 8-byte
//! little-endian record count, then for each record an 8-byte little-endian
//! payload length followed by the payload bytes.
use vstd::prelude::*;

verus! {

/// The 8 little-endian bytes of a word (the fixed-width integer encoding
/// the stream uses for counts and lengths).
pub open spec fn le8(x: u64) -> Seq<u8> {
    Seq::new(8, |k: int| ((x >> ((8 * k) as u64)) & 0xffu64) as u8)
}

/// The word held by the 8 bytes of `b` starting at `at`, least significant
/// byte first.
pub open spec fn le_read(b: Seq<u8>, at: int) -> u64 {
    (b[at] as u64) | ((b[at + 1] as u64) << 8u64) | ((b[at + 2] as u64) << 16u64) | ((b[at
        + 3] as u64) << 24u64) | ((b[at + 4] as u64) << 32u64) | ((b[at + 5] as u64) << 40u64)
        | ((b[at + 6] as u64) << 48u64) | ((b[at + 7] as u64) << 56u64)
}

/// One record: its length, then its bytes.
pub open spec fn record(p: Seq<u8>) -> Seq<u8> {
    le8(p.len() as u64) + p
}

/// The records of a sequence of payloads, one after the other.
pub open spec fn records(ps: Seq<Seq<u8>>) -> Seq<u8>
    decreases ps.len(),
{
    if ps.len() == 0 {
        Seq::empty()
    } else {
        record(ps[0]) + records(ps.drop_first())
    }
}

/// A whole stream: the record count, then the records.
pub open spec fn framed(ps: Seq<Seq<u8>>) -> Seq<u8> {
    le8(ps.len() as u64) + records(ps)
}

/// Why a byte string is not a record stream.
#[derive(Debug, Clone, Copy, PartialEq, Eq, Structural)]
pub enum FrameError {
    /// Fewer than 8 bytes: no record count.
    MissingCount,
    /// The stream ends where a record length should start.
    MissingLength,
    /// A record announces more payload bytes than the stream has left.
    TruncatedPayload,
}

/// Reads `remaining` records starting at byte `pos`. Bytes after the last
/// record are not looked at.
pub open spec fn parse_records(b: Seq<u8>, pos: int, remaining: nat) -> Result<Seq<Seq<u8>>, FrameError>
    decreases remaining,
{
    if remaining == 0 {
        Ok(Seq::empty())
    } else if pos + 8 > b.len() {
        Err(FrameError::MissingLength)
    } else if pos + 8 + le_read(b, pos) > b.len() {
        Err(FrameError::TruncatedPayload)
    } else {
        let end = pos + 8 + le_read(b, pos);
        match parse_records(b, end, (remaining - 1) as nat) {
            Ok(rest) => Ok(seq![b.subrange(pos + 8, end)] + rest),
            Err(e) => Err(e),
        }
    }
}

/// The payloads a byte string holds: the count, then that many records.
pub open spec fn unframe(b: Seq<u8>) -> Result<Seq<Seq<u8>>, FrameError> {
    if b.len() < 8 {
        Err(FrameError::MissingCount)
    } else {
        parse_records(b, 8, le_read(b, 0) as nat)
    }
}

/// The byte contents of a sequence of byte vectors.
pub open spec fn byte_views(v: Seq<Vec<u8>>) -> Seq<Seq<u8>> {
    Seq::new(v.len(), |i: int| v[i]@)
}

/// The record format's integers are little-endian: byte `k` of the
/// encoding of `x` is digit `k` of `x` in base 256, least significant
/// first.
pub proof fn lemma_le8_digits(x: u64)
    ensures
        le8(x).len() == 8,
        le8(x)[0] as int == (x as int / 1int) % 256,
        le8(x)[1] as int == (x as int / 256int) % 256,
        le8(x)[2] as int == (x as int / 65536int) % 256,
        le8(x)[3] as int == (x as int / 16777216int) % 256,
        le8(x)[4] as int == (x as int / 4294967296int) % 256,
        le8(x)[5] as int == (x as int / 1099511627776int) % 256,
        le8(x)[6] as int == (x as int / 281474976710656int) % 256,
        le8(x)[7] as int == (x as int / 72057594037927936int) % 256,
{
    assert(((x >> 0u64) & 0xffu64) == (x / 1u64) % 256u64) by (bit_vector);
    assert(((x >> 8u64) & 0xffu64) == (x / 256u64) % 256u64) by (bit_vector);
    assert(((x >> 16u64) & 0xffu64) == (x / 65536u64) % 256u64) by (bit_vector);
    assert(((x >> 24u64) & 0xffu64) == (x / 16777216u64) % 256u64) by (bit_vector);
    assert(((x >> 32u64) & 0xffu64) == (x / 4294967296u64) % 256u64) by (bit_vector);
    assert(((x >> 40u64) & 0xffu64) == (x / 1099511627776u64) % 256u64) by (bit_vector);
    assert(((x >> 48u64) & 0xffu64) == (x / 281474976710656u64) % 256u64) by (bit_vector);
    assert(((x >> 56u64) & 0xffu64) == (x / 72057594037927936u64) % 256u64) by (bit_vector);
}

/// Reading back the 8 bytes of a word gives the word.
pub proof fn lemma_le8_read(pre: Seq<u8>, x: u64, post: Seq<u8>)
    ensures
        le_read(pre + le8(x) + post, pre.len() as int) == x,
{
    let b = pre + le8(x) + post;
    let p = pre.len() as int;
    assert(b[p] == ((x >> 0u64) & 0xffu64) as u8);
    assert(b[p + 1] == ((x >> 8u64) & 0xffu64) as u8);
    assert(b[p + 2] == ((x >> 16u64) & 0xffu64) as u8);
    assert(b[p + 3] == ((x >> 24u64) & 0xffu64) as u8);
    assert(b[p + 4] == ((x >> 32u64) & 0xffu64) as u8);
    assert(b[p + 5] == ((x >> 40u64) & 0xffu64) as u8);
    assert(b[p + 6] == ((x >> 48u64) & 0xffu64) as u8);
    assert(b[p + 7] == ((x >> 56u64) & 0xffu64) as u8);
    let b0 = b[p];
    let b1 = b[p + 1];
    let b2 = b[p + 2];
    let b3 = b[p + 3];
    let b4 = b[p + 4];
    let b5 = b[p + 5];
    let b6 = b[p + 6];
    let b7 = b[p + 7];
    assert((b0 as u64) | ((b1 as u64) << 8u64) | ((b2 as u64) << 16u64) | ((b3 as u64) << 24u64)
        | ((b4 as u64) << 32u64) | ((b5 as u64) << 40u64) | ((b6 as u64) << 48u64) | ((b7 as u64)
        << 56u64) == x) by (bit_vector)
        requires
            b0 == ((x >> 0u64) & 0xffu64) as u8,
            b1 == ((x >> 8u64) & 0xffu64) as u8,
            b2 == ((x >> 16u64) & 0xffu64) as u8,
            b3 == ((x >> 24u64) & 0xffu64) as u8,
            b4 == ((x >> 32u64) & 0xffu64) as u8,
            b5 == ((x >> 40u64) & 0xffu64) as u8,
            b6 == ((x >> 48u64) & 0xffu64) as u8,
            b7 == ((x >> 56u64) & 0xffu64) as u8,
    ;
}

/// Appending one more payload appends its record.
proof fn lemma_records_push(ps: Seq<Seq<u8>>, p: Seq<u8>)
    ensures
        records(ps.push(p)) == records(ps) + record(p),
    decreases ps.len(),
{
    if ps.len() == 0 {
        assert(ps.push(p).drop_first() =~= Seq::<Seq<u8>>::empty());
        assert(records(Seq::<Seq<u8>>::empty()) =~= Seq::<u8>::empty());
        assert(ps.push(p)[0] == p);
        assert(records(ps.push(p)) =~= record(p) + Seq::<u8>::empty());
        assert(records(ps.push(p)) =~= records(ps) + record(p));
    } else {
        lemma_records_push(ps.drop_first(), p);
        assert(ps.push(p).drop_first() =~= ps.drop_first().push(p));
        assert(records(ps.push(p)) =~= records(ps) + record(p));
    }
}

/// Records laid down one after the other read back as the same payloads,
/// whatever bytes come before or after them.
proof fn lemma_parse_records(pre: Seq<u8>, ps: Seq<Seq<u8>>, post: Seq<u8>)
    requires
        forall|i: int| 0 <= i < ps.len() ==> (#[trigger] ps[i]).len() <= u64::MAX,
    ensures
        parse_records(pre + records(ps) + post, pre.len() as int, ps.len()) == Ok::<
            Seq<Seq<u8>>,
            FrameError,
        >(ps),
    decreases ps.len(),
{
    let b = pre + records(ps) + post;
    if ps.len() == 0 {
        assert(ps =~= Seq::<Seq<u8>>::empty());
    } else {
        let p0 = ps[0];
        let rest = ps.drop_first();
        let pre2 = pre + record(p0);
        assert(b =~= pre + le8(p0.len() as u64) + (p0 + records(rest) + post));
        lemma_le8_read(pre, p0.len() as u64, p0 + records(rest) + post);
        let pos = pre.len() as int;
        assert(le_read(b, pos) == p0.len());
        assert(b =~= pre2 + records(rest) + post);
        assert forall|i: int| 0 <= i < rest.len() implies (#[trigger] rest[i]).len() <= u64::MAX by {
            assert(rest[i] == ps[i + 1]);
        }
        lemma_parse_records(pre2, rest, post);
        assert(b.subrange(pos + 8, pos + 8 + p0.len()) =~= p0);
        assert(seq![p0] + rest =~= ps);
    }
}

/// Reading back a written stream gives the payloads that were written.
pub proof fn lemma_unframe_framed(ps: Seq<Seq<u8>>)
    requires
        ps.len() <= u64::MAX,
        forall|i: int| 0 <= i < ps.len() ==> (#[trigger] ps[i]).len() <= u64::MAX,
    ensures
        unframe(framed(ps)) == Ok::<Seq<Seq<u8>>, FrameError>(ps),
{
    let b = framed(ps);
    lemma_le8_read(Seq::empty(), ps.len() as u64, records(ps));
    assert(b =~= Seq::<u8>::empty() + le8(ps.len() as u64) + records(ps));
    assert(b =~= le8(ps.len() as u64) + records(ps) + Seq::<u8>::empty());
    lemma_parse_records(le8(ps.len() as u64), ps, Seq::empty());
}

/// Appends the 8 little-endian bytes of `x`.
fn push_le8(out: &mut Vec<u8>, x: u64)
    ensures
        final(out)@ == old(out)@ + le8(x),
{
    let mut k: u64 = 0;
    let ghost start = out@;
    while k < 8
        invariant
            k <= 8,
            out@ == start + le8(x).take(k as int),
        decreases 8 - k,
    {
        let byte = ((x >> (8 * k)) & 0xffu64) as u8;
        out.push(byte);
        proof {
            assert(le8(x).take(k + 1) =~= le8(x).take(k as int).push(byte));
        }
        k = k + 1;
    }
    proof {
        assert(le8(x).take(8) =~= le8(x));
    }
}

/// Writes a record stream: the number of payloads, then each payload's
/// length and bytes, all lengths as 8 little-endian bytes.
pub fn frame_records(payloads: &[Vec<u8>]) -> (r: Vec<u8>)
    ensures
        r@ == framed(byte_views(payloads@)),
{
    let ghost ps = byte_views(payloads@);
    let mut out: Vec<u8> = Vec::new();
    push_le8(&mut out, payloads.len() as u64);
    let mut i: usize = 0;
    while i < payloads.len()
        invariant
            ps == byte_views(payloads@),
            i <= payloads@.len(),
            out@ == le8(payloads@.len() as u64) + records(ps.take(i as int)),
        decreases payloads@.len() - i,
    {
        let p = &payloads[i];
        push_le8(&mut out, p.len() as u64);
        let mut j: usize = 0;
        let ghost mid = out@;
        while j < p.len()
            invariant
                j <= p@.len(),
                out@ == mid + p@.take(j as int),
            decreases p@.len() - j,
        {
            out.push(p[j]);
            proof {
                assert(p@.take(j + 1) =~= p@.take(j as int).push(p@[j as int]));
            }
            j = j + 1;
        }
        proof {
            assert(p@.take(j as int) =~= p@);
            lemma_records_push(ps.take(i as int), ps[i as int]);
            assert(ps.take(i + 1) =~= ps.take(i as int).push(ps[i as int]));
            assert(out@ =~= le8(payloads@.len() as u64) + records(ps.take(i + 1)));
        }
        i = i + 1;
    }
    proof {
        assert(ps.take(payloads@.len() as int) =~= ps);
    }
    out
}

/// Reads the word stored in the 8 bytes at `at`.
fn read_le8(b: &[u8], at: usize) -> (x: u64)
    requires
        at + 8 <= b@.len(),
    ensures
        x == le_read(b@, at as int),
{
    (b[at] as u64) | ((b[at + 1] as u64) << 8u64) | ((b[at + 2] as u64) << 16u64) | ((b[at
        + 3] as u64) << 24u64) | ((b[at + 4] as u64) << 32u64) | ((b[at + 5] as u64) << 40u64)
        | ((b[at + 6] as u64) << 48u64) | ((b[at + 7] as u64) << 56u64)
}

/// Reads a record stream back into its payloads. Fails when the count, a
/// record length, or a payload runs past the end of the bytes; bytes after
/// the last record are ignored.
pub fn unframe_records(bytes: &[u8]) -> (r: Result<Vec<Vec<u8>>, FrameError>)
    ensures
        match r {
            Ok(v) => unframe(bytes@) == Ok::<Seq<Seq<u8>>, FrameError>(byte_views(v@)),
            Err(e) => unframe(bytes@) == Err::<Seq<Seq<u8>>, FrameError>(e),
        },
{
    if bytes.len() < 8 {
        return Err(FrameError::MissingCount);
    }
    let count = read_le8(bytes, 0);
    let mut out: Vec<Vec<u8>> = Vec::new();
    let mut pos: usize = 8;
    let mut i: u64 = 0;
    while i < count
        invariant
            bytes@.len() >= 8,
            count == le_read(bytes@, 0),
            i <= count,
            8 <= pos <= bytes@.len(),
            match parse_records(bytes@, pos as int, (count - i) as nat) {
                Ok(rest) => unframe(bytes@) == Ok::<Seq<Seq<u8>>, FrameError>(
                    byte_views(out@) + rest,
                ),
                Err(e) => unframe(bytes@) == Err::<Seq<Seq<u8>>, FrameError>(e),
            },
        decreases count - i,
    {
        if bytes.len() - pos < 8 {
            return Err(FrameError::MissingLength);
        }
        let len = read_le8(bytes, pos);
        let avail = bytes.len() - pos - 8;
        if len > avail as u64 {
            return Err(FrameError::TruncatedPayload);
        }
        let start = pos + 8;
        let end = start + len as usize;
        let mut payload: Vec<u8> = Vec::new();
        let mut j: usize = start;
        while j < end
            invariant
                start <= j <= end,
                end <= bytes@.len(),
                payload@ == bytes@.subrange(start as int, j as int),
            decreases end - j,
        {
            payload.push(bytes[j]);
            proof {
                assert(bytes@.subrange(start as int, j + 1) =~= bytes@.subrange(
                    start as int,
                    j as int,
                ).push(bytes@[j as int]));
            }
            j = j + 1;
        }
        let ghost before = out@;
        out.push(payload);
        proof {
            let rem = (count - i) as nat;
            let next = parse_records(bytes@, end as int, (rem - 1) as nat);
            assert(byte_views(out@) =~= byte_views(before).push(payload@));
            match next {
                Ok(rest) => {
                    assert(byte_views(before) + (seq![payload@] + rest) =~= byte_views(out@)
                        + rest);
                },
                Err(e) => {},
            }
        }
        pos = end;
        i = i + 1;
    }
    proof {
        assert(byte_views(out@) + Seq::<Seq<u8>>::empty() =~= byte_views(out@));
    }
    Ok(out)
}

} // verus!
