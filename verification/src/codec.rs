//! The explicit record codec: a record is an 8-byte little-endian entry
//! count, then for each entry an 8-byte key, an 8-byte blob length and the
//! blob bytes, in insertion order. Encoding and decoding are verified
//! inverses of one another.

use vstd::prelude::*;

verus! {

/// The eight little-endian bytes of a 64-bit value.
pub open spec fn u64_le_bytes(v: u64) -> Seq<u8> {
    seq![
        (v & 0xff) as u8,
        ((v >> 8) & 0xff) as u8,
        ((v >> 16) & 0xff) as u8,
        ((v >> 24) & 0xff) as u8,
        ((v >> 32) & 0xff) as u8,
        ((v >> 40) & 0xff) as u8,
        ((v >> 48) & 0xff) as u8,
        ((v >> 56) & 0xff) as u8,
    ]
}

/// The 64-bit value read from eight little-endian bytes.
pub open spec fn u64_from_le(s: Seq<u8>) -> u64 {
    ((s[0] as u64) | ((s[1] as u64) << 8) | ((s[2] as u64) << 16) | ((s[3] as u64) << 24)
        | ((s[4] as u64) << 32) | ((s[5] as u64) << 40) | ((s[6] as u64) << 48)
        | ((s[7] as u64) << 56)) as u64
}

pub proof fn lemma_u64_le_round_trip(v: u64)
    ensures
        u64_le_bytes(v).len() == 8,
        u64_from_le(u64_le_bytes(v)) == v,
{
    let s = u64_le_bytes(v);
    assert(s[0] == (v & 0xff) as u8);
    assert(s[1] == ((v >> 8) & 0xff) as u8);
    assert(s[2] == ((v >> 16) & 0xff) as u8);
    assert(s[3] == ((v >> 24) & 0xff) as u8);
    assert(s[4] == ((v >> 32) & 0xff) as u8);
    assert(s[5] == ((v >> 40) & 0xff) as u8);
    assert(s[6] == ((v >> 48) & 0xff) as u8);
    assert(s[7] == ((v >> 56) & 0xff) as u8);
    assert((((v & 0xff) as u8 as u64) | ((((v >> 8) & 0xff) as u8 as u64) << 8) | ((((v >> 16)
        & 0xff) as u8 as u64) << 16) | ((((v >> 24) & 0xff) as u8 as u64) << 24) | ((((v >> 32)
        & 0xff) as u8 as u64) << 32) | ((((v >> 40) & 0xff) as u8 as u64) << 40) | ((((v >> 48)
        & 0xff) as u8 as u64) << 48) | ((((v >> 56) & 0xff) as u8 as u64) << 56)) as u64 == v)
        by (bit_vector);
}

/// Appends the eight little-endian bytes of `v`.
pub fn encode_u64_le(v: u64, out: &mut Vec<u8>)
    ensures
        final(out)@ == old(out)@ + u64_le_bytes(v),
{
    proof {
        assert((v & 0xff) < 256 && ((v >> 8) & 0xff) < 256 && ((v >> 16) & 0xff) < 256 && ((v
            >> 24) & 0xff) < 256 && ((v >> 32) & 0xff) < 256 && ((v >> 40) & 0xff) < 256 && ((v
            >> 48) & 0xff) < 256 && ((v >> 56) & 0xff) < 256) by (bit_vector);
    }
    out.push((v & 0xff) as u8);
    out.push(((v >> 8) & 0xff) as u8);
    out.push(((v >> 16) & 0xff) as u8);
    out.push(((v >> 24) & 0xff) as u8);
    out.push(((v >> 32) & 0xff) as u8);
    out.push(((v >> 40) & 0xff) as u8);
    out.push(((v >> 48) & 0xff) as u8);
    out.push(((v >> 56) & 0xff) as u8);
    proof {
        assert(final(out)@ =~= old(out)@ + u64_le_bytes(v));
    }
}

/// Reads the 64-bit value whose little-endian bytes sit at `off`.
pub fn decode_u64_le(bytes: &Vec<u8>, off: usize) -> (r: u64)
    requires
        off + 8 <= bytes@.len(),
    ensures
        r == u64_from_le(bytes@.subrange(off as int, off as int + 8)),
{
    let blen = bytes.len();
    assert(off + 8 <= blen);
    let b0 = bytes[off];
    let b1 = bytes[off + 1];
    let b2 = bytes[off + 2];
    let b3 = bytes[off + 3];
    let b4 = bytes[off + 4];
    let b5 = bytes[off + 5];
    let b6 = bytes[off + 6];
    let b7 = bytes[off + 7];
    let r: u64 = (b0 as u64) | ((b1 as u64) << 8u64) | ((b2 as u64) << 16u64) | ((b3 as u64)
        << 24u64) | ((b4 as u64) << 32u64) | ((b5 as u64) << 40u64) | ((b6 as u64) << 48u64) | ((
    b7 as u64) << 56u64);
    proof {
        let s = bytes@.subrange(off as int, off as int + 8);
        assert(s[0] == b0 && s[1] == b1 && s[2] == b2 && s[3] == b3 && s[4] == b4 && s[5] == b5
            && s[6] == b6 && s[7] == b7);
    }
    r
}

/// One 64-bit value as its own 8-byte blob.
pub fn encode_u64_blob(v: u64) -> (r: Vec<u8>)
    ensures
        r@ == u64_le_bytes(v),
{
    let mut out: Vec<u8> = Vec::new();
    encode_u64_le(v, &mut out);
    proof {
        assert(out@ =~= u64_le_bytes(v));
    }
    out
}

/// Reads a 64-bit value back from its 8-byte blob.
pub fn decode_u64_blob(b: &Vec<u8>) -> (r: Option<u64>)
    ensures
        b@.len() == 8 ==> r == Some(u64_from_le(b@)),
        b@.len() != 8 ==> r is None,
{
    if b.len() == 8 {
        let v = decode_u64_le(b, 0);
        proof {
            assert(b@.subrange(0, 8) =~= b@);
        }
        Some(v)
    } else {
        None
    }
}

/// The bytes of one entry: key, blob length, blob.
pub open spec fn entry_bytes(k: u64, blob: Seq<u8>) -> Seq<u8> {
    u64_le_bytes(k) + u64_le_bytes(blob.len() as u64) + blob
}

/// The bytes of a run of entries, in order.
pub open spec fn entries_bytes(es: Seq<(u64, Seq<u8>)>) -> Seq<u8>
    decreases es.len(),
{
    if es.len() == 0 {
        Seq::empty()
    } else {
        entry_bytes(es[0].0, es[0].1) + entries_bytes(es.skip(1))
    }
}

/// The full record: entry count, then the entries.
pub open spec fn record_bytes(es: Seq<(u64, Seq<u8>)>) -> Seq<u8> {
    u64_le_bytes(es.len() as u64) + entries_bytes(es)
}

/// Parses exactly `n` entries out of `s`, requiring that nothing is left over.
pub open spec fn parse_entries(s: Seq<u8>, n: nat) -> Option<Seq<(u64, Seq<u8>)>>
    decreases n,
{
    if n == 0 {
        if s.len() == 0 {
            Some(Seq::empty())
        } else {
            None
        }
    } else if s.len() < 16 {
        None
    } else {
        let k = u64_from_le(s.subrange(0, 8));
        let l = u64_from_le(s.subrange(8, 16)) as int;
        if s.len() < 16 + l {
            None
        } else {
            let blob = s.subrange(16, 16 + l);
            match parse_entries(s.subrange(16 + l, s.len() as int), (n - 1) as nat) {
                Some(tail) => Some(seq![(k, blob)] + tail),
                None => None,
            }
        }
    }
}

/// Parses a full record; `None` on truncated, oversized or trailing bytes.
pub open spec fn parse_record(s: Seq<u8>) -> Option<Seq<(u64, Seq<u8>)>> {
    if s.len() < 8 {
        None
    } else {
        parse_entries(s.subrange(8, s.len() as int), u64_from_le(s.subrange(0, 8)) as nat)
    }
}

/// Every blob is small enough that its length fits the 8-byte length field.
pub open spec fn blobs_fit(es: Seq<(u64, Seq<u8>)>) -> bool {
    forall|i: int| 0 <= i < es.len() ==> (#[trigger] es[i]).1.len() <= u64::MAX
}

proof fn lemma_parse_entries_of_encode(es: Seq<(u64, Seq<u8>)>)
    requires
        es.len() <= u64::MAX,
        blobs_fit(es),
    ensures
        parse_entries(entries_bytes(es), es.len()) == Some(es),
    decreases es.len(),
{
    if es.len() == 0 {
        assert(entries_bytes(es).len() == 0);
    } else {
        let k = es[0].0;
        let blob = es[0].1;
        let tail = es.skip(1);
        let s = entries_bytes(es);
        let l = blob.len() as int;
        lemma_u64_le_round_trip(k);
        lemma_u64_le_round_trip(blob.len() as u64);
        assert(s =~= u64_le_bytes(k) + u64_le_bytes(blob.len() as u64) + blob + entries_bytes(
            tail,
        ));
        assert(s.subrange(0, 8) =~= u64_le_bytes(k));
        assert(s.subrange(8, 16) =~= u64_le_bytes(blob.len() as u64));
        assert(s.len() == 16 + l + entries_bytes(tail).len());
        assert(s.subrange(16, 16 + l) =~= blob);
        assert(s.subrange(16 + l, s.len() as int) =~= entries_bytes(tail));
        assert(es[0].1.len() <= u64::MAX);
        assert forall|i: int| 0 <= i < tail.len() implies (#[trigger] tail[i]).1.len()
            <= u64::MAX by {
            assert(tail[i] == es[i + 1]);
        }
        lemma_parse_entries_of_encode(tail);
        assert(parse_entries(s, es.len()) == Some(seq![(k, blob)] + tail));
        assert(seq![(k, blob)] + tail =~= es);
    }
}

/// Round-trip law of the record codec: decoding an encoded record gives the
/// encoded entries back, whatever they were.
pub proof fn lemma_record_round_trip(es: Seq<(u64, Seq<u8>)>)
    requires
        es.len() <= u64::MAX,
        blobs_fit(es),
    ensures
        parse_record(record_bytes(es)) == Some(es),
{
    let s = record_bytes(es);
    lemma_u64_le_round_trip(es.len() as u64);
    assert(s.subrange(0, 8) =~= u64_le_bytes(es.len() as u64));
    assert(s.subrange(8, s.len() as int) =~= entries_bytes(es));
    lemma_parse_entries_of_encode(es);
}

/// Whatever parses is shaped by the format itself: exactly `n` entries,
/// each blob no longer than its 8-byte length field can say.
pub proof fn lemma_parse_entries_shape(s: Seq<u8>, n: nat)
    ensures
        parse_entries(s, n) matches Some(es) ==> es.len() == n && blobs_fit(es),
    decreases n,
{
    if n == 0 {
    } else if s.len() < 16 {
    } else {
        let l = u64_from_le(s.subrange(8, 16)) as int;
        if s.len() < 16 + l {
        } else {
            let blob = s.subrange(16, 16 + l);
            let rest = s.subrange(16 + l, s.len() as int);
            lemma_parse_entries_shape(rest, (n - 1) as nat);
            match parse_entries(rest, (n - 1) as nat) {
                Some(tail) => {
                    let k = u64_from_le(s.subrange(0, 8));
                    let es = seq![(k, blob)] + tail;
                    assert(es.len() == n);
                    assert forall|i: int| 0 <= i < es.len() implies (#[trigger] es[i]).1.len()
                        <= u64::MAX by {
                        if i == 0 {
                            assert(es[0].1 == blob);
                        } else {
                            assert(es[i] == tail[i - 1]);
                        }
                    }
                },
                None => {},
            }
        }
    }
}

/// The record shape bound, at the record level.
pub proof fn lemma_parse_record_shape(s: Seq<u8>)
    ensures
        parse_record(s) matches Some(es) ==> es.len() <= u64::MAX && blobs_fit(es),
{
    if s.len() < 8 {
    } else {
        lemma_parse_entries_shape(s.subrange(8, s.len() as int), u64_from_le(s.subrange(0, 8)) as nat);
    }
}

/// The view of a run of in-memory entries.
pub open spec fn entries_view(es: Seq<(u64, Vec<u8>)>) -> Seq<(u64, Seq<u8>)> {
    es.map_values(|e: (u64, Vec<u8>)| (e.0, e.1@))
}

proof fn lemma_entries_bytes_snoc(es: Seq<(u64, Seq<u8>)>, e: (u64, Seq<u8>))
    ensures
        entries_bytes(es.push(e)) == entries_bytes(es) + entry_bytes(e.0, e.1),
    decreases es.len(),
{
    if es.len() == 0 {
        assert(es.push(e).skip(1) =~= Seq::<(u64, Seq<u8>)>::empty());
        assert(es.push(e)[0] == e);
        assert(entries_bytes(Seq::<(u64, Seq<u8>)>::empty()) == Seq::<u8>::empty());
        assert(entries_bytes(es.push(e)) =~= entries_bytes(es) + entry_bytes(e.0, e.1));
    } else {
        assert(es.push(e).skip(1) =~= es.skip(1).push(e));
        assert(es.push(e)[0] == es[0]);
        lemma_entries_bytes_snoc(es.skip(1), e);
        assert(entries_bytes(es.push(e)) =~= entries_bytes(es) + entry_bytes(e.0, e.1));
    }
}

/// Encodes the entries as a record, in their stored order.
pub fn encode_record(entries: &Vec<(u64, Vec<u8>)>) -> (r: Vec<u8>)
    ensures
        r@ == record_bytes(entries_view(entries@)),
{
    let ghost ev = entries_view(entries@);
    let mut out: Vec<u8> = Vec::new();
    encode_u64_le(entries.len() as u64, &mut out);
    assert(out@ =~= u64_le_bytes(ev.len() as u64) + entries_bytes(ev.take(0)));
    let mut i: usize = 0;
    while i < entries.len()
        invariant
            i <= entries.len(),
            ev == entries_view(entries@),
            ev.len() == entries@.len(),
            out@ == u64_le_bytes(ev.len() as u64) + entries_bytes(ev.take(i as int)),
        decreases entries.len() - i,
    {
        let k: u64 = entries[i].0;
        let ghost prefix = ev.take(i as int);
        encode_u64_le(k, &mut out);
        encode_u64_le(entries[i].1.len() as u64, &mut out);
        let blob_len = entries[i].1.len();
        let mut j: usize = 0;
        while j < blob_len
            invariant
                j <= blob_len,
                i < entries@.len(),
                blob_len == entries@[i as int].1@.len(),
                out@ == u64_le_bytes(ev.len() as u64) + entries_bytes(prefix) + u64_le_bytes(k)
                    + u64_le_bytes(blob_len as u64) + entries@[i as int].1@.take(j as int),
            decreases blob_len - j,
        {
            let b = entries[i].1[j];
            out.push(b);
            assert(entries@[i as int].1@.take(j + 1) =~= entries@[i as int].1@.take(j as int).push(
                b,
            ));
            assert(out@ =~= u64_le_bytes(ev.len() as u64) + entries_bytes(prefix) + u64_le_bytes(k)
                + u64_le_bytes(blob_len as u64) + entries@[i as int].1@.take(j + 1));
            j = j + 1;
        }
        proof {
            assert(entries@[i as int].1@.take(blob_len as int) =~= entries@[i as int].1@);
            assert(ev[i as int] == (k, entries@[i as int].1@));
            lemma_entries_bytes_snoc(prefix, ev[i as int]);
            assert(prefix.push(ev[i as int]) =~= ev.take(i + 1));
            assert(out@ =~= u64_le_bytes(ev.len() as u64) + entries_bytes(ev.take(i + 1)));
        }
        i = i + 1;
    }
    proof {
        assert(ev.take(ev.len() as int) =~= ev);
    }
    out
}

/// Decodes a record; the result mirrors the mathematical parse exactly.
pub fn decode_record(bytes: &Vec<u8>) -> (r: Option<Vec<(u64, Vec<u8>)>>)
    ensures
        match r {
            Some(m) => parse_record(bytes@) == Some(entries_view(m@)),
            None => parse_record(bytes@) is None,
        },
{
    if bytes.len() < 8 {
        return None;
    }
    let n = decode_u64_le(bytes, 0);
    let mut acc: Vec<(u64, Vec<u8>)> = Vec::new();
    let mut cur: usize = 8;
    let mut i: u64 = 0;
    proof {
        assert(bytes@.subrange(8, bytes@.len() as int) =~= bytes@.subrange(
            cur as int,
            bytes@.len() as int,
        ));
    }
    while i < n
        invariant
            8 <= cur <= bytes@.len(),
            i <= n,
            bytes@.len() >= 8,
            n == u64_from_le(bytes@.subrange(0, 8)),
            parse_record(bytes@) == match parse_entries(
                bytes@.subrange(cur as int, bytes@.len() as int),
                (n - i) as nat,
            ) {
                Some(tail) => Some(entries_view(acc@) + tail),
                None => None::<Seq<(u64, Seq<u8>)>>,
            },
        decreases n - i,
    {
        let ghost s = bytes@.subrange(cur as int, bytes@.len() as int);
        let remaining = bytes.len() - cur;
        if remaining < 16 {
            return None;
        }
        let k = decode_u64_le(bytes, cur);
        let l = decode_u64_le(bytes, cur + 8);
        proof {
            assert(s.subrange(0, 8) =~= bytes@.subrange(cur as int, cur as int + 8));
            assert(s.subrange(8, 16) =~= bytes@.subrange(cur as int + 8, cur as int + 16));
        }
        if l > (remaining - 16) as u64 {
            proof {
                assert(s.len() < 16 + l);
            }
            return None;
        }
        let blob_len = l as usize;
        let blen = bytes.len();
        let mut blob: Vec<u8> = Vec::new();
        let mut j: usize = 0;
        while j < blob_len
            invariant
                j <= blob_len,
                blen == bytes@.len(),
                cur + 16 + blob_len <= blen,
                blob@ == bytes@.subrange(cur as int + 16, cur as int + 16 + j as int),
            decreases blob_len - j,
        {
            blob.push(bytes[cur + 16 + j]);
            assert(blob@ =~= bytes@.subrange(cur as int + 16, cur as int + 16 + j + 1));
            j = j + 1;
        }
        proof {
            assert(s.subrange(16, 16 + l as int) =~= bytes@.subrange(
                cur as int + 16,
                cur as int + 16 + l as int,
            ));
            assert(s.subrange(16 + l as int, s.len() as int) =~= bytes@.subrange(
                cur as int + 16 + l as int,
                bytes@.len() as int,
            ));
        }
        let ghost old_acc = acc@;
        acc.push((k, blob));
        cur = cur + 16 + blob_len;
        i = i + 1;
        proof {
            let e = (k, s.subrange(16, 16 + l as int));
            assert(entries_view(acc@) =~= entries_view(old_acc) + seq![e]);
            let s2 = bytes@.subrange(cur as int, bytes@.len() as int);
            match parse_entries(s2, (n - i) as nat) {
                Some(t) => {
                    assert((entries_view(old_acc) + seq![e]) + t =~= entries_view(old_acc) + (seq![
                        e,
                    ] + t));
                },
                None => {},
            }
        }
    }
    if cur != bytes.len() {
        proof {
            assert(bytes@.subrange(cur as int, bytes@.len() as int).len() != 0);
        }
        return None;
    }
    proof {
        assert(bytes@.subrange(cur as int, bytes@.len() as int).len() == 0);
        assert(parse_entries(bytes@.subrange(cur as int, bytes@.len() as int), 0) == Some(
            Seq::<(u64, Seq<u8>)>::empty(),
        ));
        assert(entries_view(acc@) + Seq::<(u64, Seq<u8>)>::empty() =~= entries_view(acc@));
    }
    Some(acc)
}

} // verus!
