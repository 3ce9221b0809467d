//! The keyed resource store: a checkpoint store whose progress value is a
//! mapping from small integer keys to opaque byte blobs, so that several
//! typed slots can be taken and put back one by one over a single storage
//! record. The record uses the explicit record codec, and the protocol run
//! for this variant keeps its two counters in slots 1 and 2.

use vstd::prelude::*;
use vstd::pervasive::VecAdditionalExecFns;
use crate::codec::decode_record;
use crate::codec::encode_record;
use crate::codec::entries_view;
use crate::codec::lemma_record_round_trip;
use crate::codec::record_bytes;
use crate::codec::u64_le_bytes;
use crate::codec::blobs_fit;
use crate::codec::decode_u64_blob;
use crate::codec::encode_u64_blob;
use crate::record::Record;
use crate::state::State;
use crate::storage::Storage;
use crate::RunOutcome;
use crate::StoreError;

verus! {

/// Each key stands at most once.
pub open spec fn unique_keys(es: Seq<(u64, Seq<u8>)>) -> bool {
    forall|i: int, j: int| 0 <= i < j < es.len() ==> (#[trigger] es[i]).0 != (#[trigger] es[j]).0
}

/// Whether some entry holds key `k`.
pub open spec fn seq_contains_key(es: Seq<(u64, Seq<u8>)>, k: u64) -> bool {
    exists|i: int| 0 <= i < es.len() && (#[trigger] es[i]).0 == k
}

/// The position of key `k`, when one stands.
pub open spec fn seq_key_index(es: Seq<(u64, Seq<u8>)>, k: u64) -> int {
    choose|i: int| 0 <= i < es.len() && (#[trigger] es[i]).0 == k
}

/// What `take` yields and leaves: the blob at `k` and the entries without
/// that slot, or nothing and the entries unchanged.
pub open spec fn spec_take(es: Seq<(u64, Seq<u8>)>, k: u64) -> (Option<Seq<u8>>, Seq<
    (u64, Seq<u8>),
>) {
    if seq_contains_key(es, k) {
        let i = seq_key_index(es, k);
        (Some(es[i].1), es.remove(i))
    } else {
        (None, es)
    }
}

/// What `put` leaves: the blob at `k` replaced in place, or a new slot
/// appended.
pub open spec fn spec_put(es: Seq<(u64, Seq<u8>)>, k: u64, b: Seq<u8>) -> Seq<(u64, Seq<u8>)> {
    if seq_contains_key(es, k) {
        es.update(seq_key_index(es, k), (k, b))
    } else {
        es.push((k, b))
    }
}

/// Whether two slots share a key.
fn has_duplicate_key(entries: &Vec<(u64, Vec<u8>)>) -> (r: bool)
    ensures
        r == !unique_keys(entries_view(entries@)),
{
    let ghost ev = entries_view(entries@);
    let n = entries.len();
    let mut i: usize = 0;
    while i < n
        invariant
            n == ev.len(),
            ev == entries_view(entries@),
            i <= n,
            forall|p: int, q: int|
                0 <= p < q < ev.len() && p < i ==> (#[trigger] ev[p]).0 != (#[trigger] ev[q]).0,
        decreases n - i,
    {
        let mut j: usize = i + 1;
        while j < n
            invariant
                n == ev.len(),
                ev == entries_view(entries@),
                i < j <= n,
                i < n,
                forall|p: int, q: int|
                    0 <= p < q < ev.len() && p < i ==> (#[trigger] ev[p]).0 != (
                    #[trigger] ev[q]).0,
                forall|q: int| i < q < j ==> (#[trigger] ev[q]).0 != ev[i as int].0,
            decreases n - j,
        {
            if entries[i].0 == entries[j].0 {
                proof {
                    assert(ev[i as int].0 == ev[j as int].0);
                }
                return true;
            }
            j = j + 1;
        }
        i = i + 1;
    }
    proof {
        assert(unique_keys(ev));
    }
    false
}

/// A mapping from small integer keys to opaque byte blobs, in insertion
/// order, each key at most once.
pub struct ResourceMap {
    entries: Vec<(u64, Vec<u8>)>,
}

impl View for ResourceMap {
    type V = Seq<(u64, Seq<u8>)>;

    closed spec fn view(&self) -> Seq<(u64, Seq<u8>)> {
        entries_view(self.entries@)
    }
}

impl ResourceMap {
    /// Well-formed: unique keys, and counts that fit the record format's
    /// 8-byte fields.
    pub open spec fn wf(&self) -> bool {
        <ResourceMap as Record>::wf_model(self@)
    }

    /// The empty mapping.
    pub fn new() -> (r: ResourceMap)
        ensures
            r.wf(),
            r@ == Seq::<(u64, Seq<u8>)>::empty(),
    {
        let r = ResourceMap { entries: Vec::new() };
        proof {
            assert(r@ =~= Seq::<(u64, Seq<u8>)>::empty());
        }
        r
    }

    /// How many slots stand.
    pub fn len(&self) -> (r: usize)
        ensures
            r == self@.len(),
    {
        self.entries.len()
    }

    fn find(&self, k: u64) -> (r: Option<usize>)
        ensures
            match r {
                Some(i) => i < self@.len() && self@[i as int].0 == k && seq_contains_key(self@, k)
                    && (self.wf() ==> seq_key_index(self@, k) == i),
                None => !seq_contains_key(self@, k),
            },
    {
        let mut i: usize = 0;
        while i < self.entries.len()
            invariant
                i <= self@.len(),
                self@.len() == self.entries@.len(),
                forall|j: int| 0 <= j < i ==> (#[trigger] self@[j]).0 != k,
            decreases self@.len() - i,
        {
            if self.entries[i].0 == k {
                proof {
                    assert(self@[i as int].0 == k);
                    if self.wf() {
                        let j = seq_key_index(self@, k);
                        assert(0 <= j < self@.len() && self@[j].0 == k);
                        assert(j == i);
                    }
                }
                return Some(i);
            }
            i = i + 1;
        }
        proof {
            assert forall|j: int| 0 <= j < self@.len() implies (#[trigger] self@[j]).0 != k by {}
        }
        None
    }

    /// Removes and returns the blob at `k`, consuming the slot; nothing if
    /// the slot is absent.
    pub fn take(&mut self, k: u64) -> (r: Option<Vec<u8>>)
        requires
            old(self).wf(),
        ensures
            final(self).wf(),
            r is Some <==> seq_contains_key(old(self)@, k),
            r is Some ==> Some((r->0)@) == spec_take(old(self)@, k).0,
            final(self)@ == spec_take(old(self)@, k).1,
    {
        let found = self.find(k);
        match found {
            Some(i) => {
                let e = self.entries.remove(i);
                proof {
                    assert(self@ =~= old(self)@.remove(i as int));
                    assert forall|p: int, q: int| 0 <= p < q < self@.len() implies (
                    #[trigger] self@[p]).0 != (#[trigger] self@[q]).0 by {
                        let es = old(self)@;
                        let pp = if p < i { p } else { p + 1 };
                        let qq = if q < i { q } else { q + 1 };
                        assert(self@[p] == es[pp] && self@[q] == es[qq]);
                    }
                    assert forall|p: int| 0 <= p < self@.len() implies (#[trigger] self@[p]).1.len()
                        <= u64::MAX by {
                        let es = old(self)@;
                        let pp = if p < i { p } else { p + 1 };
                        assert(self@[p] == es[pp]);
                    }
                    assert(e.1@ == old(self)@[i as int].1);
                }
                Some(e.1)
            },
            None => None,
        }
    }

    /// Inserts or replaces the blob at `k`.
    pub fn put(&mut self, k: u64, b: Vec<u8>)
        requires
            old(self).wf(),
            b@.len() <= u64::MAX,
        ensures
            final(self).wf(),
            final(self)@ == spec_put(old(self)@, k, b@),
    {
        let found = self.find(k);
        match found {
            Some(i) => {
                self.entries.set(i, (k, b));
                proof {
                    assert(self@ =~= old(self)@.update(i as int, (k, b@)));
                    assert forall|p: int, q: int| 0 <= p < q < self@.len() implies (
                    #[trigger] self@[p]).0 != (#[trigger] self@[q]).0 by {
                        assert(old(self)@[p].0 == self@[p].0 && old(self)@[q].0 == self@[q].0);
                    }
                    assert forall|p: int| 0 <= p < self@.len() implies (#[trigger] self@[p]).1.len()
                        <= u64::MAX by {
                        if p != i {
                            assert(self@[p] == old(self)@[p]);
                        }
                    }
                }
            },
            None => {
                self.entries.push((k, b));
                let n2 = self.entries.len();
                proof {
                    assert(self@ =~= old(self)@.push((k, b@)));
                    assert(self@.len() == n2);
                    assert forall|p: int, q: int| 0 <= p < q < self@.len() implies (
                    #[trigger] self@[p]).0 != (#[trigger] self@[q]).0 by {
                        if q == self@.len() - 1 {
                            assert(self@[p] == old(self)@[p]);
                            assert(!seq_contains_key(old(self)@, k));
                        } else {
                            assert(self@[p] == old(self)@[p] && self@[q] == old(self)@[q]);
                        }
                    }
                    assert forall|p: int| 0 <= p < self@.len() implies (#[trigger] self@[p]).1.len()
                        <= u64::MAX by {
                        if p < self@.len() - 1 {
                            assert(self@[p] == old(self)@[p]);
                        }
                    }
                }
            },
        }
    }
}

impl Record for ResourceMap {
    open spec fn wf_model(m: Seq<(u64, Seq<u8>)>) -> bool {
        unique_keys(m) && m.len() <= u64::MAX && blobs_fit(m)
    }

    open spec fn spec_encode(m: Seq<(u64, Seq<u8>)>) -> Seq<u8> {
        record_bytes(m)
    }

    fn encode(&self) -> (r: Vec<u8>) {
        encode_record(&self.entries)
    }

    fn decode(bytes: &Vec<u8>) -> (r: Option<Self>) {
        let parsed = decode_record(bytes);
        match parsed {
            None => {
                proof {
                    assert forall|m: Seq<(u64, Seq<u8>)>|
                        Self::wf_model(m) && bytes@ == #[trigger] Self::spec_encode(m) implies false by {
                        lemma_record_round_trip(m);
                    }
                }
                None
            },
            Some(entries) => {
                // reject duplicate keys: such a record never comes from `encode`
                if has_duplicate_key(&entries) {
                    let m = ResourceMap { entries };
                    proof {
                        assert forall|q: Seq<(u64, Seq<u8>)>|
                            Self::wf_model(q) && bytes@ == #[trigger] Self::spec_encode(q)
                            implies false by {
                            lemma_record_round_trip(q);
                            assert(m@ == q);
                        }
                    }
                    return None;
                }
                let m = ResourceMap { entries };
                proof {
                    assert(unique_keys(m@));
                    crate::codec::lemma_parse_record_shape(bytes@);
                    assert(m@.len() <= u64::MAX);
                    assert(blobs_fit(m@));
                    assert forall|q: Seq<(u64, Seq<u8>)>|
                        Self::wf_model(q) && bytes@ == #[trigger] Self::spec_encode(q) implies m@
                        == q by {
                        lemma_record_round_trip(q);
                    }
                }
                Some(m)
            },
        }
    }
}

/// Keyed store isolation: after a put of blob `b` at key `k`, one take of
/// `k` yields exactly `b` and consumes the slot, and a second take without
/// an intervening put yields nothing.
pub proof fn lemma_take_after_put(es: Seq<(u64, Seq<u8>)>, k: u64, b: Seq<u8>)
    requires
        unique_keys(es),
    ensures
        spec_take(spec_put(es, k, b), k).0 == Some(b),
        !seq_contains_key(spec_take(spec_put(es, k, b), k).1, k),
        spec_take(spec_take(spec_put(es, k, b), k).1, k).0 == None::<Seq<u8>>,
{
    let es2 = spec_put(es, k, b);
    if seq_contains_key(es, k) {
        let i = seq_key_index(es, k);
        assert(0 <= i < es.len() && es[i].0 == k);
        assert(es2 == es.update(i, (k, b)));
        assert(es2[i].0 == k);
        assert(seq_contains_key(es2, k));
        let j = seq_key_index(es2, k);
        assert(0 <= j < es2.len() && es2[j].0 == k);
        if j != i {
            assert(es[j].0 == es2[j].0);
            assert(es[i].0 == es[j].0);
            assert(false);
        }
        assert(spec_take(es2, k).0 == Some(b));
        let rest = es2.remove(i);
        assert forall|p: int| 0 <= p < rest.len() implies (#[trigger] rest[p]).0 != k by {
            let pp = if p < i {
                p
            } else {
                p + 1
            };
            assert(rest[p] == es2[pp]);
            assert(es2[pp].0 == es[pp].0);
        }
        assert(!seq_contains_key(rest, k));
    } else {
        assert(es2 == es.push((k, b)));
        let n = es.len() as int;
        assert(es2[n].0 == k);
        assert(seq_contains_key(es2, k));
        let j = seq_key_index(es2, k);
        assert(0 <= j < es2.len() && es2[j].0 == k);
        if j != n {
            assert(es[j].0 == es2[j].0);
            assert(seq_contains_key(es, k));
            assert(false);
        }
        assert(spec_take(es2, k).0 == Some(b));
        let rest = es2.remove(n);
        assert(rest =~= es);
        assert(!seq_contains_key(rest, k));
    }
}

/// The keyed-resource record of the protocol: the two counters in slots 1
/// and 2, each an 8-byte blob.
pub open spec fn resource_entries(x: u64, y: u64) -> Seq<(u64, Seq<u8>)> {
    seq![(1u64, u64_le_bytes(x)), (2u64, u64_le_bytes(y))]
}

proof fn lemma_put_slots(es: Seq<(u64, Seq<u8>)>, x_old: u64, y_old: u64, bx: Seq<u8>, by: Seq<u8>)
    requires
        es == resource_entries(x_old, y_old),
    ensures
        spec_put(spec_put(es, 1, bx), 2, by) =~= seq![(1u64, bx), (2u64, by)],
{
    assert(es[0].0 == 1 && es[1].0 == 2 && es.len() == 2);
    assert(seq_contains_key(es, 1));
    let i1 = seq_key_index(es, 1);
    assert(0 <= i1 < 2 && es[i1].0 == 1);
    assert(i1 == 0);
    let es2 = spec_put(es, 1, bx);
    assert(es2 == es.update(0, (1u64, bx)));
    assert(es2.len() == 2 && es2[0].0 == 1 && es2[1].0 == 2);
    assert(seq_contains_key(es2, 2));
    let i2 = seq_key_index(es2, 2);
    assert(0 <= i2 < 2 && es2[i2].0 == 2);
    assert(i2 == 1);
}

proof fn lemma_put_slots_empty(es: Seq<(u64, Seq<u8>)>, bx: Seq<u8>, by: Seq<u8>)
    requires
        es.len() == 0,
    ensures
        spec_put(spec_put(es, 1, bx), 2, by) =~= seq![(1u64, bx), (2u64, by)],
{
    assert(!seq_contains_key(es, 1));
    let es2 = spec_put(es, 1, bx);
    assert(es2 == es.push((1u64, bx)));
    assert(es2.len() == 1 && es2[0].0 == 1);
    assert forall|i: int| 0 <= i < es2.len() implies (#[trigger] es2[i]).0 != 2 by {}
    assert(!seq_contains_key(es2, 2));
    assert(spec_put(es2, 2, by) == es2.push((2u64, by)));
}

/// The counter pairs the keyed-resource protocol can put in a record.
pub open spec fn resource_reachable(x: u64, y: u64) -> bool {
    1 <= x <= 100 && y == 2 * x - 1
}

/// What a keyed-resource run leaves behind, given the starting counter `x0`
/// (its partner is `2 * x0 - 1`), the tick budget `b`, and the storage `s0`
/// as it stood once the load had consumed any record.
pub open spec fn resource_run_post(
    x0: u64,
    b: u64,
    id: usize,
    s0: Map<usize, Seq<u8>>,
    s1: Map<usize, Seq<u8>>,
    t1: u64,
    r: Result<RunOutcome, StoreError>,
) -> bool {
    let need = 100 - x0;
    if b >= need {
        r == Ok::<RunOutcome, StoreError>(RunOutcome::Completed) && s1 == s0 && t1 == b - need
    } else {
        r == Ok::<RunOutcome, StoreError>(RunOutcome::Interrupted) && t1 == 0 && s1 == s0.insert(
            id,
            <ResourceMap as Record>::spec_encode(
                resource_entries((x0 + b + 1) as u64, (2 * (x0 + b + 1) - 1) as u64),
            ),
        )
    }
}

/// Runs the keyed-resource unit of work bound to `id`: a fresh start (no
/// record) begins the counters at `(1, 1)`; a resumable start takes the two
/// slots back out of the loaded record. Each tick adds 1 and 2 to the two
/// counters and puts them back in their slots, so every suspension point
/// sees the slots current; the run completes when both counters pass the
/// stage predicate.
#[verifier::loop_isolation(false)]
pub fn run_resource(id: usize, storage: &mut Storage, ticks: &mut u64) -> (r: Result<
    RunOutcome,
    StoreError,
>)
    ensures
        r == Err::<RunOutcome, StoreError>(StoreError::CodecFailure) ==> final(storage)@ == old(
            storage,
        )@ && *final(ticks) == *old(ticks),
        !old(storage)@.contains_key(id) ==> resource_run_post(
            1u64,
            *old(ticks),
            id,
            old(storage)@,
            final(storage)@,
            *final(ticks),
            r,
        ),
        forall|x0: u64, y0: u64|
            old(storage)@.contains_key(id) && resource_reachable(x0, y0) && old(storage)@[id]
                == <ResourceMap as Record>::spec_encode(#[trigger] resource_entries(x0, y0))
                ==> resource_run_post(
                x0,
                *old(ticks),
                id,
                old(storage)@.remove(id),
                final(storage)@,
                *final(ticks),
                r,
            ),
{
    let mut st = State::new(id, ResourceMap::new());
    let resumable = st.is_resumable(storage);
    let load = st.deserialize_data(storage);
    match load {
        Err(e) => {
            return Err(e);
        },
        Ok(()) => {},
    }
    let mut m = st.data;
    let mut x: u64 = 1;
    let mut y: u64 = 1;
    if resumable {
        let ghost loaded = m@;
        let bx = m.take(1);
        let by = m.take(2);
        let rest = m.len();
        proof {
            assert forall|x0: u64, y0: u64|
                resource_reachable(x0, y0) && loaded == resource_entries(x0, y0) implies (bx
                is Some && (bx->0)@ == u64_le_bytes(x0) && u64_le_bytes(x0).len() == 8 && by
                is Some && (by->0)@ == u64_le_bytes(y0) && u64_le_bytes(y0).len() == 8 && rest
                == 0) by {
                assert(loaded.len() == 2 && loaded[0].0 == 1 && loaded[1].0 == 2);
                assert(seq_contains_key(loaded, 1));
                let i1 = seq_key_index(loaded, 1);
                assert(0 <= i1 < 2 && loaded[i1].0 == 1);
                assert(i1 == 0);
                let mid = spec_take(loaded, 1).1;
                assert(mid == loaded.remove(0));
                loaded.remove_ensures(0);
                assert(mid.len() == 1);
                assert(mid[0] == loaded[1]);
                assert(mid =~= seq![(2u64, u64_le_bytes(y0))]);
                assert(seq_contains_key(mid, 2));
                let i2 = seq_key_index(mid, 2);
                assert(0 <= i2 < 1 && mid[i2].0 == 2);
                assert(spec_take(mid, 2).1.len() == 0);
                crate::codec::lemma_u64_le_round_trip(x0);
                crate::codec::lemma_u64_le_round_trip(y0);
            }
        }
        let mut valid = rest == 0;
        match bx {
            Some(bb) => {
                match decode_u64_blob(&bb) {
                    Some(v) => {
                        x = v;
                    },
                    None => {
                        valid = false;
                    },
                }
            },
            None => {
                valid = false;
            },
        }
        match by {
            Some(bb) => {
                match decode_u64_blob(&bb) {
                    Some(v) => {
                        y = v;
                    },
                    None => {
                        valid = false;
                    },
                }
            },
            None => {
                valid = false;
            },
        }
        if valid {
            valid = x >= 1 && x <= 100 && y == 2 * x - 1;
        }
        if !valid {
            // corrupted or version-skewed record: fatal; this exit path
            // still persists
            proof {
                assert forall|x0: u64, y0: u64|
                    resource_reachable(x0, y0) && loaded == resource_entries(x0, y0)
                    implies false by {
                    crate::codec::lemma_u64_le_round_trip(x0);
                    crate::codec::lemma_u64_le_round_trip(y0);
                }
            }
            let st2 = State::new(id, m);
            st2.serialize_data(storage);
            return Err(StoreError::ProtocolViolation);
        }
        proof {
            assert forall|x0: u64, y0: u64|
                resource_reachable(x0, y0) && loaded == resource_entries(x0, y0) implies x0 == x
                && y0 == y by {
                crate::codec::lemma_u64_le_round_trip(x0);
                crate::codec::lemma_u64_le_round_trip(y0);
            }
        }
    }
    let ghost m_start = m@;
    let bx2 = encode_u64_blob(x);
    m.put(1, bx2);
    let by2 = encode_u64_blob(y);
    m.put(2, by2);
    proof {
        lemma_put_slots_empty(m_start, u64_le_bytes(x), u64_le_bytes(y));
        assert(m@ =~= resource_entries(x, y));
    }
    let ghost x1 = x;
    let ghost t_e = *ticks;
    let ghost s_e = storage@;
    loop
        invariant
            storage@ == s_e,
            *ticks <= t_e,
            1 <= x1 <= 100,
            1 <= x <= 100,
            y == 2 * x - 1,
            x == x1 + (t_e - *ticks),
            m.wf(),
            m@ == resource_entries(x, y),
        decreases 100 - x,
    {
        let ghost x_old = x;
        let ghost y_old = y;
        let ghost m_old = m@;
        x = x + 1;
        y = y + 2;
        let bx3 = encode_u64_blob(x);
        m.put(1, bx3);
        let by3 = encode_u64_blob(y);
        m.put(2, by3);
        proof {
            lemma_put_slots(m_old, x_old, y_old, u64_le_bytes(x), u64_le_bytes(y));
            assert(m@ =~= resource_entries(x, y));
        }
        if x > 100 && y > 200 {
            let mut st2 = State::new(id, m);
            st2.mark_completed();
            st2.serialize_data(storage);
            proof {
                assert(t_e - *ticks == 100 - x1);
            }
            return Ok(RunOutcome::Completed);
        }
        if *ticks == 0 {
            let st2 = State::new(id, m);
            st2.serialize_data(storage);
            proof {
                assert(t_e < 100 - x1);
                assert(x == x1 + t_e + 1 && y == 2 * (x1 + t_e + 1) - 1);
            }
            return Ok(RunOutcome::Interrupted);
        }
        *ticks = *ticks - 1;
    }
}

} // verus!
