//! The opaque whole-value codec: progress values are framed by an outside
//! container format that handles its own layout. The bytes it produces are
//! named, not spelled out; everything the store proves goes through these
//! names.

use vstd::prelude::*;

verus! {

/// The bytes that bincode's default configuration produces for a
/// `(u64, i64, i64)` triple; a fixed function of the three values alone.
pub uninterp spec fn step_record_bytes(step: u64, x: i64, y: i64) -> Seq<u8>;

/// The bytes that bincode's default configuration produces for a
/// `(u64, Vec<u64>)` pair; a fixed function of the step index and the items.
pub uninterp spec fn nested_record_bytes(step: u64, items: Seq<u64>) -> Seq<u8>;

/// Relies on bincode::serialize: with the default options (fixed-width
/// integers, little-endian, no size limit) it cannot fail on a
/// `(u64, i64, i64)` triple, and its output depends on the values alone.
#[verifier::external_body]
pub(crate) fn encode_step_record(step: u64, x: i64, y: i64) -> (r: Vec<u8>)
    ensures
        r@ == step_record_bytes(step, x, y),
{
    bincode::serialize(&(step, x, y)).unwrap()
}

/// Relies on bincode::deserialize: it inverts bincode::serialize, so bytes
/// that bincode produced for a `(u64, i64, i64)` triple decode to exactly
/// that triple; on unreadable bytes it reports an error, mapped to `None`.
#[verifier::external_body]
pub(crate) fn decode_step_record(bytes: &Vec<u8>) -> (r: Option<(u64, i64, i64)>)
    ensures
        forall|s: u64, x: i64, y: i64|
            bytes@ == #[trigger] step_record_bytes(s, x, y) ==> r == Some((s, x, y)),
{
    bincode::deserialize::<(u64, i64, i64)>(bytes).ok()
}

/// Relies on bincode::serialize: with the default options it cannot fail on
/// a `(u64, Vec<u64>)` pair, and its output depends on the values alone.
#[verifier::external_body]
pub(crate) fn encode_nested_record(step: u64, items: &Vec<u64>) -> (r: Vec<u8>)
    ensures
        r@ == nested_record_bytes(step, items@),
{
    bincode::serialize(&(step, items)).unwrap()
}

/// Relies on bincode::deserialize: it inverts bincode::serialize, so bytes
/// that bincode produced for a `(u64, Vec<u64>)` pair decode to exactly that
/// pair; on unreadable bytes it reports an error, mapped to `None`.
#[verifier::external_body]
pub(crate) fn decode_nested_record(bytes: &Vec<u8>) -> (r: Option<(u64, Vec<u64>)>)
    ensures
        forall|s: u64, items: Seq<u64>|
            bytes@ == #[trigger] nested_record_bytes(s, items) ==> (r is Some && (r->0).0 == s
                && ((r->0).1)@ == items),
{
    bincode::deserialize::<(u64, Vec<u64>)>(bytes).ok()
}

} // verus!
