//! The interface between a progress value and its durable record.

use vstd::prelude::*;

verus! {

/// A progress value that can be written out as a storage record and read
/// back. Contracts speak of the value's view (its model): `spec_encode`
/// fixes the record bytes of each model, and `decode` is obliged to invert
/// `encode` on every well-formed model.
pub trait Record: View + Sized {
    /// Which models a value of the type may take.
    spec fn wf_model(m: Self::V) -> bool;

    /// The record bytes of a model.
    spec fn spec_encode(m: Self::V) -> Seq<u8>;

    /// The record of this value.
    fn encode(&self) -> (r: Vec<u8>)
        requires
            Self::wf_model(self@),
        ensures
            r@ == Self::spec_encode(self@),
    ;

    /// Reads a value back from a record. Decoding the encoding of any
    /// well-formed model yields a value with exactly that model; anything
    /// decoded is well-formed.
    fn decode(bytes: &Vec<u8>) -> (r: Option<Self>)
        ensures
            r matches Some(p) ==> Self::wf_model(p@),
            forall|m: Self::V|
                Self::wf_model(m) && bytes@ == #[trigger] Self::spec_encode(m) ==> (r matches Some(
                    p,
                ) && p@ == m),
    ;
}

} // verus!
