//! The two progress-value shapes of the step protocol, with their opaque
//! whole-value records.

use vstd::prelude::*;
use crate::opaque::decode_nested_record;
use crate::opaque::decode_step_record;
use crate::opaque::encode_nested_record;
use crate::opaque::encode_step_record;
use crate::opaque::nested_record_bytes;
use crate::opaque::step_record_bytes;
use crate::record::Record;

verus! {

/// The progress of the main unit of work: the resuming step index and the
/// two counters it advances.
#[derive(Clone, Copy, PartialEq, Eq, Structural, Debug)]
pub struct StepProgress {
    pub step: u64,
    pub x: i64,
    pub y: i64,
}

impl View for StepProgress {
    type V = StepProgress;

    open spec fn view(&self) -> StepProgress {
        *self
    }
}

impl Record for StepProgress {
    open spec fn wf_model(m: StepProgress) -> bool {
        true
    }

    open spec fn spec_encode(m: StepProgress) -> Seq<u8> {
        step_record_bytes(m.step, m.x, m.y)
    }

    fn encode(&self) -> (r: Vec<u8>) {
        encode_step_record(self.step, self.x, self.y)
    }

    fn decode(bytes: &Vec<u8>) -> (r: Option<Self>) {
        let inner = decode_step_record(bytes);
        let r = match inner {
            Some((s, x, y)) => Some(StepProgress { step: s, x, y }),
            None => None,
        };
        proof {
            assert forall|m: StepProgress|
                Self::wf_model(m) && bytes@ == #[trigger] Self::spec_encode(m) implies (r matches
            Some(p) && p@ == m) by {
                assert(bytes@ == step_record_bytes(m.step, m.x, m.y));
                assert(inner == Some((m.step, m.x, m.y)));
            }
        }
        r
    }
}

/// The progress of the nested unit of work: the resuming step index and the
/// items gathered so far.
#[derive(PartialEq, Eq, Debug)]
pub struct NestedProgress {
    pub step: u64,
    pub a: Vec<u64>,
}

impl View for NestedProgress {
    type V = (u64, Seq<u64>);

    open spec fn view(&self) -> (u64, Seq<u64>) {
        (self.step, self.a@)
    }
}

impl Record for NestedProgress {
    open spec fn wf_model(m: (u64, Seq<u64>)) -> bool {
        true
    }

    open spec fn spec_encode(m: (u64, Seq<u64>)) -> Seq<u8> {
        nested_record_bytes(m.0, m.1)
    }

    fn encode(&self) -> (r: Vec<u8>) {
        encode_nested_record(self.step, &self.a)
    }

    fn decode(bytes: &Vec<u8>) -> (r: Option<Self>) {
        let inner = decode_nested_record(bytes);
        let r = match inner {
            Some((s, items)) => Some(NestedProgress { step: s, a: items }),
            None => None,
        };
        proof {
            assert forall|m: (u64, Seq<u64>)|
                Self::wf_model(m) && bytes@ == #[trigger] Self::spec_encode(m) implies (r matches
            Some(p) && p@ == m) by {
                assert(bytes@ == nested_record_bytes(m.0, m.1));
            }
        }
        r
    }
}

} // verus!
