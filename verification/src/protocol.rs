//! The step-indexed resumption protocol: each unit of work keeps a resuming
//! step index in its progress value, and a dispatch loop routes control to
//! the stage that index names. The runners here execute whole runs against a
//! storage; cancellation is modeled as a budget of suspension points the run
//! may pass, since cancellation only ever takes effect at a suspension
//! point.

use vstd::prelude::*;
use crate::progress::NestedProgress;
use crate::progress::StepProgress;
use crate::record::Record;
use crate::state::State;
use crate::storage::Storage;
use crate::RunOutcome;
use crate::StoreError;

verus! {

/// What the dispatch loop must do between one step and the next dispatch.
#[derive(Clone, Copy, PartialEq, Eq, Structural, Debug)]
pub enum StepAction {
    /// Run the nested sub-unit of work to its end, then adopt the new
    /// progress and re-dispatch.
    RunNested,
    /// Adopt the new progress and re-dispatch at once: step transitions are
    /// not suspension points.
    Redispatch,
    /// Adopt the new progress, then pass one suspension point.
    Suspend,
    /// Mark completion and leave the loop.
    Stop,
    /// Unrecognized step index: fatal.
    Fault,
}

/// The stage-1 completion predicate of the main unit of work.
pub open spec fn main_pred(x: int, y: int) -> bool {
    x > 100 && y > 200
}

/// The main progress values the protocol can put in a record or start
/// from: the fresh origin at step 0, a mid-stage point where the counters
/// have moved in lockstep from the origin, or the terminal step.
pub open spec fn main_reachable(p: StepProgress) -> bool {
    ||| (p.step == 0 && p.x == 0 && p.y == 0)
    ||| (p.step == 1 && 0 <= p.x <= 100 && p.y == 2 * p.x)
    ||| p.step == 2
}

/// Whether a loaded main progress value is one the protocol recognizes; any
/// other loaded value signals a corrupted or version-skewed record.
pub fn main_record_valid(p: &StepProgress) -> (r: bool)
    ensures
        r == main_reachable(*p),
{
    if p.step == 0 {
        p.x == 0 && p.y == 0
    } else if p.step == 1 {
        p.x >= 0 && p.x <= 100 && p.y == 2 * p.x
    } else {
        p.step == 2
    }
}

/// One dispatch of the main unit of work: the progress after the step's own
/// mutation, and what the runner must do before the next dispatch.
pub fn main_dispatch(p: StepProgress) -> (r: (StepProgress, StepAction))
    requires
        p.step == 1 ==> p.x + 1 <= i64::MAX && p.y + 2 <= i64::MAX,
    ensures
        p.step == 0 ==> r.0 == (StepProgress { step: 1, x: p.x, y: p.y }) && r.1
            == StepAction::RunNested,
        p.step == 1 ==> r.0.x == p.x + 1 && r.0.y == p.y + 2,
        p.step == 1 && main_pred(p.x + 1, p.y + 2) ==> r.0.step == 2 && r.1
            == StepAction::Redispatch,
        p.step == 1 && !main_pred(p.x + 1, p.y + 2) ==> r.0.step == 1 && r.1 == StepAction::Suspend,
        p.step == 2 ==> r.0 == p && r.1 == StepAction::Stop,
        p.step > 2 ==> r.0 == p && r.1 == StepAction::Fault,
{
    if p.step == 0 {
        (StepProgress { step: 1, x: p.x, y: p.y }, StepAction::RunNested)
    } else if p.step == 1 {
        let x = p.x + 1;
        let y = p.y + 2;
        if x > 100 && y > 200 {
            (StepProgress { step: 2, x, y }, StepAction::Redispatch)
        } else {
            (StepProgress { step: 1, x, y }, StepAction::Suspend)
        }
    } else if p.step == 2 {
        (p, StepAction::Stop)
    } else {
        (p, StepAction::Fault)
    }
}

/// One dispatch of the nested unit of work, mutating its progress in place.
pub fn nested_dispatch(p: &mut NestedProgress) -> (r: StepAction)
    ensures
        old(p).step == 0 && old(p).a@.len() > 100 ==> final(p).step == 1 && final(p).a@ == old(
            p,
        ).a@ && r == StepAction::Redispatch,
        old(p).step == 0 && old(p).a@.len() <= 100 ==> final(p).step == 0 && final(p).a@ == old(
            p,
        ).a@.push(old(p).a@.len() as u64) && r == StepAction::Suspend,
        old(p).step == 1 ==> *final(p) == *old(p) && r == StepAction::Stop,
        old(p).step > 1 ==> *final(p) == *old(p) && r == StepAction::Fault,
{
    if p.step == 0 {
        if p.a.len() > 100 {
            p.step = 1;
            StepAction::Redispatch
        } else {
            let i = p.a.len() as u64;
            p.a.push(i);
            StepAction::Suspend
        }
    } else if p.step == 1 {
        StepAction::Stop
    } else {
        StepAction::Fault
    }
}

/// The nested unit's items after `k` more pushes, each push appending the
/// length the list had at that moment.
pub open spec fn items_after(a: Seq<u64>, k: nat) -> Seq<u64> {
    a + Seq::new(k, |j: int| (a.len() + j) as u64)
}

/// How many suspension points a nested run starting from items `a` passes
/// before completing: one per push, until more than 100 items stand.
pub open spec fn nested_pushes(a: Seq<u64>) -> nat {
    if a.len() > 100 {
        0
    } else {
        (101 - a.len()) as nat
    }
}

/// What a nested run leaves behind, as a function of its loaded (or
/// default) model `m0`, the tick budget `b`, and the storage `s0` as it
/// stood once the load had consumed any record: completion leaves no
/// record; interruption persists the progress as of the last suspension
/// point; an unrecognized step index is fatal and persists the loaded value
/// back.
pub open spec fn nested_run_post(
    m0: (u64, Seq<u64>),
    b: u64,
    id: usize,
    s0: Map<usize, Seq<u8>>,
    s1: Map<usize, Seq<u8>>,
    t1: u64,
    r: Result<RunOutcome, StoreError>,
) -> bool {
    if m0.0 == 1 {
        r == Ok::<RunOutcome, StoreError>(RunOutcome::Completed) && s1 == s0 && t1 == b
    } else if m0.0 == 0 {
        let need = nested_pushes(m0.1);
        if b >= need {
            r == Ok::<RunOutcome, StoreError>(RunOutcome::Completed) && s1 == s0 && t1 == b - need
        } else {
            r == Ok::<RunOutcome, StoreError>(RunOutcome::Interrupted) && t1 == 0 && s1
                == s0.insert(
                id,
                NestedProgress::spec_encode((0u64, items_after(m0.1, b as nat + 1))),
            )
        }
    } else {
        r == Err::<RunOutcome, StoreError>(StoreError::ProtocolViolation) && t1 == b && s1
            == s0.insert(id, NestedProgress::spec_encode(m0))
    }
}

/// Runs the nested unit of work bound to `id`: loads any record for it,
/// dispatches steps, and persists exactly when it must. `ticks` is the
/// number of suspension points the run may still pass; when none is left,
/// cancellation takes effect at the next suspension point and the run ends
/// there.
#[verifier::loop_isolation(false)]
pub fn run_nested(id: usize, storage: &mut Storage, ticks: &mut u64) -> (r: Result<
    RunOutcome,
    StoreError,
>)
    ensures
        r == Err::<RunOutcome, StoreError>(StoreError::CodecFailure) ==> final(storage)@ == old(
            storage,
        )@ && *final(ticks) == *old(ticks),
        !old(storage)@.contains_key(id) ==> nested_run_post(
            (0u64, Seq::<u64>::empty()),
            *old(ticks),
            id,
            old(storage)@,
            final(storage)@,
            *final(ticks),
            r,
        ),
        forall|m: (u64, Seq<u64>)|
            old(storage)@.contains_key(id) && old(storage)@[id]
                == #[trigger] NestedProgress::spec_encode(m) ==> nested_run_post(
                m,
                *old(ticks),
                id,
                old(storage)@.remove(id),
                final(storage)@,
                *final(ticks),
                r,
            ),
{
    let mut st = State::new(id, NestedProgress { step: 0, a: Vec::new() });
    let load = st.deserialize_data(storage);
    match load {
        Err(e) => {
            return Err(e);
        },
        Ok(()) => {},
    }
    let ghost m0 = st.data@;
    let ghost s0 = storage@;
    let ghost b0 = *ticks;
    let mut p = st.data;
    if p.step > 1 {
        // unrecognized step index: fatal; this exit path still persists
        let st2 = State::new(id, p);
        st2.serialize_data(storage);
        return Err(StoreError::ProtocolViolation);
    }
    if p.step == 1 {
        let mut st2 = State::new(id, p);
        st2.mark_completed();
        st2.serialize_data(storage);
        return Ok(RunOutcome::Completed);
    }
    let ghost a0 = p.a@;
    let ghost need = nested_pushes(a0);
    proof {
        assert(p.a@ =~= items_after(a0, 0));
    }
    loop
        invariant
            storage@ == s0,
            *ticks <= b0,
            need == nested_pushes(a0),
            p.step == 0 || p.step == 1,
            p.step == 0 ==> b0 - *ticks <= need && p.a@ == items_after(a0, (b0 - *ticks) as nat)
                && ((b0 - *ticks == need) <==> p.a@.len() > 100),
            p.step == 1 ==> b0 - *ticks == need,
        decreases 2 - p.step, need - (b0 - *ticks),
    {
        let ghost consumed = (b0 - *ticks) as nat;
        let act = nested_dispatch(&mut p);
        match act {
            StepAction::Redispatch => {},
            StepAction::Suspend => {
                proof {
                    assert(p.a@ =~= items_after(a0, consumed + 1));
                }
                if *ticks == 0 {
                    let st2 = State::new(id, p);
                    st2.serialize_data(storage);
                    proof {
                        assert(b0 < need);
                        assert(p.a@ == items_after(a0, b0 as nat + 1));
                        assert(p@ == (0u64, items_after(m0.1, b0 as nat + 1)));
                        assert(nested_run_post(
                            m0,
                            b0,
                            id,
                            s0,
                            storage@,
                            *ticks,
                            Ok::<RunOutcome, StoreError>(RunOutcome::Interrupted),
                        ));
                    }
                    return Ok(RunOutcome::Interrupted);
                }
                *ticks = *ticks - 1;
            },
            StepAction::Stop => {
                break ;
            },
            _ => {
                proof {
                    assert(false);
                }
                return Err(StoreError::ProtocolViolation);
            },
        }
    }
    let mut st2 = State::new(id, p);
    st2.mark_completed();
    st2.serialize_data(storage);
    proof {
        assert(b0 >= need && *ticks == b0 - need);
        assert(nested_run_post(
            m0,
            b0,
            id,
            s0,
            storage@,
            *ticks,
            Ok::<RunOutcome, StoreError>(RunOutcome::Completed),
        ));
    }
    Ok(RunOutcome::Completed)
}

/// What the main unit's stage 1 leaves behind when entered with counter
/// `x0`, a tick budget `b`, and storage `s0`: the predicate turns true at
/// `x == 101` without a further suspension, so `100 - x0` suspension points
/// stand between entry and completion.
pub open spec fn stage1_post(
    x0: int,
    b: u64,
    id: usize,
    s0: Map<usize, Seq<u8>>,
    s1: Map<usize, Seq<u8>>,
    t1: u64,
    r: Result<RunOutcome, StoreError>,
) -> bool {
    let need = 100 - x0;
    if b >= need {
        r == Ok::<RunOutcome, StoreError>(RunOutcome::Completed) && s1 == s0 && t1 == b - need
    } else {
        r == Ok::<RunOutcome, StoreError>(RunOutcome::Interrupted) && t1 == 0 && s1 == s0.insert(
            id,
            StepProgress::spec_encode(
                StepProgress { step: 1, x: (x0 + b + 1) as i64, y: (2 * (x0 + b + 1)) as i64 },
            ),
        )
    }
}

/// The step-0 phase of a main run, given the nested unit's loaded (or
/// default) model `n0`: the nested sub-unit runs first against the shared
/// tick budget; only when it completes does the main unit advance to
/// stage 1. `s0` is the storage after the main load, `sn` the storage after
/// the nested load consumed its record.
pub open spec fn main_after_nested(
    n0: (u64, Seq<u64>),
    b: u64,
    id: usize,
    nested_id: usize,
    s0: Map<usize, Seq<u8>>,
    sn: Map<usize, Seq<u8>>,
    s1: Map<usize, Seq<u8>>,
    t1: u64,
    r: Result<RunOutcome, StoreError>,
) -> bool {
    let origin = StepProgress { step: 0, x: 0, y: 0 };
    if n0.0 == 1 {
        stage1_post(0, b, id, sn, s1, t1, r)
    } else if n0.0 == 0 {
        let need = nested_pushes(n0.1);
        if b >= need {
            stage1_post(0, (b - need) as u64, id, sn, s1, t1, r)
        } else {
            r == Ok::<RunOutcome, StoreError>(RunOutcome::Interrupted) && t1 == 0 && s1
                == sn.insert(
                nested_id,
                NestedProgress::spec_encode((0u64, items_after(n0.1, b as nat + 1))),
            ).insert(id, StepProgress::spec_encode(origin))
        }
    } else {
        r == Err::<RunOutcome, StoreError>(StoreError::ProtocolViolation) && t1 == b && s1
            == sn.insert(nested_id, NestedProgress::spec_encode(n0)).insert(
            id,
            StepProgress::spec_encode(origin),
        )
    }
}

/// What a main run leaves behind, as a function of its loaded (or default)
/// model `m0`, the tick budget `b`, and the storage `s0` as it stood once
/// the main load had consumed any record. A value the protocol does not
/// recognize is fatal and is persisted back; the terminal step completes at
/// once; stage 1 runs directly; step 0 first runs the nested sub-unit,
/// whose own record in `s0` governs that phase.
pub open spec fn main_run_post(
    m0: StepProgress,
    b: u64,
    id: usize,
    nested_id: usize,
    s0: Map<usize, Seq<u8>>,
    s1: Map<usize, Seq<u8>>,
    t1: u64,
    r: Result<RunOutcome, StoreError>,
) -> bool {
    if !main_reachable(m0) {
        r == Err::<RunOutcome, StoreError>(StoreError::ProtocolViolation) && t1 == b && s1
            == s0.insert(id, StepProgress::spec_encode(m0))
    } else if m0.step == 2 {
        r == Ok::<RunOutcome, StoreError>(RunOutcome::Completed) && s1 == s0 && t1 == b
    } else if m0.step == 1 {
        stage1_post(m0.x as int, b, id, s0, s1, t1, r)
    } else {
        &&& (!s0.contains_key(nested_id) ==> main_after_nested(
            (0u64, Seq::<u64>::empty()),
            b,
            id,
            nested_id,
            s0,
            s0,
            s1,
            t1,
            r,
        ))
        &&& (forall|n0: (u64, Seq<u64>)|
            s0.contains_key(nested_id) && s0[nested_id] == #[trigger] NestedProgress::spec_encode(
                n0,
            ) ==> main_after_nested(n0, b, id, nested_id, s0, s0.remove(nested_id), s1, t1, r))
        &&& (r == Err::<RunOutcome, StoreError>(StoreError::CodecFailure) ==> t1 == b && s1
            == s0.insert(id, StepProgress::spec_encode(m0)))
    }
}

/// No loss on interrupt: a main run that starts mid-stage 1 and is
/// cancelled strictly before completion leaves a record for its identity
/// that encodes exactly the progress as of the last suspension point
/// passed: the counters after `b + 1` increments, still at step 1. The
/// `decode` contract of `Record` then forces the next run's load to yield
/// that very value.
pub proof fn lemma_no_loss_on_interrupt(
    m0: StepProgress,
    b: u64,
    id: usize,
    nested_id: usize,
    s0: Map<usize, Seq<u8>>,
    s1: Map<usize, Seq<u8>>,
    t1: u64,
    r: Result<RunOutcome, StoreError>,
)
    requires
        main_run_post(m0, b, id, nested_id, s0, s1, t1, r),
        m0.step == 1 && 0 <= m0.x <= 100 && m0.y == 2 * m0.x,
        b < 100 - m0.x,
    ensures
        r == Ok::<RunOutcome, StoreError>(RunOutcome::Interrupted),
        s1.contains_key(id),
        s1[id] == StepProgress::spec_encode(
            StepProgress { step: 1, x: (m0.x + b + 1) as i64, y: (2 * (m0.x + b + 1)) as i64 },
        ),
{
    assert(main_reachable(m0));
}

/// No resume after completion: a run that reports completion leaves no
/// record for its identity, so the next run with that identity finds
/// nothing to load and starts from the type's default value (which is what
/// the store's load contract gives when no record stands).
pub proof fn lemma_no_resume_after_completion(
    m0: StepProgress,
    b: u64,
    id: usize,
    nested_id: usize,
    s0: Map<usize, Seq<u8>>,
    s1: Map<usize, Seq<u8>>,
    t1: u64,
    r: Result<RunOutcome, StoreError>,
)
    requires
        main_run_post(m0, b, id, nested_id, s0, s1, t1, r),
        r == Ok::<RunOutcome, StoreError>(RunOutcome::Completed),
        !s0.contains_key(id),
        id != nested_id,
        s0.contains_key(nested_id) ==> exists|n0: (u64, Seq<u64>)|
            s0[nested_id] == #[trigger] NestedProgress::spec_encode(n0),
    ensures
        !s1.contains_key(id),
{
    if main_reachable(m0) && m0.step == 0 {
        if s0.contains_key(nested_id) {
            let n0 = choose|n0: (u64, Seq<u64>)|
                s0[nested_id] == #[trigger] NestedProgress::spec_encode(n0);
            assert(main_after_nested(n0, b, id, nested_id, s0, s0.remove(nested_id), s1, t1, r));
        }
    }
}

/// Runs the main unit of work bound to `id`, with its nested sub-unit bound
/// to `nested_id`: loads any record, dispatches steps, runs the nested
/// sub-unit when stage 0 asks for it, and persists exactly when it must.
/// `ticks` is the number of suspension points the run may still pass; when
/// none is left, cancellation takes effect at the next suspension point,
/// wherever it stands, and unwinds the whole run.
#[verifier::loop_isolation(false)]
pub fn run_main(id: usize, nested_id: usize, storage: &mut Storage, ticks: &mut u64) -> (r: Result<
    RunOutcome,
    StoreError,
>)
    requires
        id != nested_id,
    ensures
        !old(storage)@.contains_key(id) ==> main_run_post(
            StepProgress { step: 0, x: 0, y: 0 },
            *old(ticks),
            id,
            nested_id,
            old(storage)@,
            final(storage)@,
            *final(ticks),
            r,
        ),
        forall|m0: StepProgress|
            old(storage)@.contains_key(id) && old(storage)@[id]
                == #[trigger] StepProgress::spec_encode(m0) ==> main_run_post(
                m0,
                *old(ticks),
                id,
                nested_id,
                old(storage)@.remove(id),
                final(storage)@,
                *final(ticks),
                r,
            ),
{
    let mut st = State::new(id, StepProgress { step: 0, x: 0, y: 0 });
    let load = st.deserialize_data(storage);
    match load {
        Err(e) => {
            return Err(e);
        },
        Ok(()) => {},
    }
    let ghost m0 = st.data@;
    let ghost s0 = storage@;
    let ghost b0 = *ticks;
    let mut p = st.data;
    if !main_record_valid(&p) {
        // corrupted or version-skewed record: fatal; this exit path still
        // persists the loaded value back
        let st2 = State::new(id, p);
        st2.serialize_data(storage);
        return Err(StoreError::ProtocolViolation);
    }
    if p.step == 0 {
        let (p1, act) = main_dispatch(p);
        match run_nested(nested_id, storage, ticks) {
            Err(e) => {
                let st2 = State::new(id, p);
                st2.serialize_data(storage);
                return Err(e);
            },
            Ok(RunOutcome::Interrupted) => {
                let st2 = State::new(id, p);
                st2.serialize_data(storage);
                return Ok(RunOutcome::Interrupted);
            },
            Ok(RunOutcome::Completed) => {
                p = p1;
            },
        }
    }
    if p.step == 2 {
        let mut st2 = State::new(id, p);
        st2.mark_completed();
        st2.serialize_data(storage);
        return Ok(RunOutcome::Completed);
    }
    // stage 1
    let ghost x1 = p.x as int;
    let ghost t_e = *ticks;
    let ghost s_e = storage@;
    loop
        invariant
            storage@ == s_e,
            *ticks <= t_e,
            0 <= x1 <= 100,
            p.step == 1 || p.step == 2,
            p.step == 1 ==> p.x == x1 + (t_e - *ticks) && x1 <= p.x <= 100 && p.y == 2 * p.x,
            p.step == 2 ==> p.x == 101 && p.y == 202 && t_e - *ticks == 100 - x1,
        decreases 2 - p.step, 101 - p.x,
    {
        let (p2, act) = main_dispatch(p);
        match act {
            StepAction::Redispatch => {
                p = p2;
            },
            StepAction::Suspend => {
                p = p2;
                if *ticks == 0 {
                    let st2 = State::new(id, p);
                    st2.serialize_data(storage);
                    proof {
                        assert(t_e < 100 - x1);
                        assert(stage1_post(
                            x1,
                            t_e,
                            id,
                            s_e,
                            storage@,
                            *ticks,
                            Ok::<RunOutcome, StoreError>(RunOutcome::Interrupted),
                        ));
                    }
                    return Ok(RunOutcome::Interrupted);
                }
                *ticks = *ticks - 1;
            },
            StepAction::Stop => {
                let mut st2 = State::new(id, p);
                st2.mark_completed();
                st2.serialize_data(storage);
                proof {
                    assert(stage1_post(
                        x1,
                        t_e,
                        id,
                        s_e,
                        storage@,
                        *ticks,
                        Ok::<RunOutcome, StoreError>(RunOutcome::Completed),
                    ));
                }
                return Ok(RunOutcome::Completed);
            },
            _ => {
                proof {
                    assert(false);
                }
                return Err(StoreError::ProtocolViolation);
            },
        }
    }
}

} // verus!
