//! Triple modular redundancy: a task runs three times and a majority voter
//! picks the agreed result, naming the runner that diverged.
use vstd::prelude::*;
use vstd::std_specs::cmp::PartialEqSpec;

verus! {

/// Outcome of a redundant execution.
#[derive(Debug, Clone, PartialEq, Eq)]
pub enum TmrStatus {
    /// All three runners agreed.
    Perfect,
    /// One runner diverged and was outvoted.
    Corrected {
        /// Index (0, 1 or 2) of the diverging runner.
        faulty_runner: usize,
        /// Debug rendering of the diverging value.
        faulty_value: String,
        /// Debug rendering of the majority value.
        majority_value: String,
    },
    /// All three runners disagreed.
    Failed,
}

/// Result of a majority vote.
#[derive(Debug, Clone, PartialEq, Eq)]
pub struct TmrResult<T> {
    /// The majority value, if any.
    pub value: Option<T>,
    /// How the vote went.
    pub status: TmrStatus,
}

/// The majority voting engine.
pub struct TmrVoter;

/// `a` equals `b` under the type's equality.
pub open spec fn same_value<T: PartialEq>(a: T, b: T) -> bool {
    a.eq_spec(&b)
}

/// The runner named by a `Corrected` status.
pub open spec fn faulty_runner_of(s: TmrStatus) -> Option<usize> {
    match s {
        TmrStatus::Corrected { faulty_runner, .. } => Some(faulty_runner),
        _ => None,
    }
}

/// `res` is the vote on the runner outputs `r0`, `r1`, `r2`: unanimous gives
/// `Perfect`; two agreeing outvote the third (the pair `r0`,`r1` is tried
/// first, then `r0`,`r2`, then `r1`,`r2`); otherwise the vote fails.
pub open spec fn vote_outcome<T: PartialEq>(res: TmrResult<T>, r0: T, r1: T, r2: T) -> bool {
    T::obeys_eq_spec() ==> if same_value(r0, r1) && same_value(r1, r2) {
        res.value == Some(r0) && res.status is Perfect
    } else if same_value(r0, r1) {
        res.value == Some(r0) && faulty_runner_of(res.status) == Some(2usize)
    } else if same_value(r0, r2) {
        res.value == Some(r0) && faulty_runner_of(res.status) == Some(1usize)
    } else if same_value(r1, r2) {
        res.value == Some(r1) && faulty_runner_of(res.status) == Some(0usize)
    } else {
        res.value is None && res.status is Failed
    }
}

/// Debug rendering of a value, as `format!("{:?}", v)` produces it. The text
/// depends on the value's `Debug` implementation; nothing is stated of it.
#[verifier::external_body]
fn debug_text<T: core::fmt::Debug>(v: &T) -> String {
    format!("{:?}", v)
}

impl TmrVoter {
    /// Majority vote on three runner outputs.
    pub fn vote<T: Clone + PartialEq + core::fmt::Debug>(r0: T, r1: T, r2: T) -> (res: TmrResult<T>)
        ensures
            vote_outcome(res, r0, r1, r2),
    {
        if r0 == r1 && r1 == r2 {
            TmrResult { value: Some(r0), status: TmrStatus::Perfect }
        } else if r0 == r1 {
            let faulty = debug_text(&r2);
            let majority = debug_text(&r0);
            TmrResult {
                value: Some(r0),
                status: TmrStatus::Corrected {
                    faulty_runner: 2,
                    faulty_value: faulty,
                    majority_value: majority,
                },
            }
        } else if r0 == r2 {
            let faulty = debug_text(&r1);
            let majority = debug_text(&r0);
            TmrResult {
                value: Some(r0),
                status: TmrStatus::Corrected {
                    faulty_runner: 1,
                    faulty_value: faulty,
                    majority_value: majority,
                },
            }
        } else if r1 == r2 {
            let faulty = debug_text(&r0);
            let majority = debug_text(&r1);
            TmrResult {
                value: Some(r1),
                status: TmrStatus::Corrected {
                    faulty_runner: 0,
                    faulty_value: faulty,
                    majority_value: majority,
                },
            }
        } else {
            TmrResult { value: None, status: TmrStatus::Failed }
        }
    }

    /// Runs `task` as runners 0, 1 and 2 and votes on the three results.
    pub fn execute_redundant<T, F>(task: F) -> (res: TmrResult<T>) where
        T: Clone + PartialEq + core::fmt::Debug,
        F: Fn(usize) -> T,

        requires
            task.requires((0usize,)),
            task.requires((1usize,)),
            task.requires((2usize,)),
        ensures
            exists|r0: T, r1: T, r2: T|
                {
                    &&& task.ensures((0usize,), r0)
                    &&& task.ensures((1usize,), r1)
                    &&& task.ensures((2usize,), r2)
                    &&& vote_outcome(res, r0, r1, r2)
                },
    {
        let r0 = task(0);
        let r1 = task(1);
        let r2 = task(2);
        Self::vote(r0, r1, r2)
    }
}

} // verus!
