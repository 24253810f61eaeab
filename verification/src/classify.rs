//! Return-code classification: a task's `on_result` section names two
//! disjoint sets of return codes, one that lets the job continue and one
//! that requests a controlled early finish.

use vstd::prelude::*;

verus! {

/// What a task's return code means for the rest of the job.
#[derive(Clone, Copy, PartialEq, Eq, Structural, Debug)]
pub enum CodeClass {
    /// The code is in `continue_job`: the task succeeded, descendants run.
    Continue,
    /// The code is in `terminate_job`: the task succeeded but asks the job
    /// to stop descending through it.
    TerminateEarly,
    /// The code is in neither set: the task failed.
    Unrecognized,
}

/// True when `codes` holds `code`.
pub open spec fn spec_contains_code(codes: Seq<i32>, code: i32) -> bool {
    exists|i: int| 0 <= i < codes.len() && codes[i] == code
}

/// Linear membership test over a list of return codes.
pub fn contains_code(codes: &Vec<i32>, code: i32) -> (r: bool)
    ensures
        r == spec_contains_code(codes@, code),
{
    let mut i: usize = 0;
    while i < codes.len()
        invariant
            0 <= i <= codes@.len(),
            forall|j: int| 0 <= j < i ==> codes@[j] != code,
        decreases codes@.len() - i,
    {
        if codes[i] == code {
            return true;
        }
        i = i + 1;
    }
    false
}

/// How a return code is classified against the two code sets.
pub open spec fn spec_classify(continue_job: Seq<i32>, terminate_job: Seq<i32>, code: i32) -> CodeClass {
    if spec_contains_code(continue_job, code) {
        CodeClass::Continue
    } else if spec_contains_code(terminate_job, code) {
        CodeClass::TerminateEarly
    } else {
        CodeClass::Unrecognized
    }
}

/// Classifies a task's return code: `continue_job` wins, then
/// `terminate_job`, and any other code is unrecognized.
pub fn classify_code(continue_job: &Vec<i32>, terminate_job: &Vec<i32>, code: i32) -> (r: CodeClass)
    ensures
        r == spec_classify(continue_job@, terminate_job@, code),
{
    if contains_code(continue_job, code) {
        CodeClass::Continue
    } else if contains_code(terminate_job, code) {
        CodeClass::TerminateEarly
    } else {
        CodeClass::Unrecognized
    }
}

} // verus!
