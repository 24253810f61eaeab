//! A DAG-driven job runner: a job is a set of shell-invocable tasks related
//! by dependencies. The library validates the job, plans level-synchronous
//! execution, classifies task return codes, propagates skips through
//! descendants, and models the webhook event pipeline.

use vstd::prelude::*;

pub mod classify;
pub mod factfile;
pub mod graph;
pub mod executor;
pub mod report;
pub mod strings;
pub mod tags;
pub mod webhook;
pub mod dot;

verus! {

/// Process exit code for a run where every dispatched task succeeded.
pub const PROC_SUCCESS: i32 = 0;

/// Process exit code for a malformed or invalid job document.
pub const PROC_PARSE_ERROR: i32 = 1;

/// Process exit code for a run where at least one task failed.
pub const PROC_EXEC_ERROR: i32 = 2;

/// Process exit code for other refusals (bad start point, host mismatch).
pub const PROC_OTHER_ERROR: i32 = 3;

} // verus!
