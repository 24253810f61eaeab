//! The execution engine: task run records, level-synchronous dispatch,
//! return-code classification, skip propagation through descendants, and
//! the ordered stream of run events that feeds the webhook.
//!
//! Levels run one after another; within a level tasks are independent.
//! A task that fails, or that asks for an early finish, causes every
//! still-waiting descendant to be skipped between levels.

use vstd::prelude::*;
use crate::factfile::{Factfile, TaskSpec, spec_edge, spec_is_first_index_of, spec_has_task};
use crate::graph::{
    spec_reaches, spec_path_to, spec_plan_ok, spec_blocked_set, spec_in_levels_before,
    lemma_selected_closed_under_paths,
};
use crate::classify::{classify_code, CodeClass, spec_classify, spec_contains_code};
use crate::strings::{i64_to_string, spec_i64_str};

verus! {

/// A wall-clock duration, split into whole seconds and nanoseconds.
#[derive(Clone, Copy, PartialEq, Eq, Structural, Debug)]
pub struct RunDuration {
    pub secs: u64,
    pub nanos: u32,
}

impl RunDuration {
    /// Nanoseconds stay below one second.
    pub open spec fn wf(self) -> bool {
        self.nanos < 1_000_000_000
    }

    /// A zero-length duration.
    pub fn zero() -> (r: RunDuration)
        ensures
            r.secs == 0 && r.nanos == 0,
    {
        RunDuration { secs: 0, nanos: 0 }
    }
}

/// What one strategy invocation reported back: how long the command ran,
/// whether it could be launched at all, what it wrote, and its exit code.
#[derive(Debug)]
pub struct RunResult {
    pub duration: RunDuration,
    /// `Some(reason)` when the process could not be started; distinct
    /// from a non-zero return code.
    pub task_execution_error: Option<String>,
    pub stdout: Option<String>,
    pub stderr: Option<String>,
    pub return_code: i32,
}

/// The lifecycle of one task run record. Terminal states are never
/// rewritten.
#[derive(Debug)]
pub enum State {
    Waiting,
    Running,
    Success,
    SuccessNoop,
    Failed(String),
    Skipped(String),
}

/// When a run refuses to build: the start task is unknown, or the
/// selection the run would execute holds a dependency knot.
pub open spec fn spec_new_refusal(
    tasks: Seq<TaskSpec>,
    start: Option<Seq<char>>,
    m: Seq<char>,
) -> bool {
    ||| (m == "the task specified could not be found"@ && match start {
        Some(s) => !spec_has_task(tasks, s),
        None => false,
    })
    ||| (m == "cycle detected"@ && (match start {
        Some(s) => spec_has_task(tasks, s),
        None => true,
    }) && exists|bad: Seq<bool>| spec_blocked_set(tasks, spec_run_selection(tasks, start), bad))
}

/// The failure message for a return code outside both classification
/// sets.
pub open spec fn spec_unrecognized_msg(code: i32) -> Seq<char> {
    "return code "@ + spec_i64_str(code as i64) + " not recognized"@
}

/// The task failed or asked for a controlled early finish: either way
/// its waiting descendants must not run.
pub open spec fn spec_bad_state(s: State) -> bool {
    s is Failed || s is SuccessNoop
}

/// Some failed or early-finished task reaches `t`.
pub open spec fn spec_has_bad_ancestor(
    tasks: Seq<TaskSpec>,
    records: Seq<TaskRecord>,
    t: int,
) -> bool {
    exists|o: int|
        0 <= o < records.len() && spec_bad_state(records[o].state) && spec_reaches(tasks, o, t)
}

/// The reason written into a skipped record, naming the origin task.
pub open spec fn spec_skip_reason(name: Seq<char>) -> Seq<char> {
    "skipped because of task '"@ + name + "'"@
}

/// What a freshly skipped record looks like: same name, never started,
/// no result, and a reason naming a failed or early-finished ancestor.
pub open spec fn spec_skipped_record(
    tasks: Seq<TaskSpec>,
    old_records: Seq<TaskRecord>,
    rec: TaskRecord,
    old_rec: TaskRecord,
    t: int,
) -> bool {
    &&& rec.name == old_rec.name
    &&& rec.run_started is None
    &&& rec.run_result is None
    &&& rec.state matches State::Skipped(r) && exists|o: int|
        0 <= o < old_records.len() && spec_bad_state(old_records[o].state) && spec_reaches(
            tasks,
            o,
            t,
        ) && r@ == spec_skip_reason(old_records[o].name@)
}

/// Mid-propagation shape: `u` must already be skipped when some bad
/// origin strictly before the scan bound reaches it.
pub open spec fn spec_should_skip_upto(
    tasks: Seq<TaskSpec>,
    old_records: Seq<TaskRecord>,
    u: int,
    o_bound: int,
    t_bound: int,
) -> bool {
    &&& old_records[u].state is Waiting
    &&& exists|o: int|
        0 <= o < old_records.len() && spec_bad_state(old_records[o].state) && spec_reaches(
            tasks,
            o,
            u,
        ) && (o < o_bound || (o == o_bound && u < t_bound))
}

/// Some record stands in `Failed`.
pub open spec fn spec_any_failed(records: Seq<TaskRecord>) -> bool {
    exists|t: int| 0 <= t < records.len() && records[t].state is Failed
}

/// Some record stands in `SuccessNoop`.
pub open spec fn spec_any_noop(records: Seq<TaskRecord>) -> bool {
    exists|t: int| 0 <= t < records.len() && records[t].state is SuccessNoop
}

/// The task ran to an end: it has a result to show.
pub open spec fn spec_ran(s: State) -> bool {
    s is Success || s is SuccessNoop || s is Failed
}

/// The task needs no further work in this run.
pub open spec fn spec_settled(s: State) -> bool {
    spec_ran(s) || s is Skipped
}

/// One task's run record.
#[derive(Debug)]
pub struct TaskRecord {
    pub name: String,
    pub state: State,
    /// Rendered wall-clock timestamp of dispatch, if the task started.
    pub run_started: Option<String>,
    pub run_result: Option<RunResult>,
}

/// One entry of the ordered update stream handed to subscribers.
#[derive(Clone, Copy, PartialEq, Eq, Structural, Debug)]
pub enum ExecutionEvent {
    RunStarted,
    TaskStarted(usize),
    TaskFinished(usize),
    RunFinished,
}

/// The tasks a run executes: with a start task, the descendant set of its
/// first carrier; without one, every task.
pub open spec fn spec_run_selection(tasks: Seq<TaskSpec>, start: Option<Seq<char>>) -> Seq<bool> {
    Seq::new(
        tasks.len(),
        |t: int|
            match start {
                Some(s) => exists|i: int|
                    spec_is_first_index_of(tasks, s, i) && spec_reaches(tasks, i, t),
                None => true,
            },
    )
}

/// A captured stream over its cap, cut at exactly the cap with the
/// truncation marker appended.
pub open spec fn spec_truncated(s: Seq<char>, max: int) -> Seq<char> {
    if s.len() <= max {
        s
    } else {
        s.take(max) + "\n[truncated]\n"@
    }
}

/// Bounds a captured stdout or stderr at `max` characters: an oversize
/// capture is cut at exactly `max` and marked as truncated.
pub fn truncate_capture(s: &str, max: usize) -> (r: String)
    ensures
        r@ == spec_truncated(s@, max as int),
{
    let n = s.unicode_len();
    if n <= max {
        String::from_str(s)
    } else {
        let head = s.substring_char(0, max);
        assert(head@ =~= s@.take(max as int));
        let mut out = String::from_str(head);
        out.append("\n[truncated]\n");
        proof {
            assert(out@ =~= spec_truncated(s@, max as int));
        }
        out
    }
}

/// What the simulation strategy reports for every task: an instant,
/// clean exit with a fixed output line and no errors.
pub fn simulated_run_result() -> (r: RunResult)
    ensures
        r.duration.secs == 0,
        r.duration.nanos == 0,
        r.task_execution_error is None,
        r.return_code == 0,
        r.stderr is None,
        r.stdout matches Some(s) && s@ == "simulated"@,
{
    RunResult {
        duration: RunDuration::zero(),
        task_execution_error: None,
        stdout: Some(String::from_str("simulated")),
        stderr: None,
        return_code: 0,
    }
}

/// `t` stands in level `l` of the plan.
pub open spec fn spec_in_level(plan: Seq<Vec<usize>>, l: int, t: int) -> bool {
    0 <= l < plan.len() && exists|p: int| 0 <= p < plan[l]@.len() && plan[l]@[p] == t
}

/// A run in progress: the job, the plan, one record per task, and the
/// event stream so far. `level` is the level being (or about to be)
/// dispatched; `dispatched` says whether its tasks have been started.
pub struct Execution {
    pub job: Factfile,
    pub selected: Vec<bool>,
    pub plan: Vec<Vec<usize>>,
    pub records: Vec<TaskRecord>,
    pub events: Vec<ExecutionEvent>,
    pub level: usize,
    pub dispatched: bool,
}

impl Execution {
    /// Everything the engine guarantees at every step between calls.
    pub open spec fn inv(self) -> bool {
        let tasks = self.job.tasks@;
        let n = tasks.len();
        let plan = self.plan@;
        let records = self.records@;
        let events = self.events@;
        // shapes
        &&& records.len() == n
        &&& self.selected@.len() == n
        &&& spec_plan_ok(tasks, self.selected@, plan)
        &&& self.level <= plan.len()
        // the selection is closed under descendants
        &&& forall|m: int, t: int|
            spec_edge(tasks, m, t) && 0 <= m < n && self.selected@[m] ==> self.selected@[t]
        // records carry their task's name
        &&& forall|t: int| 0 <= t < n ==> records[t].name@ == tasks[t].name@
        // unselected tasks are never touched
        &&& forall|t: int| 0 <= t < n && !self.selected@[t] ==> records[t].state is Waiting
        // running tasks sit in the currently dispatched level
        &&& forall|t: int|
            0 <= t < n && records[t].state is Running ==> self.dispatched && self.level
                < plan.len() && spec_in_level(plan, self.level as int, t)
        // tasks in future levels (or the current, undispatched one) wait
        &&& forall|l: int, p: int|
            0 <= l < plan.len() && 0 <= p < plan[l]@.len() && (l > self.level || (l
                == self.level && !self.dispatched)) ==> (records[plan[l]@[p] as int].state
                is Waiting || records[plan[l]@[p] as int].state is Skipped)
        // tasks in past levels are settled
        &&& forall|l: int, p: int|
            0 <= l < plan.len() && 0 <= p < plan[l]@.len() && l < self.level ==> spec_settled(
                records[plan[l]@[p] as int].state,
            )
        // the dispatched level holds no waiting task
        &&& forall|l: int, p: int|
            0 <= l < plan.len() && 0 <= p < plan[l]@.len() && l == self.level && self.dispatched
                ==> !(records[plan[l]@[p] as int].state is Waiting)
        // a record holds a result exactly when its task ran to an end;
        // a failure with no result at all (a task the engine itself
        // could not hand to a strategy) is outside this engine's runs,
        // though the reporting below still renders such a record
        &&& forall|t: int|
            0 <= t < n ==> (records[t].run_result is Some <==> spec_ran(records[t].state))
        // a task that never started carries no start timestamp
        &&& forall|t: int|
            0 <= t < n && (records[t].state is Waiting || records[t].state is Skipped)
                ==> records[t].run_started is None
        // every skipped task has a failed or early-finished ancestor
        &&& forall|t: int|
            0 <= t < n && records[t].state is Skipped ==> exists|o: int|
                0 <= o < n && o != t && (records[o].state is Failed || records[o].state
                    is SuccessNoop) && spec_reaches(tasks, o, t)
        // a started event names a task that is running or ran
        &&& forall|j: int|
            0 <= j < events.len() && events[j] is TaskStarted ==> 0 <= events[j]->TaskStarted_0
                < n && (records[events[j]->TaskStarted_0 as int].state is Running || spec_ran(
                records[events[j]->TaskStarted_0 as int].state,
            ))
        // a finished event names a task that ran
        &&& forall|j: int|
            0 <= j < events.len() && events[j] is TaskFinished ==> 0 <= events[j]->TaskFinished_0
                < n && spec_ran(records[events[j]->TaskFinished_0 as int].state)
        // across every dependency edge, the finish of the prerequisite is
        // delivered before the start of the dependent
        &&& forall|i: int, j: int|
            0 <= i < events.len() && 0 <= j < events.len() && events[i] is TaskFinished
                && events[j] is TaskStarted && spec_edge(
                tasks,
                events[i]->TaskFinished_0 as int,
                events[j]->TaskStarted_0 as int,
            ) ==> i < j
    }

    /// Builds a run: selects the start task's descendant set (or every
    /// task), plans the levels, and opens the event stream.
    #[verifier::rlimit(100)]
    pub fn new(job: Factfile, start_task: Option<&str>) -> (r: Result<Execution, &'static str>)
        ensures
            match r {
                Ok(e) => {
                    &&& e.inv()
                    &&& e.job.tasks@ == job.tasks@
                    &&& e.job.name@ == job.name@
                    &&& e.job.raw@ == job.raw@
                    &&& e.events@ == seq![ExecutionEvent::RunStarted]
                    &&& e.level == 0
                    &&& !e.dispatched
                    &&& forall|t: int|
                        0 <= t < e.records@.len() ==> e.records@[t].state is Waiting
                    &&& e.selected@ == spec_run_selection(
                        job.tasks@,
                        match start_task {
                            Some(s) => Some(s@),
                            None => None::<Seq<char>>,
                        },
                    )
                },
                Err(m) => spec_new_refusal(
                    job.tasks@,
                    match start_task {
                        Some(s) => Some(s@),
                        None => None::<Seq<char>>,
                    },
                    m@,
                ),
            },
    {
        let ghost tasks = job.tasks@;
        let n = job.tasks.len();
        let ghost gsel = spec_run_selection(
            tasks,
            match start_task {
                Some(s) => Some(s@),
                None => None::<Seq<char>>,
            },
        );
        let selected: Vec<bool> = match start_task {
            Some(s) => {
                match job.index_of_task(s) {
                    Some(i) => {
                        let marked = job.reach_set(i);
                        proof {
                            assert forall|m: int, t: int|
                                spec_edge(tasks, m, t) && 0 <= m < n && marked@[m]
                                    implies marked@[t] by {
                                let k = choose|k: nat| spec_path_to(tasks, i as int, m, k);
                                assert(spec_path_to(tasks, i as int, t, (k + 1) as nat));
                            }
                            assert(spec_has_task(tasks, s@));
                            assert forall|t: int| 0 <= t < n implies marked@[t] == gsel[t] by {
                                assert forall|i2: int|
                                    spec_is_first_index_of(tasks, s@, i2) implies i2
                                    == i as int by {}
                                if marked@[t] {
                                    assert(spec_is_first_index_of(tasks, s@, i as int)
                                        && spec_reaches(tasks, i as int, t));
                                }
                            }
                            assert(marked@ =~= gsel);
                        }
                        marked
                    },
                    None => {
                        proof {
                            reveal_strlit("the task specified could not be found");
                            assert(spec_new_refusal(
                                tasks,
                                Some(s@),
                                "the task specified could not be found"@,
                            ));
                        }
                        return Err("the task specified could not be found");
                    },
                }
            },
            None => {
                let mut all: Vec<bool> = Vec::new();
                let mut i: usize = 0;
                while i < n
                    invariant
                        0 <= i <= n,
                        all@.len() == i,
                        forall|u: int| 0 <= u < i ==> all@[u],
                    decreases n - i,
                {
                    all.push(true);
                    i = i + 1;
                }
                proof {
                    assert(all@ =~= gsel);
                }
                all
            },
        };
        proof {
            assert(selected@ == gsel);
        }
        let plan = match job.topological_levels(&selected) {
            Ok(p) => p,
            Err(_) => {
                proof {
                    reveal_strlit("cycle detected");
                    let bad = choose|bad: Seq<bool>| spec_blocked_set(tasks, selected@, bad);
                    assert(spec_blocked_set(tasks, gsel, bad));
                    assert(spec_new_refusal(
                        tasks,
                        match start_task {
                            Some(s) => Some(s@),
                            None => None::<Seq<char>>,
                        },
                        "cycle detected"@,
                    ));
                }
                return Err("cycle detected");
            },
        };
        let mut records: Vec<TaskRecord> = Vec::new();
        let mut i: usize = 0;
        while i < n
            invariant
                0 <= i <= n,
                n == job.tasks@.len(),
                records@.len() == i,
                forall|t: int|
                    0 <= t < i ==> records@[t].state is Waiting && records@[t].run_result is None
                        && records@[t].run_started is None && records@[t].name@
                        == job.tasks@[t].name@,
            decreases n - i,
        {
            records.push(
                TaskRecord {
                    name: job.tasks[i].name.clone(),
                    state: State::Waiting,
                    run_started: None,
                    run_result: None,
                },
            );
            i = i + 1;
        }
        let mut events: Vec<ExecutionEvent> = Vec::new();
        events.push(ExecutionEvent::RunStarted);
        proof {
            assert(events@ =~= seq![ExecutionEvent::RunStarted]);
        }
        Ok(Execution { job, selected, plan, records, events, level: 0, dispatched: false })
    }

    /// True when every level has been dispatched and settled.
    pub fn is_complete(&self) -> (r: bool)
        ensures
            r == (self.level >= self.plan@.len()),
    {
        self.level >= self.plan.len()
    }

    /// Dispatches the current level: every still-waiting task of the
    /// level becomes `Running`, stamped with `now`, and a `TaskStarted`
    /// event is emitted for it. Returns exactly the started tasks.
    #[verifier::rlimit(100)]
    pub fn start_level(&mut self, now: &str) -> (started: Vec<usize>)
        requires
            old(self).inv(),
            old(self).level < old(self).plan@.len(),
            !old(self).dispatched,
        ensures
            final(self).inv(),
            final(self).job == old(self).job,
            final(self).plan == old(self).plan,
            final(self).selected == old(self).selected,
            final(self).level == old(self).level,
            final(self).dispatched,
            final(self).records@.len() == old(self).records@.len(),
            // the event stream grows by exactly one start event per
            // started task, in the order they were started
            final(self).events@.len() == old(self).events@.len() + started@.len(),
            final(self).events@.subrange(0, old(self).events@.len() as int) == old(self).events@,
            forall|q: int|
                0 <= q < started@.len() ==> final(self).events@[old(self).events@.len() + q]
                    == ExecutionEvent::TaskStarted(started@[q]),
            // tasks outside the current level are untouched
            forall|t: int|
                0 <= t < old(self).records@.len() && !spec_in_level(
                    old(self).plan@,
                    old(self).level as int,
                    t,
                ) ==> final(self).records@[t] == old(self).records@[t],
            // level tasks: waiting ones start, the rest stay
            forall|t: int|
                0 <= t < old(self).records@.len() && spec_in_level(
                    old(self).plan@,
                    old(self).level as int,
                    t,
                ) ==> if old(self).records@[t].state is Waiting {
                    &&& final(self).records@[t].state is Running
                    &&& final(self).records@[t].name == old(self).records@[t].name
                    &&& final(self).records@[t].run_result is None
                    &&& (final(self).records@[t].run_started matches Some(x) && x@ == now@)
                } else {
                    final(self).records@[t] == old(self).records@[t]
                },
            // the returned list is exactly the set of newly running tasks
            forall|q: int|
                0 <= q < started@.len() ==> 0 <= #[trigger] started@[q]
                    < old(self).records@.len() && old(self).records@[started@[q] as int].state
                    is Waiting && spec_in_level(
                    old(self).plan@,
                    old(self).level as int,
                    started@[q] as int,
                ),
            forall|q1: int, q2: int|
                0 <= q1 < q2 < started@.len() ==> started@[q1] != started@[q2],
            forall|t: int|
                0 <= t < old(self).records@.len() && spec_in_level(
                    old(self).plan@,
                    old(self).level as int,
                    t,
                ) && old(self).records@[t].state is Waiting ==> exists|q: int|
                    0 <= q < started@.len() && started@[q] == t,
    {
        let ghost tasks = self.job.tasks@;
        let ghost n = self.job.tasks@.len();
        let ghost plan = self.plan@;
        let ghost lvl_idx = self.level as int;
        let ghost old_records = self.records@;
        let ghost old_events = self.events@;
        let mut started: Vec<usize> = Vec::new();
        let level_len = self.plan[self.level].len();
        proof {
            assert forall|q1: int, q2: int|
                0 <= q1 < q2 < level_len implies plan[lvl_idx]@[q1] != plan[lvl_idx]@[q2] by {}
            assert forall|q: int| 0 <= q < level_len implies 0 <= #[trigger] plan[lvl_idx]@[q]
                < n by {}
        }
        let mut p: usize = 0;
        while p < level_len
            invariant
                0 <= p <= level_len,
                self.job == old(self).job,
                self.plan == old(self).plan,
                self.selected == old(self).selected,
                self.level == old(self).level,
                self.dispatched == old(self).dispatched,
                self.records@.len() == n,
                tasks == self.job.tasks@,
                n == tasks.len(),
                plan == self.plan@,
                lvl_idx == self.level as int,
                old_records == old(self).records@,
                old_events == old(self).events@,
                0 <= lvl_idx < plan.len(),
                level_len == plan[lvl_idx]@.len(),
                n == old_records.len(),
                forall|q1: int, q2: int|
                    0 <= q1 < q2 < level_len ==> plan[lvl_idx]@[q1] != plan[lvl_idx]@[q2],
                forall|q: int| 0 <= q < level_len ==> 0 <= #[trigger] plan[lvl_idx]@[q] < n,
                // dichotomy: untouched, or a freshly started level task
                forall|t: int|
                    0 <= t < n ==> self.records@[t] == old_records[t] || (
                    old_records[t].state is Waiting && self.records@[t].state is Running
                        && self.records@[t].run_result is None && self.records@[t].name
                        == old_records[t].name && (self.records@[t].run_started matches Some(x)
                        && x@ == now@) && exists|q: int| 0 <= q < p && plan[lvl_idx]@[q] == t),
                // every processed waiting entry is now running
                forall|q: int|
                    0 <= q < p && old_records[#[trigger] plan[lvl_idx]@[q] as int].state
                        is Waiting ==> self.records@[plan[lvl_idx]@[q] as int].state is Running,
                // events: old prefix plus starts of now-running tasks
                self.events@.len() == old_events.len() + started@.len(),
                self.events@.subrange(0, old_events.len() as int) == old_events,
                forall|q: int|
                    0 <= q < started@.len() ==> self.events@[old_events.len() + q]
                        == ExecutionEvent::TaskStarted(started@[q]),
                forall|j: int|
                    old_events.len() <= j < self.events@.len() ==> self.events@[j]
                        is TaskStarted && 0 <= self.events@[j]->TaskStarted_0 < n
                        && self.records@[self.events@[j]->TaskStarted_0 as int].state is Running,
                // started list
                forall|q: int|
                    0 <= q < started@.len() ==> 0 <= #[trigger] started@[q] < n
                        && old_records[started@[q] as int].state is Waiting && (exists|q2: int|
                        0 <= q2 < level_len && plan[lvl_idx]@[q2] == started@[q] as int)
                        && self.records@[started@[q] as int].state is Running,
                forall|q1: int, q2: int|
                    0 <= q1 < q2 < started@.len() ==> started@[q1] != started@[q2],
                forall|q: int|
                    0 <= q < p && old_records[#[trigger] plan[lvl_idx]@[q] as int].state
                        is Waiting ==> exists|q2: int|
                        0 <= q2 < started@.len() && started@[q2] == plan[lvl_idx]@[q],
            decreases level_len - p,
        {
            let t = self.plan[self.level][p];
            proof {
                assert(plan[lvl_idx]@[p as int] == t);
                assert forall|q: int| 0 <= q < p implies plan[lvl_idx]@[q] != t as int by {
                    assert(plan[lvl_idx]@[q] != plan[lvl_idx]@[p as int]);
                }
                if self.records@[t as int] != old_records[t as int] {
                    let q = choose|q: int| 0 <= q < p && plan[lvl_idx]@[q] == t as int;
                    assert(false);
                }
            }
            let is_waiting = match &self.records[t].state {
                State::Waiting => true,
                _ => false,
            };
            if is_waiting {
                let nm = self.records[t].name.clone();
                let ghost before = self.records@;
                self.records[t] = TaskRecord {
                    name: nm,
                    state: State::Running,
                    run_started: Some(String::from_str(now)),
                    run_result: None,
                };
                proof {
                    assert(self.records@ =~= before.update(t as int, self.records@[t as int]));
                }
                self.events.push(ExecutionEvent::TaskStarted(t));
                let ghost started_before = started@;
                started.push(t);
                proof {
                    assert(self.events@.subrange(0, old_events.len() as int) =~= old_events);
                    assert(started@ =~= started_before.push(t));
                    assert forall|q: int|
                        0 <= q < p + 1 && old_records[#[trigger] plan[lvl_idx]@[q] as int].state
                            is Waiting implies exists|q2: int|
                        0 <= q2 < started@.len() && started@[q2] == plan[lvl_idx]@[q] by {
                        if q == p as int {
                            assert(started@[started@.len() - 1] == plan[lvl_idx]@[q]);
                        } else {
                            let q2 = choose|q2: int|
                                0 <= q2 < started_before.len() && started_before[q2]
                                    == plan[lvl_idx]@[q];
                            assert(started@[q2] == plan[lvl_idx]@[q]);
                        }
                    }
                }
            }
            p = p + 1;
        }
        self.dispatched = true;
        proof {
            let records = self.records@;
            let events = self.events@;
            // A task outside the level was not touched.
            assert forall|t: int|
                0 <= t < n && !spec_in_level(plan, lvl_idx, t) implies records[t]
                == old_records[t] by {
                if records[t] != old_records[t] {
                    let q = choose|q: int| 0 <= q < level_len && plan[lvl_idx]@[q] == t;
                    assert(spec_in_level(plan, lvl_idx, t));
                }
            }
            // Level tasks: waiting ones started, the rest kept.
            assert forall|t: int|
                0 <= t < n && spec_in_level(plan, lvl_idx, t) implies (
                if old_records[t].state is Waiting {
                    &&& records[t].state is Running
                    &&& records[t].name == old_records[t].name
                    &&& records[t].run_result is None
                    &&& (records[t].run_started matches Some(x) && x@ == now@)
                } else {
                    records[t] == old_records[t]
                }) by {
                let q = choose|q: int| 0 <= q < plan[lvl_idx]@.len() && plan[lvl_idx]@[q] == t;
                assert(plan[lvl_idx]@[q] == t);
                if old_records[t].state is Waiting {
                    assert(records[t].state is Running);
                    assert(records[t] != old_records[t]);
                } else {
                    if records[t] != old_records[t] {
                        assert(old_records[t].state is Waiting);
                    }
                }
            }
            // Running tasks sit in the dispatched level.
            assert forall|t: int|
                0 <= t < n && records[t].state is Running implies spec_in_level(
                plan,
                lvl_idx,
                t,
            ) by {
                if records[t] == old_records[t] {
                    assert(!(old_records[t].state is Running));
                    assert(false);
                } else {
                    let q = choose|q: int| 0 <= q < level_len && plan[lvl_idx]@[q] == t;
                    assert(spec_in_level(plan, lvl_idx, t));
                }
            }
            // A task in another level cannot also stand in this one.
            assert forall|l: int, p2: int|
                0 <= l < plan.len() && 0 <= p2 < plan[l]@.len() && l != lvl_idx
                    implies records[plan[l]@[p2] as int] == old_records[plan[l]@[p2] as int] by {
                let t = plan[l]@[p2] as int;
                if spec_in_level(plan, lvl_idx, t) {
                    let q = choose|q: int|
                        0 <= q < plan[lvl_idx]@.len() && plan[lvl_idx]@[q] == t;
                    assert(plan[l]@[p2] == plan[lvl_idx]@[q]);
                    assert(false);
                }
                if records[t] != old_records[t] {
                    let q = choose|q: int| 0 <= q < level_len && plan[lvl_idx]@[q] == t;
                    assert(spec_in_level(plan, lvl_idx, t));
                }
            }
            // Event stream clauses.
            assert forall|j: int|
                0 <= j < events.len() && events[j] is TaskStarted implies 0 <= events[j]->TaskStarted_0
                < n && (records[events[j]->TaskStarted_0 as int].state is Running || spec_ran(
                records[events[j]->TaskStarted_0 as int].state,
            )) by {
                let u = events[j]->TaskStarted_0 as int;
                if j < old_events.len() {
                    assert(events[j] == old_events[j]);
                    assert(old_records[u].state is Running || spec_ran(old_records[u].state));
                    if records[u] != old_records[u] {
                        assert(records[u].state is Running);
                    }
                }
            }
            assert forall|j: int|
                0 <= j < events.len() && events[j] is TaskFinished implies 0 <= events[j]->TaskFinished_0
                < n && spec_ran(records[events[j]->TaskFinished_0 as int].state) by {
                assert(j < old_events.len());
                assert(events[j] == old_events[j]);
                let u = events[j]->TaskFinished_0 as int;
                assert(spec_ran(old_records[u].state));
                if records[u] != old_records[u] {
                    assert(old_records[u].state is Waiting);
                    assert(false);
                }
            }
            assert forall|i: int, j: int|
                0 <= i < events.len() && 0 <= j < events.len() && events[i] is TaskFinished
                    && events[j] is TaskStarted && spec_edge(
                    tasks,
                    events[i]->TaskFinished_0 as int,
                    events[j]->TaskStarted_0 as int,
                ) implies i < j by {
                assert(i < old_events.len());
                assert(events[i] == old_events[i]);
                if j < old_events.len() {
                    assert(events[j] == old_events[j]);
                }
            }
            // Skipped records and their origins are untouched.
            assert forall|t: int|
                0 <= t < n && records[t].state is Skipped implies exists|o: int|
                0 <= o < n && o != t && (records[o].state is Failed || records[o].state
                    is SuccessNoop) && spec_reaches(tasks, o, t) by {
                if records[t] != old_records[t] {
                    assert(records[t].state is Running);
                    assert(false);
                }
                let o = choose|o: int|
                    0 <= o < n && o != t && (old_records[o].state is Failed
                        || old_records[o].state is SuccessNoop) && spec_reaches(tasks, o, t);
                if records[o] != old_records[o] {
                    assert(old_records[o].state is Waiting);
                    assert(false);
                }
            }
        }
        started
    }

    /// Classifies a finished strategy invocation and writes the task's
    /// terminal state and result: a launch failure is `Failed` with its
    /// message; otherwise the return code decides between `Success`,
    /// `SuccessNoop` and `Failed`. Emits the task's finish event.
    #[verifier::rlimit(100)]
    pub fn finish_task(&mut self, t: usize, res: RunResult)
        requires
            old(self).inv(),
            old(self).dispatched,
            t < old(self).records@.len(),
            old(self).records@[t as int].state is Running,
        ensures
            final(self).inv(),
            final(self).job == old(self).job,
            final(self).plan == old(self).plan,
            final(self).selected == old(self).selected,
            final(self).level == old(self).level,
            final(self).dispatched == old(self).dispatched,
            final(self).records@.len() == old(self).records@.len(),
            forall|u: int|
                0 <= u < old(self).records@.len() && u != t ==> final(self).records@[u] == old(
                    self,
                ).records@[u],
            final(self).records@[t as int].name == old(self).records@[t as int].name,
            final(self).records@[t as int].run_started == old(self).records@[t as int].run_started,
            final(self).records@[t as int].run_result == Some(res),
            ({
                let cont = old(self).job.tasks@[t as int].on_result.continue_job@;
                let term = old(self).job.tasks@[t as int].on_result.terminate_job@;
                let st = final(self).records@[t as int].state;
                match res.task_execution_error {
                    Some(m) => st matches State::Failed(f) && f@ == m@,
                    None => match spec_classify(cont, term, res.return_code) {
                        CodeClass::Continue => st is Success,
                        CodeClass::TerminateEarly => st is SuccessNoop,
                        CodeClass::Unrecognized => st matches State::Failed(f) && f@
                            == spec_unrecognized_msg(res.return_code),
                    },
                }
            }),
            final(self).events@ == old(self).events@.push(ExecutionEvent::TaskFinished(t)),
    {
        let ghost tasks = self.job.tasks@;
        let ghost n = tasks.len();
        let ghost plan = self.plan@;
        let ghost lvl = self.level as int;
        let ghost old_records = self.records@;
        let ghost old_events = self.events@;
        let state = match &res.task_execution_error {
            Some(m) => State::Failed(String::from_str(m.as_str())),
            None => {
                match classify_code(
                    &self.job.tasks[t].on_result.continue_job,
                    &self.job.tasks[t].on_result.terminate_job,
                    res.return_code,
                ) {
                    CodeClass::Continue => State::Success,
                    CodeClass::TerminateEarly => State::SuccessNoop,
                    CodeClass::Unrecognized => {
                        let num = i64_to_string(res.return_code as i64);
                        let mut m = String::from_str("return code ");
                        m.append(num.as_str());
                        m.append(" not recognized");
                        proof {
                            reveal_strlit("return code ");
                            reveal_strlit(" not recognized");
                            assert(m@ =~= spec_unrecognized_msg(res.return_code));
                        }
                        State::Failed(m)
                    },
                }
            },
        };
        let nm = self.records[t].name.clone();
        let rs = self.records[t].run_started.clone();
        proof {
            assert(rs == old_records[t as int].run_started);
        }
        let ghost before = self.records@;
        self.records[t] = TaskRecord { name: nm, state, run_started: rs, run_result: Some(res) };
        proof {
            assert(self.records@ =~= before.update(t as int, self.records@[t as int]));
        }
        self.events.push(ExecutionEvent::TaskFinished(t));
        proof {
            let records = self.records@;
            let events = self.events@;
            assert(events =~= old_events.push(ExecutionEvent::TaskFinished(t)));
            assert(spec_ran(records[t as int].state));
            // the finished task has no dependent that already started:
            // every dependent sits in a strictly later, still-waiting level
            assert forall|u: int|
                0 <= u < n && spec_edge(tasks, t as int, u) implies (old_records[u].state
                is Waiting || old_records[u].state is Skipped) by {
                assert(old(self).selected@[t as int]);
                assert(old(self).selected@[u]);
                assert(spec_in_level(plan, lvl, t as int));
                let p0 = choose|p0: int| 0 <= p0 < plan[lvl]@.len() && plan[lvl]@[p0] == t as int;
                let (lu, pu) = choose|lu: int, pu: int|
                    0 <= lu < plan.len() && 0 <= pu < plan[lu]@.len() && plan[lu]@[pu] == u;
                let d = choose|d: int|
                    0 <= d < tasks[u].depends_on@.len() && spec_is_first_index_of(
                        tasks,
                        tasks[u].depends_on@[d]@,
                        t as int,
                    );
                assert(spec_in_levels_before(plan, lu, t as int));
                let (l3, p3) = choose|l3: int, p3: int|
                    0 <= l3 < lu && l3 < plan.len() && 0 <= p3 < plan[l3]@.len() && plan[l3]@[p3]
                        == t as int;
                assert(l3 == lvl && p3 == p0);
                assert(lu > lvl);
            }
            // event clauses
            assert forall|j: int|
                0 <= j < events.len() && events[j] is TaskStarted implies 0
                <= events[j]->TaskStarted_0 < n && (records[events[j]->TaskStarted_0 as int].state
                is Running || spec_ran(records[events[j]->TaskStarted_0 as int].state)) by {
                assert(j < old_events.len());
                assert(events[j] == old_events[j]);
                let u = events[j]->TaskStarted_0 as int;
                if u == t as int {
                } else {
                    assert(records[u] == old_records[u]);
                }
            }
            assert forall|j: int|
                0 <= j < events.len() && events[j] is TaskFinished implies 0
                <= events[j]->TaskFinished_0 < n && spec_ran(
                records[events[j]->TaskFinished_0 as int].state,
            ) by {
                if j < old_events.len() {
                    assert(events[j] == old_events[j]);
                    let u = events[j]->TaskFinished_0 as int;
                    if u != t as int {
                        assert(records[u] == old_records[u]);
                    }
                }
            }
            assert forall|i: int, j: int|
                0 <= i < events.len() && 0 <= j < events.len() && events[i] is TaskFinished
                    && events[j] is TaskStarted && spec_edge(
                    tasks,
                    events[i]->TaskFinished_0 as int,
                    events[j]->TaskStarted_0 as int,
                ) implies i < j by {
                assert(j < old_events.len());
                if i < old_events.len() {
                    assert(events[i] == old_events[i]);
                } else {
                    // the new finish event: its task has no started dependent
                    let u = events[j]->TaskStarted_0 as int;
                    assert(events[i]->TaskFinished_0 == t);
                    assert(old_records[u].state is Waiting || old_records[u].state is Skipped);
                    assert(old_events[j] is TaskStarted);
                    assert(false);
                }
            }
            // skipped tasks and their origins are untouched, or the origin
            // is the newly failed task itself
            assert forall|u: int|
                0 <= u < n && records[u].state is Skipped implies exists|o: int|
                0 <= o < n && o != u && (records[o].state is Failed || records[o].state
                    is SuccessNoop) && spec_reaches(tasks, o, u) by {
                assert(u != t as int);
                assert(records[u] == old_records[u]);
                let o = choose|o: int|
                    0 <= o < n && o != u && (old_records[o].state is Failed || old_records[o].state
                        is SuccessNoop) && spec_reaches(tasks, o, u);
                if o != t as int {
                    assert(records[o] == old_records[o]);
                } else {
                    assert(old_records[o].state is Running);
                    assert(false);
                }
            }
            // running tasks still sit in the dispatched level
            assert forall|u: int|
                0 <= u < self.job.tasks@.len() && self.records@[u].state is Running
                    implies self.dispatched && self.level < self.plan@.len() && spec_in_level(
                    self.plan@,
                    self.level as int,
                    u,
                ) by {
                assert(u != t as int);
                assert(self.records@[u] == old_records[u]);
                assert(old(self).records@[u].state is Running);
                assert(spec_in_level(old(self).plan@, old(self).level as int, u));
                assert(old(self).level < old(self).plan@.len());
            }
            // the finished task was selected and sits in the dispatched
            // level only, so other levels keep their waiting shape
            assert(old(self).selected@[t as int]);
            assert(spec_in_level(plan, lvl, t as int));
            let p0 = choose|p0: int| 0 <= p0 < plan[lvl]@.len() && plan[lvl]@[p0] == t as int;
            assert forall|l: int, p: int|
                0 <= l < plan.len() && 0 <= p < plan[l]@.len() && l != lvl
                    implies self.records@[plan[l]@[p] as int] == old_records[plan[l]@[p] as int] by {
                let u = plan[l]@[p] as int;
                if u == t as int {
                    assert(plan[l]@[p] == plan[lvl]@[p0]);
                    assert(false);
                }
            }
            assert(self.inv());
        }
    }

    /// Settles the dispatched level once every task of it has finished:
    /// every still-waiting descendant of a failed or early-finished task
    /// is rewritten to `Skipped` naming such an ancestor, the level
    /// advances, and the next level is ready for dispatch.
    #[verifier::rlimit(100)]
    pub fn settle_level(&mut self)
        requires
            old(self).inv(),
            old(self).dispatched,
            old(self).level < old(self).plan@.len(),
            forall|p: int|
                0 <= p < old(self).plan@[old(self).level as int]@.len() ==> !(old(
                    self,
                ).records@[old(self).plan@[old(self).level as int]@[p] as int].state is Running),
        ensures
            final(self).inv(),
            final(self).job == old(self).job,
            final(self).plan == old(self).plan,
            final(self).selected == old(self).selected,
            final(self).level == old(self).level + 1,
            !final(self).dispatched,
            final(self).events@ == old(self).events@,
            final(self).records@.len() == old(self).records@.len(),
            // exactly the waiting descendants of a failed or
            // early-finished task are skipped; everything else stays
            forall|t: int|
                0 <= t < old(self).records@.len() ==> if old(self).records@[t].state is Waiting
                    && spec_has_bad_ancestor(old(self).job.tasks@, old(self).records@, t) {
                    spec_skipped_record(
                        old(self).job.tasks@,
                        old(self).records@,
                        final(self).records@[t],
                        old(self).records@[t],
                        t,
                    )
                } else {
                    final(self).records@[t] == old(self).records@[t]
                },
    {
        let ghost tasks = self.job.tasks@;
        let n = self.job.tasks.len();
        let ghost plan = self.plan@;
        let ghost lvl = self.level as int;
        let ghost old_records = self.records@;
        let ghost old_events = self.events@;
        let mut o: usize = 0;
        while o < n
            invariant
                0 <= o <= n,
                old(self).inv(),
                old(self).dispatched,
                old(self).level < old(self).plan@.len(),
                forall|p: int|
                    0 <= p < old(self).plan@[old(self).level as int]@.len() ==> !(old(
                        self,
                    ).records@[old(self).plan@[old(self).level as int]@[p] as int].state
                        is Running),
                self.job == old(self).job,
                self.plan == old(self).plan,
                self.selected == old(self).selected,
                self.level == old(self).level,
                self.dispatched == old(self).dispatched,
                self.events@ == old_events,
                self.records@.len() == n,
                tasks == self.job.tasks@,
                n == tasks.len(),
                old_records == old(self).records@,
                old_records.len() == n,
                forall|u: int|
                    0 <= u < n ==> if spec_should_skip_upto(tasks, old_records, u, o as int, 0) {
                        spec_skipped_record(tasks, old_records, self.records@[u], old_records[u], u)
                    } else {
                        self.records@[u] == old_records[u]
                    },
            decreases n - o,
        {
            let is_bad = matches!(
                &self.records[o].state,
                State::Failed(_) | State::SuccessNoop
            );
            proof {
                // a bad record was never rewritten, so old and current
                // agree on who is bad
                if self.records@[o as int] != old_records[o as int] {
                    assert(spec_should_skip_upto(tasks, old_records, o as int, o as int, 0));
                    assert(self.records@[o as int].state is Skipped);
                }
                assert(is_bad == spec_bad_state(old_records[o as int].state));
            }
            if is_bad {
                let marked = self.job.reach_set(o);
                let nm = self.records[o].name.clone();
                let mut reason = String::from_str("skipped because of task '");
                reason.append(nm.as_str());
                reason.append("'");
                proof {
                    reveal_strlit("skipped because of task '");
                    reveal_strlit("'");
                    assert(self.records@[o as int].name == old_records[o as int].name);
                    assert(reason@ =~= spec_skip_reason(old_records[o as int].name@));
                }
                let mut u: usize = 0;
                while u < n
                    invariant
                        0 <= u <= n,
                        o < n,
                        old(self).inv(),
                        old(self).dispatched,
                        old(self).level < old(self).plan@.len(),
                        self.job == old(self).job,
                        self.plan == old(self).plan,
                        self.selected == old(self).selected,
                        self.level == old(self).level,
                        self.dispatched == old(self).dispatched,
                        self.events@ == old_events,
                        self.records@.len() == n,
                        tasks == self.job.tasks@,
                        n == tasks.len(),
                        old_records == old(self).records@,
                        old_records.len() == n,
                        marked@.len() == n,
                        spec_bad_state(old_records[o as int].state),
                        reason@ == spec_skip_reason(old_records[o as int].name@),
                        forall|v: int|
                            0 <= v < n ==> (marked@[v] <==> spec_reaches(tasks, o as int, v)),
                        forall|v: int|
                            0 <= v < n ==> if spec_should_skip_upto(
                                tasks,
                                old_records,
                                v,
                                o as int,
                                u as int,
                            ) {
                                spec_skipped_record(
                                    tasks,
                                    old_records,
                                    self.records@[v],
                                    old_records[v],
                                    v,
                                )
                            } else {
                                self.records@[v] == old_records[v]
                            },
                    decreases n - u,
                {
                    let do_skip = marked[u] && matches!(&self.records[u].state, State::Waiting);
                    if do_skip {
                        proof {
                            // a record still waiting was never rewritten
                            if self.records@[u as int] != old_records[u as int] {
                                assert(spec_should_skip_upto(
                                    tasks,
                                    old_records,
                                    u as int,
                                    o as int,
                                    u as int,
                                ));
                                assert(self.records@[u as int].state is Skipped);
                            }
                            assert(old(self).records@[u as int].state is Waiting);
                            assert(!spec_ran(old(self).records@[u as int].state));
                            assert(old_records[u as int].run_started is None);
                            assert(old_records[u as int].run_result is None);
                        }
                        let nm2 = self.records[u].name.clone();
                        let ghost before = self.records@;
                        self.records[u] = TaskRecord {
                            name: nm2,
                            state: State::Skipped(reason.clone()),
                            run_started: None,
                            run_result: None,
                        };
                        proof {
                            assert(self.records@ =~= before.update(
                                u as int,
                                self.records@[u as int],
                            ));
                            assert(spec_skipped_record(
                                tasks,
                                old_records,
                                self.records@[u as int],
                                old_records[u as int],
                                u as int,
                            ));
                        }
                    }
                    u = u + 1;
                    proof {
                        assert forall|v: int|
                            0 <= v < n implies if spec_should_skip_upto(
                            tasks,
                            old_records,
                            v,
                            o as int,
                            u as int,
                        ) {
                            spec_skipped_record(
                                tasks,
                                old_records,
                                self.records@[v],
                                old_records[v],
                                v,
                            )
                        } else {
                            self.records@[v] == old_records[v]
                        } by {
                            if v == u - 1 {
                                if spec_should_skip_upto(tasks, old_records, v, o as int, u as int)
                                    && !spec_should_skip_upto(
                                    tasks,
                                    old_records,
                                    v,
                                    o as int,
                                    u as int - 1,
                                ) {
                                    assert(spec_reaches(tasks, o as int, v));
                                    assert(marked@[v]);
                                }
                            }
                        }
                    }
                }
                proof {
                    assert forall|v: int|
                        0 <= v < n implies spec_should_skip_upto(
                        tasks,
                        old_records,
                        v,
                        o as int + 1,
                        0,
                    ) == spec_should_skip_upto(tasks, old_records, v, o as int, n as int) by {}
                }
            } else {
                proof {
                    assert forall|v: int|
                        0 <= v < n implies spec_should_skip_upto(
                        tasks,
                        old_records,
                        v,
                        o as int + 1,
                        0,
                    ) == spec_should_skip_upto(tasks, old_records, v, o as int, 0) by {}
                }
            }
            o = o + 1;
        }
        let plan_len = self.plan.len();
        proof {
            assert(self.level < plan_len);
        }
        self.level = self.level + 1;
        self.dispatched = false;
        proof {
            let records = self.records@;
            // the bound now covers every possible origin
            assert forall|v: int|
                0 <= v < n implies spec_should_skip_upto(tasks, old_records, v, n as int, 0) == (
            old_records[v].state is Waiting && spec_has_bad_ancestor(tasks, old_records, v)) by {}
            // selected tasks only are ever skipped: a bad origin ran, so
            // it is selected, and selection is closed under reachability
            assert forall|v: int|
                0 <= v < n && !self.selected@[v] implies records[v] == old_records[v] by {
                if records[v] != old_records[v] {
                    let oo = choose|oo: int|
                        0 <= oo < n && spec_bad_state(old_records[oo].state) && spec_reaches(
                            tasks,
                            oo,
                            v,
                        );
                    assert(old(self).selected@[oo]);
                    let k = choose|k: nat| spec_path_to(tasks, oo, v, k);
                    lemma_selected_closed_under_paths(tasks, old(self).selected@, oo, v, k);
                    assert(false);
                }
            }
            // no task is running any more
            assert forall|v: int| 0 <= v < n implies !(records[v].state is Running) by {
                if records[v] == old_records[v] {
                    if old_records[v].state is Running {
                        assert(spec_in_level(plan, lvl, v));
                        let p = choose|p: int|
                            0 <= p < plan[lvl]@.len() && plan[lvl]@[p] == v;
                        assert(false);
                    }
                }
            }
            // level tasks were settled already and stay untouched
            assert forall|l: int, p: int|
                0 <= l < plan.len() && 0 <= p < plan[l]@.len() && l < self.level
                    implies spec_settled(records[plan[l]@[p] as int].state) by {
                let v = plan[l]@[p] as int;
                if records[v] == old_records[v] {
                    if l < lvl {
                    } else {
                        assert(l == lvl);
                        assert(!(old_records[v].state is Waiting));
                        assert(!(old_records[v].state is Running));
                    }
                } else {
                    assert(records[v].state is Skipped);
                }
            }
            // every event clause survives: changed records were waiting,
            // and waiting tasks are named by no event
            assert forall|j: int|
                0 <= j < old_events.len() && old_events[j] is TaskStarted implies 0 <= old_events[j]->TaskStarted_0
                < n && (records[old_events[j]->TaskStarted_0 as int].state is Running || spec_ran(
                records[old_events[j]->TaskStarted_0 as int].state,
            )) by {
                let v = old_events[j]->TaskStarted_0 as int;
                if records[v] != old_records[v] {
                    assert(old_records[v].state is Waiting);
                    assert(false);
                }
            }
            assert forall|j: int|
                0 <= j < old_events.len() && old_events[j] is TaskFinished implies 0 <= old_events[j]->TaskFinished_0
                < n && spec_ran(records[old_events[j]->TaskFinished_0 as int].state) by {
                let v = old_events[j]->TaskFinished_0 as int;
                if records[v] != old_records[v] {
                    assert(old_records[v].state is Waiting);
                    assert(false);
                }
            }
            // each skipped record keeps or gains a bad ancestor
            assert forall|v: int|
                0 <= v < n && records[v].state is Skipped implies exists|oo: int|
                0 <= oo < n && oo != v && (records[oo].state is Failed || records[oo].state
                    is SuccessNoop) && spec_reaches(tasks, oo, v) by {
                if records[v] == old_records[v] {
                    let oo = choose|oo: int|
                        0 <= oo < n && oo != v && (old_records[oo].state is Failed
                            || old_records[oo].state is SuccessNoop) && spec_reaches(
                            tasks,
                            oo,
                            v,
                        );
                    assert(records[oo] == old_records[oo]);
                } else {
                    let oo = choose|oo: int|
                        0 <= oo < n && spec_bad_state(old_records[oo].state) && spec_reaches(
                            tasks,
                            oo,
                            v,
                        );
                    assert(records[oo] == old_records[oo]);
                    assert(oo != v);
                }
            }
            assert(self.inv());
        }
    }

    /// Whether any task's record stands in `Failed`.
    pub fn has_failed_task(&self) -> (r: bool)
        ensures
            r == spec_any_failed(self.records@),
    {
        let mut i: usize = 0;
        while i < self.records.len()
            invariant
                0 <= i <= self.records@.len(),
                forall|u: int| 0 <= u < i ==> !(self.records@[u].state is Failed),
            decreases self.records@.len() - i,
        {
            if matches!(&self.records[i].state, State::Failed(_)) {
                return true;
            }
            i = i + 1;
        }
        false
    }

    /// Whether any task asked for a controlled early finish.
    pub fn has_early_finish(&self) -> (r: bool)
        ensures
            r == spec_any_noop(self.records@),
    {
        let mut i: usize = 0;
        while i < self.records.len()
            invariant
                0 <= i <= self.records@.len(),
                forall|u: int| 0 <= u < i ==> !(self.records@[u].state is SuccessNoop),
            decreases self.records@.len() - i,
        {
            if matches!(&self.records[i].state, State::SuccessNoop) {
                return true;
            }
            i = i + 1;
        }
        false
    }

    /// The process exit code a finished run earns: failed tasks make the
    /// run an execution error; success and controlled early finish both
    /// exit cleanly.
    pub fn run_exit_code(&self) -> (r: i32)
        ensures
            r == if spec_any_failed(self.records@) {
                crate::PROC_EXEC_ERROR
            } else {
                crate::PROC_SUCCESS
            },
    {
        if self.has_failed_task() {
            crate::PROC_EXEC_ERROR
        } else {
            crate::PROC_SUCCESS
        }
    }

    /// Drives a fresh run to completion with the simulation strategy:
    /// every task reports an instant clean exit. On a job whose every
    /// task continues on return code zero — what the dry-run override
    /// guarantees — every selected task finishes `Success`, nothing
    /// fails, noops or is skipped, and the exit code is clean.
    #[verifier::rlimit(100)]
    pub fn run_simulation(&mut self)
        requires
            old(self).inv(),
            !old(self).dispatched,
            forall|t: int|
                0 <= t < old(self).records@.len() ==> old(self).records@[t].state is Waiting,
            forall|t: int|
                0 <= t < old(self).job.tasks@.len() ==> spec_contains_code(
                    old(self).job.tasks@[t].on_result.continue_job@,
                    0,
                ),
        ensures
            final(self).inv(),
            final(self).job == old(self).job,
            final(self).plan == old(self).plan,
            final(self).selected == old(self).selected,
            final(self).level == final(self).plan@.len(),
            !spec_any_failed(final(self).records@),
            !spec_any_noop(final(self).records@),
            forall|t: int|
                0 <= t < final(self).records@.len() && final(self).selected@[t]
                    ==> final(self).records@[t].state is Success,
            forall|t: int|
                0 <= t < final(self).records@.len() && !final(self).selected@[t]
                    ==> final(self).records@[t].state is Waiting,
    {
        let ghost tasks = self.job.tasks@;
        let ghost n = tasks.len();
        while !(self.level >= self.plan.len())
            invariant
                self.inv(),
                !self.dispatched,
                self.job == old(self).job,
                self.plan == old(self).plan,
                self.selected == old(self).selected,
                tasks == self.job.tasks@,
                n == tasks.len(),
                forall|t: int|
                    0 <= t < n ==> spec_contains_code(tasks[t].on_result.continue_job@, 0),
                forall|t: int|
                    0 <= t < n ==> (self.records@[t].state is Waiting || self.records@[t].state
                        is Success),
                forall|t: int| 0 <= t < n && !self.selected@[t] ==> self.records@[t].state is Waiting,
            decreases self.plan@.len() - self.level,
        {
            let started = self.start_level("");
            let ghost lvl = self.level as int;
            let mut i: usize = 0;
            while i < started.len()
                invariant
                    0 <= i <= started@.len(),
                    self.inv(),
                    self.dispatched,
                    self.level < self.plan@.len(),
                    self.job == old(self).job,
                    self.plan == old(self).plan,
                    self.selected == old(self).selected,
                    tasks == self.job.tasks@,
                    n == tasks.len(),
                    lvl == self.level as int,
                    forall|t: int|
                        0 <= t < n ==> spec_contains_code(tasks[t].on_result.continue_job@, 0),
                    forall|q: int|
                        0 <= q < started@.len() ==> 0 <= #[trigger] started@[q] < n,
                    forall|q1: int, q2: int|
                        0 <= q1 < q2 < started@.len() ==> started@[q1] != started@[q2],
                    forall|q: int|
                        0 <= q < i ==> self.records@[started@[q] as int].state is Success,
                    forall|q: int|
                        i <= q < started@.len() ==> self.records@[started@[q] as int].state
                            is Running,
                    forall|t: int|
                        0 <= t < n ==> (self.records@[t].state is Waiting || self.records@[t].state
                            is Success || self.records@[t].state is Running),
                    forall|t: int|
                        0 <= t < n && !self.selected@[t] ==> self.records@[t].state is Waiting,
                decreases started@.len() - i,
            {
                let t = started[i];
                let res = simulated_run_result();
                proof {
                    assert(self.records@[t as int].state is Running);
                    assert(spec_classify(
                        tasks[t as int].on_result.continue_job@,
                        tasks[t as int].on_result.terminate_job@,
                        0,
                    ) == CodeClass::Continue);
                }
                self.finish_task(t, res);
                proof {
                    assert(self.records@[t as int].state is Success);
                }
                i = i + 1;
            }
            proof {
                // every task of the level has settled: the waiting ones
                // were started and finished, the rest never ran
                assert forall|p: int|
                    0 <= p < self.plan@[lvl]@.len() implies !(
                self.records@[self.plan@[lvl]@[p] as int].state is Running) by {
                    let u = self.plan@[lvl]@[p] as int;
                    if self.records@[u].state is Running {
                        let q = choose|q: int|
                            0 <= q < started@.len() && i <= q && started@[q] == u;
                    }
                }
            }
            self.settle_level();
            proof {
                // no task failed or asked to stop, so nothing is skipped
                assert forall|t: int|
                    0 <= t < n implies (self.records@[t].state is Waiting
                        || self.records@[t].state is Success) by {}
            }
        }
        proof {
            // at the end every selected task sits in a past level and is
            // settled, and the only settled state left is success
            assert forall|t: int|
                0 <= t < n && self.selected@[t] implies self.records@[t].state is Success by {
                assert(crate::graph::spec_in_levels(self.plan@, t));
                let (l, p) = choose|l: int, p: int|
                    0 <= l < self.plan@.len() && 0 <= p < self.plan@[l]@.len()
                        && self.plan@[l]@[p] == t;
                assert(spec_settled(self.records@[t].state));
            }
        }
    }

    /// Law: every skipped task has an ancestor that failed or asked
    /// for an early finish.
    pub proof fn law_skipped_has_bad_ancestor(self, t: int)
        requires
            self.inv(),
            0 <= t < self.records@.len(),
            self.records@[t].state is Skipped,
        ensures
            exists|o: int|
                0 <= o < self.records@.len() && o != t && (self.records@[o].state is Failed
                    || self.records@[o].state is SuccessNoop) && spec_reaches(
                    self.job.tasks@,
                    o,
                    t,
                ),
    {
    }

    /// Law: across every dependency edge, the finish event of the
    /// prerequisite is delivered before the start event of the dependent.
    pub proof fn law_finish_delivered_before_dependent_start(self, i: int, j: int)
        requires
            self.inv(),
            0 <= i < self.events@.len(),
            0 <= j < self.events@.len(),
            self.events@[i] is TaskFinished,
            self.events@[j] is TaskStarted,
            spec_edge(
                self.job.tasks@,
                self.events@[i]->TaskFinished_0 as int,
                self.events@[j]->TaskStarted_0 as int,
            ),
        ensures
            i < j,
    {
    }

    /// Law: a record holds a run result exactly when its task ran to an
    /// end (success, early finish, or failure); skipped and waiting tasks
    /// hold none.
    pub proof fn law_result_present_iff_ran(self, t: int)
        requires
            self.inv(),
            0 <= t < self.records@.len(),
        ensures
            self.records@[t].run_result is Some <==> spec_ran(self.records@[t].state),
    {
    }
}

} // verus!
