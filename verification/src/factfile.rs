//! The in-memory job model: a named collection of task specifications
//! related by dependency names. The graph is held as an arena (a vector of
//! task specs); edges are pairs of indices resolved through task names.

use vstd::prelude::*;
use crate::classify::spec_contains_code;

verus! {

/// Return-code classification of one task: two disjoint sets of codes.
#[derive(Clone, Debug)]
pub struct OnResult {
    /// Codes on which the task counts as succeeded and the job continues.
    pub continue_job: Vec<i32>,
    /// Codes on which the task succeeded but requests an early finish.
    pub terminate_job: Vec<i32>,
}

/// One task of a job: a shell-invocable command with its dependencies and
/// its return-code classification. Immutable after load.
#[derive(Clone, Debug)]
pub struct TaskSpec {
    pub name: String,
    pub depends_on: Vec<String>,
    pub executor: String,
    pub command: String,
    pub arguments: Vec<String>,
    pub on_result: OnResult,
}

/// A job: its name, the raw document it was loaded from (kept verbatim for
/// webhook payloads), and its tasks.
#[derive(Clone, Debug)]
pub struct Factfile {
    pub name: String,
    pub raw: String,
    pub tasks: Vec<TaskSpec>,
}

/// Content equality of two string lists, character for character.
pub open spec fn spec_strvec_eq(a: Seq<String>, b: Seq<String>) -> bool {
    a.len() == b.len() && forall|i: int| 0 <= i < a.len() ==> a[i]@ == b[i]@
}

/// Content equality of two task specs: every field agrees, by view.
pub open spec fn spec_task_eq(a: TaskSpec, b: TaskSpec) -> bool {
    &&& a.name@ == b.name@
    &&& spec_strvec_eq(a.depends_on@, b.depends_on@)
    &&& a.executor@ == b.executor@
    &&& a.command@ == b.command@
    &&& spec_strvec_eq(a.arguments@, b.arguments@)
    &&& a.on_result.continue_job@ == b.on_result.continue_job@
    &&& a.on_result.terminate_job@ == b.on_result.terminate_job@
}

/// `i` is the first index in `tasks` whose task is named `name`.
pub open spec fn spec_is_first_index_of(tasks: Seq<TaskSpec>, name: Seq<char>, i: int) -> bool {
    &&& 0 <= i < tasks.len()
    &&& tasks[i].name@ == name
    &&& forall|j: int| 0 <= j < i ==> tasks[j].name@ != name
}

/// Some task in `tasks` is named `name`.
pub open spec fn spec_has_task(tasks: Seq<TaskSpec>, name: Seq<char>) -> bool {
    exists|i: int| 0 <= i < tasks.len() && tasks[i].name@ == name
}

/// Dependency edge: `t` names the task at `m` (resolved to the first task
/// carrying that name) in its `depends_on` list; `m` must run before `t`.
pub open spec fn spec_edge(tasks: Seq<TaskSpec>, m: int, t: int) -> bool {
    &&& 0 <= t < tasks.len()
    &&& exists|d: int|
        0 <= d < tasks[t].depends_on@.len() && spec_is_first_index_of(
            tasks,
            tasks[t].depends_on@[d]@,
            m,
        )
}

/// Task names are pairwise distinct.
pub open spec fn spec_names_unique(tasks: Seq<TaskSpec>) -> bool {
    forall|i: int, j: int|
        0 <= i < tasks.len() && 0 <= j < tasks.len() && i != j ==> tasks[i].name@ != tasks[j].name@
}

/// Every `depends_on` entry names some task of the job.
pub open spec fn spec_deps_exist(tasks: Seq<TaskSpec>) -> bool {
    forall|t: int, d: int|
        0 <= t < tasks.len() && 0 <= d < tasks[t].depends_on@.len() ==> spec_has_task(
            tasks,
            tasks[t].depends_on@[d]@,
        )
}

/// For every task, `continue_job` and `terminate_job` share no code.
pub open spec fn spec_classifications_disjoint(tasks: Seq<TaskSpec>) -> bool {
    forall|t: int|
        0 <= t < tasks.len() ==> forall|c: i32|
            !(spec_contains_code(#[trigger] tasks[t].on_result.continue_job@, c)
                && spec_contains_code(tasks[t].on_result.terminate_job@, c))
}

impl Factfile {
    /// An empty job with the given raw document and name.
    pub fn new(raw: &str, name: &str) -> (r: Factfile)
        ensures
            r.name@ == name@,
            r.raw@ == raw@,
            r.tasks@.len() == 0,
    {
        Factfile { name: String::from_str(name), raw: String::from_str(raw), tasks: Vec::new() }
    }

    /// Appends a task built from its parts. No validation happens here;
    /// loading validates the whole job at once.
    pub fn add_task(
        &mut self,
        name: &str,
        depends_on: &Vec<String>,
        executor: &str,
        command: &str,
        arguments: &Vec<String>,
        continue_job: &Vec<i32>,
        terminate_job: &Vec<i32>,
    )
        ensures
            final(self).name == old(self).name,
            final(self).raw == old(self).raw,
            final(self).tasks@.len() == old(self).tasks@.len() + 1,
            final(self).tasks@.subrange(0, old(self).tasks@.len() as int) == old(self).tasks@,
            final(self).tasks@.last().name@ == name@,
            spec_strvec_eq(final(self).tasks@.last().depends_on@, depends_on@),
            final(self).tasks@.last().executor@ == executor@,
            final(self).tasks@.last().command@ == command@,
            spec_strvec_eq(final(self).tasks@.last().arguments@, arguments@),
            final(self).tasks@.last().on_result.continue_job@ == continue_job@,
            final(self).tasks@.last().on_result.terminate_job@ == terminate_job@,
    {
        let spec = TaskSpec {
            name: String::from_str(name),
            depends_on: depends_on.clone(),
            executor: String::from_str(executor),
            command: String::from_str(command),
            arguments: arguments.clone(),
            on_result: OnResult {
                continue_job: continue_job.clone(),
                terminate_job: terminate_job.clone(),
            },
        };
        self.tasks.push(spec);
        assert(self.tasks@.subrange(0, old(self).tasks@.len() as int) =~= old(self).tasks@);
    }

    /// Appends a copy of a ready-made task spec.
    pub fn add_task_obj(&mut self, task: &TaskSpec)
        ensures
            final(self).name == old(self).name,
            final(self).raw == old(self).raw,
            final(self).tasks@.len() == old(self).tasks@.len() + 1,
            final(self).tasks@.subrange(0, old(self).tasks@.len() as int) == old(self).tasks@,
            spec_task_eq(final(self).tasks@.last(), *task),
    {
        let copy = TaskSpec {
            name: task.name.clone(),
            depends_on: task.depends_on.clone(),
            executor: task.executor.clone(),
            command: task.command.clone(),
            arguments: task.arguments.clone(),
            on_result: OnResult {
                continue_job: task.on_result.continue_job.clone(),
                terminate_job: task.on_result.terminate_job.clone(),
            },
        };
        self.tasks.push(copy);
        assert(self.tasks@.subrange(0, old(self).tasks@.len() as int) =~= old(self).tasks@);
    }

    /// Finds the first task carrying `name`.
    pub fn index_of_task(&self, name: &str) -> (r: Option<usize>)
        ensures
            match r {
                Some(i) => spec_is_first_index_of(self.tasks@, name@, i as int),
                None => !spec_has_task(self.tasks@, name@),
            },
    {
        let mut i: usize = 0;
        while i < self.tasks.len()
            invariant
                0 <= i <= self.tasks@.len(),
                forall|j: int| 0 <= j < i ==> self.tasks@[j].name@ != name@,
            decreases self.tasks@.len() - i,
        {
            if crate::strings::str_eq(self.tasks[i].name.as_str(), name) {
                return Some(i);
            }
            i = i + 1;
        }
        None
    }

    /// Whether some task carries `name`.
    pub fn has_task(&self, name: &str) -> (r: bool)
        ensures
            r == spec_has_task(self.tasks@, name@),
    {
        self.index_of_task(name).is_some()
    }

    /// Checks the structural invariants a loaded job must satisfy,
    /// reporting the first violation: task names are unique, every
    /// dependency names a task of the job, and no task's continue and
    /// terminate classifications share a return code.
    pub fn validate(&self) -> (r: Result<(), &'static str>)
        ensures
            match r {
                Ok(()) => spec_names_unique(self.tasks@) && spec_deps_exist(self.tasks@)
                    && spec_classifications_disjoint(self.tasks@),
                Err(m) => {
                    ||| (m@ == "duplicate task name"@ && !spec_names_unique(self.tasks@))
                    ||| (m@ == "unknown dependency"@ && spec_names_unique(self.tasks@)
                        && !spec_deps_exist(self.tasks@))
                    ||| (m@ == "continue_job and terminate_job overlap"@ && spec_names_unique(
                        self.tasks@,
                    ) && spec_deps_exist(self.tasks@) && !spec_classifications_disjoint(
                        self.tasks@,
                    ))
                },
            },
    {
        let ghost tasks = self.tasks@;
        let n = self.tasks.len();
        let mut i: usize = 0;
        while i < n
            invariant
                0 <= i <= n,
                n == tasks.len(),
                tasks == self.tasks@,
                forall|i2: int, j2: int|
                    0 <= j2 < i2 < i ==> tasks[i2].name@ != tasks[j2].name@,
            decreases n - i,
        {
            let mut j: usize = 0;
            while j < i
                invariant
                    0 <= j <= i < n,
                    n == tasks.len(),
                    tasks == self.tasks@,
                    forall|j2: int| 0 <= j2 < j ==> tasks[i as int].name@ != tasks[j2].name@,
                decreases i - j,
            {
                if crate::strings::str_eq(self.tasks[i].name.as_str(), self.tasks[j].name.as_str())
                {
                    return Err("duplicate task name");
                }
                j = j + 1;
            }
            i = i + 1;
        }
        assert(spec_names_unique(tasks));
        let mut t: usize = 0;
        while t < n
            invariant
                0 <= t <= n,
                n == tasks.len(),
                tasks == self.tasks@,
                spec_names_unique(tasks),
                forall|t2: int, d2: int|
                    0 <= t2 < t && 0 <= d2 < tasks[t2].depends_on@.len() ==> spec_has_task(
                        tasks,
                        tasks[t2].depends_on@[d2]@,
                    ),
            decreases n - t,
        {
            let deps_len = self.tasks[t].depends_on.len();
            let mut d: usize = 0;
            while d < deps_len
                invariant
                    0 <= d <= deps_len,
                    t < n,
                    n == tasks.len(),
                    tasks == self.tasks@,
                    spec_names_unique(tasks),
                    deps_len == tasks[t as int].depends_on@.len(),
                    forall|d2: int|
                        0 <= d2 < d ==> spec_has_task(tasks, tasks[t as int].depends_on@[d2]@),
                decreases deps_len - d,
            {
                if !self.has_task(self.tasks[t].depends_on[d].as_str()) {
                    return Err("unknown dependency");
                }
                d = d + 1;
            }
            t = t + 1;
        }
        assert(spec_deps_exist(tasks));
        let mut t2: usize = 0;
        while t2 < n
            invariant
                0 <= t2 <= n,
                n == tasks.len(),
                tasks == self.tasks@,
                spec_names_unique(tasks),
                spec_deps_exist(tasks),
                forall|t3: int|
                    0 <= t3 < t2 ==> forall|c: i32|
                        !(spec_contains_code(#[trigger] tasks[t3].on_result.continue_job@, c)
                            && spec_contains_code(tasks[t3].on_result.terminate_job@, c)),
            decreases n - t2,
        {
            let cont_len = self.tasks[t2].on_result.continue_job.len();
            let mut c: usize = 0;
            while c < cont_len
                invariant
                    0 <= c <= cont_len,
                    t2 < n,
                    n == tasks.len(),
                    tasks == self.tasks@,
                    cont_len == tasks[t2 as int].on_result.continue_job@.len(),
                    forall|c2: int|
                        0 <= c2 < c ==> !spec_contains_code(
                            tasks[t2 as int].on_result.terminate_job@,
                            tasks[t2 as int].on_result.continue_job@[c2],
                        ),
                    spec_names_unique(tasks),
                    spec_deps_exist(tasks),
                decreases cont_len - c,
            {
                let code = self.tasks[t2].on_result.continue_job[c];
                if crate::classify::contains_code(&self.tasks[t2].on_result.terminate_job, code) {
                    assert(spec_contains_code(tasks[t2 as int].on_result.continue_job@, code));
                    assert(!spec_classifications_disjoint(tasks));
                    return Err("continue_job and terminate_job overlap");
                }
                c = c + 1;
            }
            proof {
                assert forall|cd: i32|
                    !(spec_contains_code(#[trigger] tasks[t2 as int].on_result.continue_job@, cd)
                        && spec_contains_code(tasks[t2 as int].on_result.terminate_job@, cd)) by {
                    if spec_contains_code(tasks[t2 as int].on_result.continue_job@, cd)
                        && spec_contains_code(tasks[t2 as int].on_result.terminate_job@, cd) {
                        let c2 = choose|c2: int|
                            0 <= c2 < tasks[t2 as int].on_result.continue_job@.len()
                                && tasks[t2 as int].on_result.continue_job@[c2] == cd;
                        assert(false);
                    }
                }
            }
            t2 = t2 + 1;
        }
        assert(spec_classifications_disjoint(tasks));
        Ok(())
    }

    /// The dry-run override: a copy of the job whose every task
    /// continues exactly on return code zero and never asks for an
    /// early finish.
    pub fn with_continue_on_zero(&self) -> (r: Factfile)
        ensures
            r.name@ == self.name@,
            r.raw@ == self.raw@,
            r.tasks@.len() == self.tasks@.len(),
            forall|t: int|
                0 <= t < self.tasks@.len() ==> {
                    &&& (#[trigger] r.tasks@[t]).name == self.tasks@[t].name
                    &&& r.tasks@[t].depends_on@ == self.tasks@[t].depends_on@
                    &&& r.tasks@[t].executor == self.tasks@[t].executor
                    &&& r.tasks@[t].command == self.tasks@[t].command
                    &&& r.tasks@[t].arguments@ == self.tasks@[t].arguments@
                    &&& r.tasks@[t].on_result.continue_job@ == seq![0i32]
                    &&& r.tasks@[t].on_result.terminate_job@.len() == 0
                },
    {
        let mut out: Vec<TaskSpec> = Vec::new();
        let n = self.tasks.len();
        let mut i: usize = 0;
        while i < n
            invariant
                0 <= i <= n,
                n == self.tasks@.len(),
                out@.len() == i,
                forall|t: int|
                    0 <= t < i ==> {
                        &&& (#[trigger] out@[t]).name == self.tasks@[t].name
                        &&& out@[t].depends_on@ == self.tasks@[t].depends_on@
                        &&& out@[t].executor == self.tasks@[t].executor
                        &&& out@[t].command == self.tasks@[t].command
                        &&& out@[t].arguments@ == self.tasks@[t].arguments@
                        &&& out@[t].on_result.continue_job@ == seq![0i32]
                        &&& out@[t].on_result.terminate_job@.len() == 0
                    },
            decreases n - i,
        {
            let mut cont: Vec<i32> = Vec::new();
            cont.push(0);
            proof {
                assert(cont@ =~= seq![0i32]);
            }
            let src = &self.tasks[i];
            out.push(
                TaskSpec {
                    name: src.name.clone(),
                    depends_on: src.depends_on.clone(),
                    executor: src.executor.clone(),
                    command: src.command.clone(),
                    arguments: src.arguments.clone(),
                    on_result: OnResult { continue_job: cont, terminate_job: Vec::new() },
                },
            );
            proof {
                let t = i as int;
                assert forall|d: int| 0 <= d < out@[t].depends_on@.len() implies out@[t].depends_on@[d]
                    == self.tasks@[t].depends_on@[d] by {}
                assert(out@[t].depends_on@ =~= self.tasks@[t].depends_on@);
                assert forall|d: int| 0 <= d < out@[t].arguments@.len() implies out@[t].arguments@[d]
                    == self.tasks@[t].arguments@[d] by {}
                assert(out@[t].arguments@ =~= self.tasks@[t].arguments@);
            }
            i = i + 1;
        }
        Factfile {
            name: self.name.clone(),
            raw: self.raw.clone(),
            tasks: out,
        }
    }
}

} // verus!
