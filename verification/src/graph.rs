//! Graph analysis over the task arena: reachability along dependency
//! edges, start-point admissibility, and level-synchronous planning by
//! repeated extraction of dependency-free tasks.

use vstd::prelude::*;
use crate::factfile::{Factfile, TaskSpec, spec_edge, spec_is_first_index_of, spec_has_task};

verus! {

/// There is a path of at most `k` edges from `s` to `t` (every task
/// reaches itself).
pub open spec fn spec_path_to(tasks: Seq<TaskSpec>, s: int, t: int, k: nat) -> bool
    decreases k,
{
    if t == s && 0 <= s < tasks.len() {
        true
    } else if k == 0 {
        false
    } else {
        exists|m: int| spec_edge(tasks, m, t) && spec_path_to(tasks, s, m, (k - 1) as nat)
    }
}

/// `t` is `s` itself or a transitive descendant of `s`.
pub open spec fn spec_reaches(tasks: Seq<TaskSpec>, s: int, t: int) -> bool {
    exists|k: nat| spec_path_to(tasks, s, t, k)
}

/// How many entries of `s` are true.
pub closed spec fn count_true(s: Seq<bool>) -> nat
    decreases s.len(),
{
    if s.len() == 0 {
        0
    } else {
        count_true(s.drop_last()) + if s.last() {
            1nat
        } else {
            0nat
        }
    }
}

proof fn lemma_count_true_le_len(s: Seq<bool>)
    ensures
        count_true(s) <= s.len(),
    decreases s.len(),
{
    if s.len() > 0 {
        lemma_count_true_le_len(s.drop_last());
    }
}

/// Turning a false entry true raises the count by one.
proof fn lemma_count_true_update(s: Seq<bool>, i: int)
    requires
        0 <= i < s.len(),
        !s[i],
    ensures
        count_true(s.update(i, true)) == count_true(s) + 1,
    decreases s.len(),
{
    if i == s.len() - 1 {
        assert(s.update(i, true).drop_last() =~= s.drop_last());
    } else {
        assert(s.update(i, true).drop_last() =~= s.drop_last().update(i, true));
        lemma_count_true_update(s.drop_last(), i);
    }
}

/// Some task in `marked` is a resolved dependency of `t`.
fn has_marked_parent(ff: &Factfile, marked: &Vec<bool>, t: usize) -> (r: bool)
    requires
        marked@.len() == ff.tasks@.len(),
        t < ff.tasks@.len(),
    ensures
        r == exists|m: int| spec_edge(ff.tasks@, m, t as int) && marked@[m],
{
    let ghost tasks = ff.tasks@;
    let deps = &ff.tasks[t].depends_on;
    let mut d: usize = 0;
    while d < deps.len()
        invariant
            0 <= d <= deps@.len(),
            deps == ff.tasks@[t as int].depends_on,
            marked@.len() == ff.tasks@.len(),
            t < ff.tasks@.len(),
            tasks == ff.tasks@,
            forall|d2: int, m: int|
                0 <= d2 < d && spec_is_first_index_of(tasks, deps@[d2]@, m) ==> !marked@[m],
        decreases deps@.len() - d,
    {
        match ff.index_of_task(deps[d].as_str()) {
            Some(m) => {
                if marked[m] {
                    assert(spec_edge(tasks, m as int, t as int));
                    return true;
                }
                assert(forall|m2: int|
                    spec_is_first_index_of(tasks, deps@[d as int]@, m2) ==> m2 == m as int);
            },
            None => {
                assert(forall|m2: int| !spec_is_first_index_of(tasks, deps@[d as int]@, m2));
            },
        }
        d = d + 1;
    }
    assert forall|m: int| spec_edge(tasks, m, t as int) implies !marked@[m] by {
        let d2 = choose|d2: int|
            0 <= d2 < tasks[t as int].depends_on@.len() && spec_is_first_index_of(
                tasks,
                tasks[t as int].depends_on@[d2]@,
                m,
            );
    }
    false
}

/// A set of tasks closed under dependency edges is closed under whole
/// paths: whatever `s` reaches is in the set with it.
pub proof fn lemma_selected_closed_under_paths(
    tasks: Seq<TaskSpec>,
    marked: Seq<bool>,
    s: int,
    t: int,
    k: nat,
)
    requires
        marked.len() == tasks.len(),
        0 <= s < tasks.len(),
        marked[s],
        forall|m: int, u: int|
            0 <= u < tasks.len() && spec_edge(tasks, m, u) && marked[m] ==> marked[u],
        0 <= t < tasks.len(),
        spec_path_to(tasks, s, t, k),
    ensures
        marked[t],
    decreases k,
{
    if t == s {
    } else {
        let m = choose|m: int| spec_edge(tasks, m, t) && spec_path_to(tasks, s, m, (k - 1) as nat);
        lemma_selected_closed_under_paths(tasks, marked, s, m, (k - 1) as nat);
    }
}

impl Factfile {
    /// Marks exactly the tasks reachable from `s` along dependency edges,
    /// `s` included: the set a run started at `s` would execute.
    pub fn reach_set(&self, s: usize) -> (marked: Vec<bool>)
        requires
            s < self.tasks@.len(),
        ensures
            marked@.len() == self.tasks@.len(),
            forall|t: int|
                0 <= t < marked@.len() ==> (marked@[t] <==> spec_reaches(
                    self.tasks@,
                    s as int,
                    t as int,
                )),
    {
        let ghost tasks = self.tasks@;
        let n = self.tasks.len();
        let mut marked: Vec<bool> = Vec::new();
        let mut i: usize = 0;
        while i < n
            invariant
                0 <= i <= n,
                marked@.len() == i,
                forall|u: int| 0 <= u < i ==> !marked@[u],
            decreases n - i,
        {
            marked.push(false);
            i = i + 1;
        }
        marked[s] = true;
        proof {
            assert(spec_path_to(tasks, s as int, s as int, 0nat));
            lemma_count_true_le_len(marked@);
        }
        loop
            invariant
                marked@.len() == n,
                n == tasks.len(),
                s < n,
                tasks == self.tasks@,
                marked@[s as int],
                forall|u: int| 0 <= u < n && marked@[u] ==> spec_reaches(tasks, s as int, u),
            decreases n - count_true(marked@),
        {
            let ghost start_marked = marked@;
            let mut changed = false;
            let mut t: usize = 0;
            while t < n
                invariant
                    0 <= t <= n,
                    marked@.len() == n,
                    n == tasks.len(),
                    s < n,
                    tasks == self.tasks@,
                    marked@[s as int],
                    forall|u: int| 0 <= u < n && marked@[u] ==> spec_reaches(tasks, s as int, u),
                    forall|u: int| 0 <= u < n && start_marked[u] ==> marked@[u],
                    changed ==> count_true(marked@) > count_true(start_marked),
                    !changed ==> marked@ == start_marked,
                    !changed ==> forall|u: int|
                        0 <= u < t && !marked@[u] ==> !(exists|m: int|
                            spec_edge(tasks, m, u) && marked@[m]),
                decreases n - t,
            {
                if !marked[t] {
                    if has_marked_parent(self, &marked, t) {
                        proof {
                            let m = choose|m: int|
                                spec_edge(tasks, m, t as int) && marked@[m];
                            let k = choose|k: nat| spec_path_to(tasks, s as int, m, k);
                            assert(spec_path_to(tasks, s as int, t as int, (k + 1) as nat));
                            lemma_count_true_update(marked@, t as int);
                            if changed {
                            }
                        }
                        let ghost before = marked@;
                        marked[t] = true;
                        proof {
                            assert(marked@ =~= before.update(t as int, true));
                        }
                        changed = true;
                    }
                }
                t = t + 1;
            }
            if !changed {
                proof {
                    assert forall|u: int|
                        0 <= u < n && spec_reaches(tasks, s as int, u) implies marked@[u] by {
                        let k = choose|k: nat| spec_path_to(tasks, s as int, u, k);
                        lemma_selected_closed_under_paths(tasks, marked@, s as int, u, k);
                    }
                }
                return marked;
            }
            proof {
                lemma_count_true_le_len(marked@);
            }
        }
    }

    /// Starting at `s` is admissible when every resolved dependency of
    /// every strict descendant of `s` is itself in the started set.
    pub open spec fn spec_start_admissible(tasks: Seq<TaskSpec>, s: int) -> bool {
        forall|t: int, d: int|
            0 <= t < tasks.len() && t != s && spec_reaches(tasks, s, t) && 0 <= d
                < tasks[t].depends_on@.len() ==> exists|m: int|
                spec_is_first_index_of(tasks, #[trigger] tasks[t].depends_on@[d]@, m)
                    && spec_reaches(tasks, s, m)
    }

    /// Whether the job can be started at `start` without triggering tasks
    /// that are not descendants of `start`.
    pub fn can_job_run_from_task(&self, start: &str) -> (r: Result<bool, &'static str>)
        ensures
            match r {
                Ok(b) => spec_has_task(self.tasks@, start@) && exists|s: int|
                    spec_is_first_index_of(self.tasks@, start@, s) && b
                        == Self::spec_start_admissible(self.tasks@, s),
                Err(m) => !spec_has_task(self.tasks@, start@) && m@
                    == "the task specified could not be found"@,
            },
    {
        let ghost tasks = self.tasks@;
        let s = match self.index_of_task(start) {
            Some(s) => s,
            None => {
                return Err("the task specified could not be found");
            },
        };
        let n = self.tasks.len();
        let marked = self.reach_set(s);
        let mut t: usize = 0;
        while t < n
            invariant
                0 <= t <= n,
                n == tasks.len(),
                s < n,
                tasks == self.tasks@,
                marked@.len() == n,
                spec_is_first_index_of(tasks, start@, s as int),
                forall|u: int|
                    0 <= u < n ==> (marked@[u] <==> spec_reaches(tasks, s as int, u)),
                forall|t2: int, d2: int|
                    0 <= t2 < t && t2 != s && spec_reaches(tasks, s as int, t2) && 0 <= d2
                        < tasks[t2].depends_on@.len() ==> exists|m: int|
                        spec_is_first_index_of(tasks, #[trigger] tasks[t2].depends_on@[d2]@, m)
                            && spec_reaches(tasks, s as int, m),
            decreases n - t,
        {
            if marked[t] && t != s {
                let deps = &self.tasks[t].depends_on;
                let mut d: usize = 0;
                while d < deps.len()
                    invariant
                        0 <= d <= deps@.len(),
                        deps == self.tasks@[t as int].depends_on,
                        n == tasks.len(),
                        s < n,
                        t < n,
                        t != s,
                        marked@[t as int],
                        tasks == self.tasks@,
                        marked@.len() == n,
                        spec_is_first_index_of(tasks, start@, s as int),
                        forall|u: int|
                            0 <= u < n ==> (marked@[u] <==> spec_reaches(tasks, s as int, u)),
                        forall|d2: int|
                            0 <= d2 < d ==> exists|m: int|
                                spec_is_first_index_of(
                                    tasks,
                                    #[trigger] tasks[t as int].depends_on@[d2]@,
                                    m,
                                ) && spec_reaches(tasks, s as int, m),
                    decreases deps@.len() - d,
                {
                    match self.index_of_task(deps[d].as_str()) {
                        Some(m) => {
                            if !marked[m] {
                                proof {
                                    let tt = t as int;
                                    let dd = d as int;
                                    let dep = tasks[tt].depends_on@[dd]@;
                                    if Self::spec_start_admissible(tasks, s as int) {
                                        assert(0 <= tt < tasks.len() && tt != s as int
                                            && spec_reaches(tasks, s as int, tt) && 0 <= dd
                                            < tasks[tt].depends_on@.len());
                                        let m2 = choose|m2: int|
                                            spec_is_first_index_of(tasks, tasks[tt].depends_on@[dd]@, m2)
                                                && spec_reaches(tasks, s as int, m2);
                                        assert(m2 == m as int);
                                        assert(marked@[m2]);
                                        assert(false);
                                    }
                                }
                                return Ok(false);
                            }
                        },
                        None => {
                            proof {
                                let tt = t as int;
                                let dd = d as int;
                                if Self::spec_start_admissible(tasks, s as int) {
                                    assert(0 <= tt < tasks.len() && tt != s as int
                                        && spec_reaches(tasks, s as int, tt) && 0 <= dd
                                        < tasks[tt].depends_on@.len());
                                    let m2 = choose|m2: int|
                                        spec_is_first_index_of(tasks, tasks[tt].depends_on@[dd]@, m2)
                                            && spec_reaches(tasks, s as int, m2);
                                    assert(spec_is_first_index_of(tasks, tasks[tt].depends_on@[dd]@, m2));
                                    assert(false);
                                }
                            }
                            return Ok(false);
                        },
                    }
                    d = d + 1;
                }
            }
            t = t + 1;
        }
        proof {
            assert(spec_is_first_index_of(tasks, start@, s as int));
            assert(Self::spec_start_admissible(tasks, s as int));
        }
        Ok(true)
    }
}

/// `t` stands somewhere in `levels`.
pub open spec fn spec_in_levels(levels: Seq<Vec<usize>>, t: int) -> bool {
    exists|l: int, p: int|
        0 <= l < levels.len() && 0 <= p < levels[l]@.len() && levels[l]@[p] == t
}

/// `t` stands in a level strictly before `bound`.
pub open spec fn spec_in_levels_before(levels: Seq<Vec<usize>>, bound: int, t: int) -> bool {
    exists|l: int, p: int|
        0 <= l < bound && l < levels.len() && 0 <= p < levels[l]@.len() && levels[l]@[p] == t
}

/// Every selected, resolved dependency of `t` is already placed.
pub open spec fn spec_deps_placed(
    tasks: Seq<TaskSpec>,
    selected: Seq<bool>,
    placed: Seq<bool>,
    t: int,
) -> bool {
    forall|d: int, m: int|
        0 <= d < tasks[t].depends_on@.len() && #[trigger] spec_is_first_index_of(
            tasks,
            tasks[t].depends_on@[d]@,
            m,
        ) && selected[m] ==> placed[m]
}

/// What a produced plan promises: every entry is a selected task, no task
/// stands in two places, every level is nonempty, every selected task is
/// placed, and every selected resolved dependency of a task stands in a
/// strictly earlier level.
pub open spec fn spec_plan_ok(
    tasks: Seq<TaskSpec>,
    selected: Seq<bool>,
    levels: Seq<Vec<usize>>,
) -> bool {
    &&& forall|l: int, p: int|
        0 <= l < levels.len() && 0 <= p < levels[l]@.len() ==> 0 <= #[trigger] levels[l]@[p]
            < tasks.len() && selected[levels[l]@[p] as int]
    &&& forall|l1: int, p1: int, l2: int, p2: int|
        0 <= l1 < levels.len() && 0 <= p1 < levels[l1]@.len() && 0 <= l2 < levels.len() && 0 <= p2
            < levels[l2]@.len() && (l1 != l2 || p1 != p2) ==> #[trigger] levels[l1]@[p1]
            != #[trigger] levels[l2]@[p2]
    &&& forall|l: int| 0 <= l < levels.len() ==> levels[l]@.len() > 0
    &&& forall|t: int| 0 <= t < tasks.len() && selected[t] ==> spec_in_levels(levels, t)
    &&& forall|l: int, p: int, d: int, m: int|
        0 <= l < levels.len() && 0 <= p < levels[l]@.len() && 0 <= d
            < tasks[levels[l]@[p] as int].depends_on@.len() && #[trigger] spec_is_first_index_of(
            tasks,
            tasks[levels[l]@[p] as int].depends_on@[d]@,
            m,
        ) && selected[m] ==> spec_in_levels_before(levels, l, m)
}

/// A nonempty set of selected tasks, each of which has a selected,
/// resolved dependency inside the set again: the shape of a dependency
/// cycle (or of a knot that no schedule can untie).
pub open spec fn spec_blocked_set(
    tasks: Seq<TaskSpec>,
    selected: Seq<bool>,
    bad: Seq<bool>,
) -> bool {
    &&& bad.len() == tasks.len()
    &&& exists|u: int| 0 <= u < bad.len() && bad[u]
    &&& forall|u: int|
        0 <= u < bad.len() && bad[u] ==> selected[u] && exists|d: int, m: int|
            0 <= d < tasks[u].depends_on@.len() && #[trigger] spec_is_first_index_of(
                tasks,
                tasks[u].depends_on@[d]@,
                m,
            ) && selected[m] && bad[m]
}

/// No member of a blocked set stands in a level strictly before `l`:
/// each member would need another member strictly earlier still.
proof fn lemma_no_blocked_member_before(
    tasks: Seq<TaskSpec>,
    selected: Seq<bool>,
    levels: Seq<Vec<usize>>,
    bad: Seq<bool>,
    l: int,
)
    requires
        spec_plan_ok(tasks, selected, levels),
        spec_blocked_set(tasks, selected, bad),
        0 <= l,
    ensures
        forall|u: int| 0 <= u < bad.len() && bad[u] ==> !spec_in_levels_before(levels, l, u),
    decreases l,
{
    if l > 0 {
        lemma_no_blocked_member_before(tasks, selected, levels, bad, l - 1);
        assert forall|u: int|
            0 <= u < bad.len() && bad[u] implies !spec_in_levels_before(levels, l, u) by {
            if spec_in_levels_before(levels, l, u) {
                let (l2, p2) = choose|l2: int, p2: int|
                    0 <= l2 < l && l2 < levels.len() && 0 <= p2 < levels[l2]@.len()
                        && levels[l2]@[p2] == u;
                let (d, m) = choose|d: int, m: int|
                    0 <= d < tasks[u].depends_on@.len() && #[trigger] spec_is_first_index_of(
                        tasks,
                        tasks[u].depends_on@[d]@,
                        m,
                    ) && selected[m] && bad[m];
                assert(spec_in_levels_before(levels, l2, m));
                let (l3, p3) = choose|l3: int, p3: int|
                    0 <= l3 < l2 && l3 < levels.len() && 0 <= p3 < levels[l3]@.len()
                        && levels[l3]@[p3] == m;
                assert(spec_in_levels_before(levels, l - 1, m));
                assert(false);
            }
        }
    }
}

/// A plan that meets `spec_plan_ok` rules a blocked set out: every
/// selected task is placed in some level, and each member of a blocked
/// set would need another member strictly earlier, without end.
pub proof fn lemma_plan_excludes_blocked(
    tasks: Seq<TaskSpec>,
    selected: Seq<bool>,
    levels: Seq<Vec<usize>>,
)
    requires
        selected.len() == tasks.len(),
        spec_plan_ok(tasks, selected, levels),
    ensures
        forall|bad: Seq<bool>| !spec_blocked_set(tasks, selected, bad),
{
    assert forall|bad: Seq<bool>| !spec_blocked_set(tasks, selected, bad) by {
        if spec_blocked_set(tasks, selected, bad) {
            let u0 = choose|u: int| 0 <= u < bad.len() && bad[u];
            assert(selected[u0]);
            assert(spec_in_levels(levels, u0));
            let (l, p) = choose|l: int, p: int|
                0 <= l < levels.len() && 0 <= p < levels[l]@.len() && levels[l]@[p] == u0;
            lemma_no_blocked_member_before(tasks, selected, levels, bad, levels.len() as int);
            assert(spec_in_levels_before(levels, levels.len() as int, u0));
            assert(false);
        }
    }
}

/// Whether every selected, resolved dependency of `t` is already placed.
fn deps_placed_exec(ff: &Factfile, selected: &Vec<bool>, placed: &Vec<bool>, t: usize) -> (r: bool)
    requires
        selected@.len() == ff.tasks@.len(),
        placed@.len() == ff.tasks@.len(),
        t < ff.tasks@.len(),
    ensures
        r == spec_deps_placed(ff.tasks@, selected@, placed@, t as int),
{
    let ghost tasks = ff.tasks@;
    let deps = &ff.tasks[t].depends_on;
    let mut d: usize = 0;
    while d < deps.len()
        invariant
            0 <= d <= deps@.len(),
            deps == ff.tasks@[t as int].depends_on,
            selected@.len() == ff.tasks@.len(),
            placed@.len() == ff.tasks@.len(),
            t < ff.tasks@.len(),
            tasks == ff.tasks@,
            forall|d2: int, m: int|
                0 <= d2 < d && #[trigger] spec_is_first_index_of(
                    tasks,
                    tasks[t as int].depends_on@[d2]@,
                    m,
                ) && selected@[m] ==> placed@[m],
        decreases deps@.len() - d,
    {
        match ff.index_of_task(deps[d].as_str()) {
            Some(m) => {
                if selected[m] && !placed[m] {
                    assert(!spec_deps_placed(tasks, selected@, placed@, t as int));
                    return false;
                }
                assert(forall|m2: int|
                    spec_is_first_index_of(tasks, tasks[t as int].depends_on@[d as int]@, m2)
                        ==> m2 == m as int);
            },
            None => {
                assert(forall|m2: int|
                    !spec_is_first_index_of(tasks, tasks[t as int].depends_on@[d as int]@, m2));
            },
        }
        d = d + 1;
    }
    true
}

impl Factfile {
    /// Plans level-synchronous execution of the selected tasks: each level
    /// holds exactly the tasks whose selected dependencies are all placed
    /// in earlier levels. Fails when the selection holds a dependency
    /// cycle.
    #[verifier::rlimit(100)]
    pub fn topological_levels(&self, selected: &Vec<bool>) -> (r: Result<
        Vec<Vec<usize>>,
        &'static str,
    >)
        requires
            selected@.len() == self.tasks@.len(),
        ensures
            match r {
                Ok(levels) => spec_plan_ok(self.tasks@, selected@, levels@) && forall|
                    bad: Seq<bool>,
                |
                    !spec_blocked_set(self.tasks@, selected@, bad),
                Err(m) => m@ == "cycle detected"@ && exists|bad: Seq<bool>|
                    spec_blocked_set(self.tasks@, selected@, bad),
            },
    {
        let ghost tasks = self.tasks@;
        let n = self.tasks.len();
        let mut placed: Vec<bool> = Vec::new();
        let mut i: usize = 0;
        while i < n
            invariant
                0 <= i <= n,
                placed@.len() == i,
                forall|u: int| 0 <= u < i ==> !placed@[u],
            decreases n - i,
        {
            placed.push(false);
            i = i + 1;
        }
        let mut levels: Vec<Vec<usize>> = Vec::new();
        proof {
            lemma_count_true_le_len(placed@);
        }
        loop
            invariant
                placed@.len() == n,
                n == tasks.len(),
                tasks == self.tasks@,
                selected@.len() == n,
                forall|u: int| 0 <= u < n && placed@[u] ==> selected@[u],
                forall|u: int| 0 <= u < n && placed@[u] ==> spec_in_levels(levels@, u),
                forall|l: int, p: int|
                    0 <= l < levels@.len() && 0 <= p < levels@[l]@.len() ==> 0
                        <= #[trigger] levels@[l]@[p] < n && selected@[levels@[l]@[p] as int]
                        && placed@[levels@[l]@[p] as int],
                forall|l1: int, p1: int, l2: int, p2: int|
                    0 <= l1 < levels@.len() && 0 <= p1 < levels@[l1]@.len() && 0 <= l2
                        < levels@.len() && 0 <= p2 < levels@[l2]@.len() && (l1 != l2 || p1 != p2)
                        ==> #[trigger] levels@[l1]@[p1] != #[trigger] levels@[l2]@[p2],
                forall|l: int| 0 <= l < levels@.len() ==> levels@[l]@.len() > 0,
                forall|l: int, p: int, d: int, m: int|
                    0 <= l < levels@.len() && 0 <= p < levels@[l]@.len() && 0 <= d
                        < tasks[levels@[l]@[p] as int].depends_on@.len() && #[trigger] spec_is_first_index_of(
                        tasks,
                        tasks[levels@[l]@[p] as int].depends_on@[d]@,
                        m,
                    ) && selected@[m] ==> spec_in_levels_before(levels@, l, m),
            decreases n - count_true(placed@),
        {
            let ghost placed_before = placed@;
            let ghost levels_before = levels@;
            let mut level: Vec<usize> = Vec::new();
            let mut t: usize = 0;
            while t < n
                invariant
                    0 <= t <= n,
                    placed@ == placed_before,
                    placed@.len() == n,
                    n == tasks.len(),
                    tasks == self.tasks@,
                    selected@.len() == n,
                    forall|q: int| 0 <= q < level@.len() ==> 0 <= #[trigger] level@[q] < t,
                    forall|q1: int, q2: int|
                        0 <= q1 < q2 < level@.len() ==> level@[q1] < level@[q2],
                    forall|q: int|
                        0 <= q < level@.len() ==> selected@[#[trigger] level@[q] as int]
                            && !placed@[level@[q] as int] && spec_deps_placed(
                            tasks,
                            selected@,
                            placed@,
                            level@[q] as int,
                        ),
                    forall|u: int|
                        0 <= u < t && selected@[u] && !placed@[u] && spec_deps_placed(
                            tasks,
                            selected@,
                            placed@,
                            u,
                        ) ==> exists|q: int| 0 <= q < level@.len() && level@[q] == u,
                decreases n - t,
            {
                if selected[t] && !placed[t] {
                    if deps_placed_exec(self, selected, &placed, t) {
                        let ghost old_level = level@;
                        level.push(t);
                        proof {
                            assert(level@ =~= old_level.push(t));
                            assert forall|u: int|
                                0 <= u < t + 1 && selected@[u] && !placed@[u] && spec_deps_placed(
                                    tasks,
                                    selected@,
                                    placed@,
                                    u,
                                ) implies exists|q: int|
                                0 <= q < level@.len() && level@[q] == u by {
                                if u == t as int {
                                    assert(level@[level@.len() - 1] == u);
                                } else {
                                    let q = choose|q: int|
                                        0 <= q < old_level.len() && old_level[q] == u;
                                    assert(level@[q] == u);
                                }
                            }
                        }
                    }
                }
                t = t + 1;
            }
            if level.len() == 0 {
                // Either everything selected is placed, or the remainder
                // is knotted: report the cycle.
                let mut u: usize = 0;
                let mut found = false;
                while u < n
                    invariant
                        0 <= u <= n,
                        n == tasks.len(),
                        selected@.len() == n,
                        placed@.len() == n,
                        !found ==> forall|v: int| 0 <= v < u ==> !(selected@[v] && !placed@[v]),
                        found ==> exists|v: int| 0 <= v < n && selected@[v] && !placed@[v],
                    decreases n - u,
                {
                    if selected[u] && !placed[u] {
                        found = true;
                    }
                    u = u + 1;
                }
                if found {
                    proof {
                        let bad = Seq::new(n as nat, |v: int| selected@[v] && !placed@[v]);
                        assert forall|v: int| 0 <= v < bad.len() && bad[v] implies selected@[v]
                            && exists|d: int, m: int|
                            0 <= d < tasks[v].depends_on@.len() && #[trigger] spec_is_first_index_of(
                                tasks,
                                tasks[v].depends_on@[d]@,
                                m,
                            ) && selected@[m] && bad[m] by {
                            assert(!spec_deps_placed(tasks, selected@, placed@, v));
                            let (d, m) = choose|d: int, m: int|
                                0 <= d < tasks[v].depends_on@.len() && #[trigger] spec_is_first_index_of(
                                    tasks,
                                    tasks[v].depends_on@[d]@,
                                    m,
                                ) && selected@[m] && !placed@[m];
                            assert(selected@[m] && bad[m]);
                        }
                        let v0 = choose|v: int| 0 <= v < n && selected@[v] && !placed@[v];
                        assert(bad[v0]);
                        assert(spec_blocked_set(tasks, selected@, bad));
                    }
                    return Err("cycle detected");
                }
                proof {
                    lemma_plan_excludes_blocked(tasks, selected@, levels@);
                }
                return Ok(levels);
            }
            // Mark the level as placed, then append it to the plan.
            let ghost count_before = count_true(placed@);
            let mut j: usize = 0;
            while j < level.len()
                invariant
                    0 <= j <= level@.len(),
                    placed@.len() == n,
                    n == tasks.len(),
                    tasks == self.tasks@,
                    selected@.len() == n,
                    level@.len() > 0,
                    forall|q: int| 0 <= q < level@.len() ==> 0 <= #[trigger] level@[q] < n,
                    forall|q1: int, q2: int|
                        0 <= q1 < q2 < level@.len() ==> level@[q1] < level@[q2],
                    forall|q: int|
                        0 <= q < level@.len() ==> selected@[#[trigger] level@[q] as int]
                            && !placed_before[level@[q] as int] && spec_deps_placed(
                            tasks,
                            selected@,
                            placed_before,
                            level@[q] as int,
                        ),
                    forall|u: int|
                        0 <= u < n ==> (placed@[u] <==> (placed_before[u] || exists|q: int|
                            0 <= q < j && level@[q] == u)),
                    count_true(placed@) == count_before + j,
                    j == 0 ==> placed@ == placed_before,
                decreases level@.len() - j,
            {
                let u = level[j];
                let ghost before = placed@;
                proof {
                    if placed@[u as int] {
                        assert(!placed_before[u as int]);
                        let q = choose|q: int| 0 <= q < j && level@[q] == u as int;
                        assert(level@[q] < level@[j as int]);
                        assert(false);
                    }
                    lemma_count_true_update(placed@, u as int);
                }
                placed[u] = true;
                proof {
                    assert(placed@ =~= before.update(u as int, true));
                    assert(count_true(placed@) == count_true(before) + 1);
                    assert forall|w: int|
                        0 <= w < n implies (placed@[w] <==> (placed_before[w] || exists|q: int|
                            0 <= q < j + 1 && level@[q] == w)) by {
                        if w == u as int {
                            assert(level@[j as int] == w);
                        }
                    }
                }
                j = j + 1;
            }
            levels.push(level);
            proof {
                let lv = levels@.len() - 1;
                assert(levels@ =~= levels_before.push(levels@[lv]));
                assert forall|u: int| 0 <= u < n && placed@[u] implies spec_in_levels(
                    levels@,
                    u,
                ) by {
                    if placed_before[u] {
                        let (l, p) = choose|l: int, p: int|
                            0 <= l < levels_before.len() && 0 <= p < levels_before[l]@.len()
                                && levels_before[l]@[p] == u;
                        assert(levels@[l]@[p] == u);
                    } else {
                        let q = choose|q: int|
                            0 <= q < levels@[lv]@.len() && levels@[lv]@[q] == u;
                        assert(levels@[lv]@[q] == u);
                    }
                }
                assert forall|l: int, p: int, d: int, m: int|
                    0 <= l < levels@.len() && 0 <= p < levels@[l]@.len() && 0 <= d
                        < tasks[levels@[l]@[p] as int].depends_on@.len() && #[trigger] spec_is_first_index_of(
                        tasks,
                        tasks[levels@[l]@[p] as int].depends_on@[d]@,
                        m,
                    ) && selected@[m] implies spec_in_levels_before(levels@, l, m) by {
                    if l < lv {
                        assert(spec_in_levels_before(levels_before, l, m));
                        let (l2, p2) = choose|l2: int, p2: int|
                            0 <= l2 < l && l2 < levels_before.len() && 0 <= p2
                                < levels_before[l2]@.len() && levels_before[l2]@[p2] == m;
                        assert(levels@[l2]@[p2] == m);
                    } else {
                        // the new level: its dependencies were placed before
                        assert(placed_before[m]);
                        assert(spec_in_levels(levels_before, m));
                        let (l2, p2) = choose|l2: int, p2: int|
                            0 <= l2 < levels_before.len() && 0 <= p2 < levels_before[l2]@.len()
                                && levels_before[l2]@[p2] == m;
                        assert(levels@[l2]@[p2] == m);
                    }
                }
                lemma_count_true_le_len(placed@);
            }
        }
    }
}

/// Checks a requested start task: it must exist, and starting there must
/// not require running tasks outside its descendant set.
pub fn validate_start_task(job: &Factfile, start_task: &str) -> (r: Result<(), &'static str>)
    ensures
        match r {
            Ok(()) => spec_has_task(job.tasks@, start_task@) && exists|s: int|
                spec_is_first_index_of(job.tasks@, start_task@, s)
                    && Factfile::spec_start_admissible(job.tasks@, s),
            Err(m) => {
                ||| (!spec_has_task(job.tasks@, start_task@) && m@
                    == "the task specified could not be found"@)
                ||| (spec_has_task(job.tasks@, start_task@) && (exists|s: int|
                    spec_is_first_index_of(job.tasks@, start_task@, s)
                        && !Factfile::spec_start_admissible(job.tasks@, s)) && m@
                    == "the job cannot be started here without triggering prior tasks"@)
            },
        },
{
    match job.can_job_run_from_task(start_task) {
        Ok(is_good) => {
            if is_good {
                Ok(())
            } else {
                Err("the job cannot be started here without triggering prior tasks")
            }
        },
        Err(msg) => Err(msg),
    }
}

} // verus!
