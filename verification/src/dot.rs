//! DOT emission: the job's dependency edges as a `digraph`, one line
//! per resolved dependency, quoted dependency first.

use vstd::prelude::*;
use crate::factfile::{Factfile, TaskSpec, spec_has_task, spec_is_first_index_of};

verus! {

/// One edge line: the dependency points at the task that needs it.
pub open spec fn spec_dep_line(dep: Seq<char>, name: Seq<char>) -> Seq<char> {
    "  \""@ + dep + "\" -> \""@ + name + "\";\n"@
}

/// The edge lines of one task, one per dependency, in order.
pub open spec fn spec_dep_lines(deps: Seq<String>, name: Seq<char>) -> Seq<char>
    decreases deps.len(),
{
    if deps.len() == 0 {
        Seq::<char>::empty()
    } else {
        spec_dep_lines(deps.drop_last(), name) + spec_dep_line(deps.last()@, name)
    }
}

/// The edge lines of every task, in task order.
pub open spec fn spec_all_dep_lines(tasks: Seq<TaskSpec>) -> Seq<char>
    decreases tasks.len(),
{
    if tasks.len() == 0 {
        Seq::<char>::empty()
    } else {
        spec_all_dep_lines(tasks.drop_last()) + spec_dep_lines(
            tasks.last().depends_on@,
            tasks.last().name@,
        )
    }
}

/// The whole DOT document.
pub open spec fn spec_dotfile(tasks: Seq<TaskSpec>) -> Seq<char> {
    "digraph factotum {\n"@ + spec_all_dep_lines(tasks) + "}\n"@
}

impl Factfile {
    /// Emits the job's dependency graph as a DOT digraph.
    pub fn as_dotfile(&self) -> (r: String)
        ensures
            r@ == spec_dotfile(self.tasks@),
    {
        proof {
            reveal_strlit("digraph factotum {\n");
            reveal_strlit("}\n");
            reveal_strlit("  \"");
            reveal_strlit("\" -> \"");
            reveal_strlit("\";\n");
        }
        let ghost tasks = self.tasks@;
        let mut out = String::from_str("digraph factotum {\n");
        let n = self.tasks.len();
        let mut i: usize = 0;
        proof {
            assert(tasks.take(0) =~= Seq::<TaskSpec>::empty());
            assert(out@ =~= "digraph factotum {\n"@ + spec_all_dep_lines(tasks.take(0)));
        }
        while i < n
            invariant
                0 <= i <= n,
                n == tasks.len(),
                tasks == self.tasks@,
                out@ == "digraph factotum {\n"@ + spec_all_dep_lines(tasks.take(i as int)),
            decreases n - i,
        {
            let deps = &self.tasks[i].depends_on;
            let dn = deps.len();
            let mut d: usize = 0;
            proof {
                assert(deps@.take(0) =~= Seq::<String>::empty());
                assert(out@ + spec_dep_lines(deps@.take(0), tasks[i as int].name@) =~= out@);
            }
            while d < dn
                invariant
                    0 <= d <= dn,
                    i < n,
                    n == tasks.len(),
                    tasks == self.tasks@,
                    deps == self.tasks@[i as int].depends_on,
                    dn == deps@.len(),
                    out@ == "digraph factotum {\n"@ + spec_all_dep_lines(tasks.take(i as int))
                        + spec_dep_lines(deps@.take(d as int), tasks[i as int].name@),
                decreases dn - d,
            {
                out.append("  \"");
                out.append(deps[d].as_str());
                out.append("\" -> \"");
                out.append(self.tasks[i].name.as_str());
                out.append("\";\n");
                proof {
                    assert(deps@.take(d as int + 1).drop_last() =~= deps@.take(d as int));
                    assert(deps@.take(d as int + 1).last() == deps@[d as int]);
                    assert(out@ =~= "digraph factotum {\n"@ + spec_all_dep_lines(
                        tasks.take(i as int),
                    ) + spec_dep_lines(deps@.take(d as int + 1), tasks[i as int].name@));
                }
                d = d + 1;
            }
            proof {
                assert(deps@.take(dn as int) =~= deps@);
                assert(tasks.take(i as int + 1).drop_last() =~= tasks.take(i as int));
                assert(tasks.take(i as int + 1).last() == tasks[i as int]);
                assert(spec_all_dep_lines(tasks.take(i as int + 1)) == spec_all_dep_lines(
                    tasks.take(i as int),
                ) + spec_dep_lines(deps@, tasks[i as int].name@));
            }
            i = i + 1;
        }
        proof {
            assert(tasks.take(n as int) =~= tasks);
        }
        out.append("}\n");
        proof {
            assert(out@ =~= spec_dotfile(tasks));
        }
        out
    }
}

/// Emits DOT for the job, optionally restricted by a start check: an
/// inadmissible or unknown start point is refused before any output.
pub fn dot(job: &Factfile, start_from: Option<&str>) -> (r: Result<String, &'static str>)
    ensures
        match r {
            Ok(s) => s@ == spec_dotfile(job.tasks@) && (start_from matches Some(st)
                ==> spec_has_task(job.tasks@, st@)),
            Err(m) => start_from matches Some(st) && {
                ||| (m@ == "the task specified could not be found"@ && !spec_has_task(
                    job.tasks@,
                    st@,
                ))
                ||| (m@ == "the job cannot be started here."@ && exists|s: int|
                    spec_is_first_index_of(job.tasks@, st@, s)
                        && !Factfile::spec_start_admissible(job.tasks@, s))
            },
        },
{
    match start_from {
        Some(st) => {
            match job.can_job_run_from_task(st) {
                Ok(is_good) => {
                    if !is_good {
                        return Err("the job cannot be started here.");
                    }
                },
                Err(m) => {
                    return Err(m);
                },
            }
        },
        None => {},
    }
    Ok(job.as_dotfile())
}

} // verus!
