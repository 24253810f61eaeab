//! Human-readable run reporting: duration rendering, one summary line
//! per task record, and the whole-run summary with its executed-count
//! tally. Everything is plain text; terminal coloring is left to the
//! caller.

use vstd::prelude::*;
use crate::executor::{TaskRecord, State};
use crate::strings::{
    spec_u64_str, spec_digit_char, spec_trim_end, u64_to_string, digit_char_string, trim_end_str,
};

verus! {

/// The rendered form of a duration: under a minute, seconds with one
/// rounded decimal; under an hour, minutes and seconds; else hours,
/// minutes and seconds.
pub open spec fn spec_duration_str(secs: u64, nanos: u32) -> Seq<char> {
    if secs < 60 {
        let tenths = secs * 10 + (nanos + 50_000_000) / 100_000_000;
        spec_u64_str((tenths / 10) as u64) + seq!['.'] + seq![
            spec_digit_char((tenths % 10) as u64),
        ] + "s"@
    } else if secs < 3600 {
        spec_u64_str((secs as int / 60 % 60) as u64) + "m, "@ + spec_u64_str(
            (secs as int % 60) as u64,
        ) + "s"@
    } else {
        spec_u64_str((secs as int / 3600) as u64) + "h, "@ + spec_u64_str(
            (secs as int / 60 % 60) as u64,
        ) + "m, "@ + spec_u64_str((secs as int % 60) as u64) + "s"@
    }
}

/// Renders a duration for the summaries: `2.5s`, `1m, 2s`, `1h, 0m, 0s`.
/// Tenths of a second round half-up; minutes and hours drop the nanos.
pub fn duration_to_string(secs: u64, nanos: u32) -> (r: String)
    requires
        nanos < 1_000_000_000,
    ensures
        r@ == spec_duration_str(secs, nanos),
{
    proof {
        reveal_strlit("s");
        reveal_strlit("m, ");
        reveal_strlit("h, ");
        reveal_strlit(".");
    }
    if secs < 60 {
        let tenths: u64 = secs * 10 + ((nanos + 50_000_000) / 100_000_000) as u64;
        let mut out = u64_to_string(tenths / 10);
        out.append(".");
        let d = digit_char_string(tenths % 10);
        out.append(d.as_str());
        out.append("s");
        proof {
            assert(("."@) =~= (seq!['.']));
            assert(out@ =~= spec_duration_str(secs, nanos));
        }
        out
    } else if secs < 3600 {
        let mut out = u64_to_string(secs / 60 % 60);
        out.append("m, ");
        let s2 = u64_to_string(secs % 60);
        out.append(s2.as_str());
        out.append("s");
        proof {
            assert(out@ =~= spec_duration_str(secs, nanos));
        }
        out
    } else {
        let mut out = u64_to_string(secs / 3600);
        out.append("h, ");
        let m2 = u64_to_string(secs / 60 % 60);
        out.append(m2.as_str());
        out.append("m, ");
        let s2 = u64_to_string(secs % 60);
        out.append(s2.as_str());
        out.append("s");
        proof {
            assert(out@ =~= spec_duration_str(secs, nanos));
        }
        out
    }
}

/// A record is renderable: a task that ran carries its start timestamp
/// and a well-formed duration.
pub open spec fn spec_renderable(rec: TaskRecord) -> bool {
    rec.run_result matches Some(res) ==> rec.run_started is Some && res.duration.nanos
        < 1_000_000_000
}

/// The stdout half of one task's report: where the task ran, its start
/// line, trimmed output and a one-line verdict; where it did not, why.
pub open spec fn spec_task_line_stdout(rec: TaskRecord) -> Seq<char> {
    match rec.run_result {
        Some(res) => {
            let opener = "Task '"@ + rec.name@ + "' was started at "@ + (match rec.run_started {
                Some(st) => st@,
                None => Seq::<char>::empty(),
            }) + "\n"@;
            let out = match res.stdout {
                Some(o) => "Task '"@ + rec.name@ + "' stdout:\n"@ + spec_trim_end(o@) + "\n"@,
                None => Seq::<char>::empty(),
            };
            let summary = match res.task_execution_error {
                Some(e) => "Task '"@ + rec.name@ + "': couldn't be started. Reason: "@ + e@,
                None => match rec.state {
                    State::Failed(why) => "Task '"@ + rec.name@ + "': failed after "@
                        + spec_duration_str(res.duration.secs, res.duration.nanos)
                        + ". Reason: "@ + why@,
                    _ => "Task '"@ + rec.name@ + "': succeeded after "@ + spec_duration_str(
                        res.duration.secs,
                        res.duration.nanos,
                    ),
                },
            };
            opener + out + summary + "\n"@
        },
        None => "Task '"@ + rec.name@ + "': "@ + (if rec.state is Failed {
            "Factotum could not start the task"@
        } else {
            "skipped"@
        }) + "!\n"@,
    }
}

/// The stderr half of one task's report, present only when the task ran
/// and wrote to stderr.
pub open spec fn spec_task_line_stderr(rec: TaskRecord) -> Seq<char> {
    match rec.run_result {
        Some(res) => match res.stderr {
            Some(e) => "Task '"@ + rec.name@ + "' stderr:\n"@ + spec_trim_end(e@) + "\n"@,
            None => Seq::<char>::empty(),
        },
        None => Seq::<char>::empty(),
    }
}

/// Renders one task record: the stdout report and, where the task wrote
/// to stderr, the stderr report.
pub fn get_task_result_line_str(rec: &TaskRecord) -> (r: (String, Option<String>))
    requires
        spec_renderable(*rec),
    ensures
        r.0@ == spec_task_line_stdout(*rec),
        match r.1 {
            Some(e) => e@ == spec_task_line_stderr(*rec) && spec_task_line_stderr(*rec).len() > 0,
            None => spec_task_line_stderr(*rec).len() == 0,
        },
{
    proof {
        reveal_strlit("Task '");
        reveal_strlit("' was started at ");
        reveal_strlit("\n");
        reveal_strlit("' stdout:\n");
        reveal_strlit("' stderr:\n");
        reveal_strlit("': couldn't be started. Reason: ");
        reveal_strlit("': failed after ");
        reveal_strlit(". Reason: ");
        reveal_strlit("': succeeded after ");
        reveal_strlit("': ");
        reveal_strlit("Factotum could not start the task");
        reveal_strlit("skipped");
        reveal_strlit("!\n");
    }
    match &rec.run_result {
        Some(res) => {
            let mut out = String::from_str("Task '");
            out.append(rec.name.as_str());
            out.append("' was started at ");
            match &rec.run_started {
                Some(st) => out.append(st.as_str()),
                None => {},
            }
            out.append("\n");
            match &res.stdout {
                Some(o) => {
                    out.append("Task '");
                    out.append(rec.name.as_str());
                    out.append("' stdout:\n");
                    let t = trim_end_str(o.as_str());
                    out.append(t.as_str());
                    out.append("\n");
                },
                None => {},
            }
            out.append("Task '");
            out.append(rec.name.as_str());
            match &res.task_execution_error {
                Some(e) => {
                    out.append("': couldn't be started. Reason: ");
                    out.append(e.as_str());
                },
                None => {
                    match &rec.state {
                        State::Failed(why) => {
                            out.append("': failed after ");
                            let d = duration_to_string(res.duration.secs, res.duration.nanos);
                            out.append(d.as_str());
                            out.append(". Reason: ");
                            out.append(why.as_str());
                        },
                        _ => {
                            out.append("': succeeded after ");
                            let d = duration_to_string(res.duration.secs, res.duration.nanos);
                            out.append(d.as_str());
                        },
                    }
                },
            }
            out.append("\n");
            assert(out@ =~= spec_task_line_stdout(*rec));
            let err = match &res.stderr {
                Some(e) => {
                    let mut es = String::from_str("Task '");
                    es.append(rec.name.as_str());
                    es.append("' stderr:\n");
                    let t = trim_end_str(e.as_str());
                    es.append(t.as_str());
                    es.append("\n");
                    assert(es@ =~= spec_task_line_stderr(*rec));
                    Some(es)
                },
                None => None,
            };
            (out, err)
        },
        None => {
            let mut out = String::from_str("Task '");
            out.append(rec.name.as_str());
            out.append("': ");
            let failed = matches!(&rec.state, State::Failed(_));
            if failed {
                out.append("Factotum could not start the task");
            } else {
                out.append("skipped");
            }
            out.append("!\n");
            assert(out@ =~= spec_task_line_stdout(*rec));
            (out, None)
        },
    }
}

/// The total of all recorded run durations, in nanoseconds.
pub open spec fn spec_total_nanos(records: Seq<TaskRecord>) -> int
    decreases records.len(),
{
    if records.len() == 0 {
        0
    } else {
        spec_total_nanos(records.drop_last()) + (match records.last().run_result {
            Some(res) => res.duration.secs * 1_000_000_000 + res.duration.nanos,
            None => 0,
        })
    }
}

/// How many records carry a run result: the tasks that were executed.
pub open spec fn spec_ran_count(records: Seq<TaskRecord>) -> int
    decreases records.len(),
{
    if records.len() == 0 {
        0
    } else {
        spec_ran_count(records.drop_last()) + (if records.last().run_result is Some {
            1int
        } else {
            0int
        })
    }
}

/// The concatenated stdout reports of all records, in order.
pub open spec fn spec_lines_stdout(records: Seq<TaskRecord>) -> Seq<char>
    decreases records.len(),
{
    if records.len() == 0 {
        Seq::<char>::empty()
    } else {
        spec_lines_stdout(records.drop_last()) + spec_task_line_stdout(records.last())
    }
}

/// The concatenated stderr reports of all records, in order.
pub open spec fn spec_lines_stderr(records: Seq<TaskRecord>) -> Seq<char>
    decreases records.len(),
{
    if records.len() == 0 {
        Seq::<char>::empty()
    } else {
        spec_lines_stderr(records.drop_last()) + spec_task_line_stderr(records.last())
    }
}

/// The closing summary: executed over total, and the summed wall time.
pub open spec fn spec_results_summary(records: Seq<TaskRecord>) -> Seq<char> {
    let total = spec_total_nanos(records);
    spec_u64_str(spec_ran_count(records) as u64) + "/"@ + spec_u64_str(records.len() as u64)
        + " tasks run in "@ + spec_duration_str(
        (total / 1_000_000_000) as u64,
        (total % 1_000_000_000) as u32,
    ) + "\n"@
}

/// Renders every record and the closing summary: the stdout report
/// (ending `N/M tasks run in T`), and the concatenated stderr reports.
pub fn get_task_results_str(records: &Vec<TaskRecord>) -> (r: (String, String))
    requires
        forall|i: int| 0 <= i < records@.len() ==> spec_renderable(#[trigger] records@[i]),
        spec_total_nanos(records@) <= u64::MAX,
    ensures
        r.0@ == spec_lines_stdout(records@) + spec_results_summary(records@),
        r.1@ == spec_lines_stderr(records@),
{
    proof {
        reveal_strlit("/");
        reveal_strlit(" tasks run in ");
        reveal_strlit("\n");
    }
    let ghost all = records@;
    let n = records.len();
    let mut out = String::new();
    let mut err = String::new();
    let mut total: u64 = 0;
    let mut ran: u64 = 0;
    let mut i: usize = 0;
    proof {
        assert(all.take(0) =~= Seq::<TaskRecord>::empty());
    }
    while i < n
        invariant
            0 <= i <= n,
            n == all.len(),
            all == records@,
            forall|k: int| 0 <= k < all.len() ==> spec_renderable(#[trigger] all[k]),
            spec_total_nanos(all) <= u64::MAX,
            out@ == spec_lines_stdout(all.take(i as int)),
            err@ == spec_lines_stderr(all.take(i as int)),
            total == spec_total_nanos(all.take(i as int)),
            ran == spec_ran_count(all.take(i as int)),
            ran <= i,
        decreases n - i,
    {
        proof {
            lemma_prefix_totals(all, i as int);
            assert(all.take(i as int + 1).drop_last() =~= all.take(i as int));
            assert(all.take(i as int + 1).last() == all[i as int]);
        }
        let (line, line_err) = get_task_result_line_str(&records[i]);
        out.append(line.as_str());
        match line_err {
            Some(e) => err.append(e.as_str()),
            None => {
                assert(err@ + spec_task_line_stderr(all[i as int]) =~= err@);
            },
        }
        match &records[i].run_result {
            Some(res) => {
                total = total + (res.duration.secs * 1_000_000_000 + res.duration.nanos as u64);
                ran = ran + 1;
            },
            None => {},
        }
        i = i + 1;
    }
    proof {
        assert(all.take(n as int) =~= all);
    }
    let mut summary = u64_to_string(ran);
    summary.append("/");
    let cnt = u64_to_string(n as u64);
    summary.append(cnt.as_str());
    summary.append(" tasks run in ");
    let d = duration_to_string(total / 1_000_000_000, (total % 1_000_000_000) as u32);
    summary.append(d.as_str());
    summary.append("\n");
    proof {
        assert(summary@ =~= spec_results_summary(all));
    }
    out.append(summary.as_str());
    (out, err)
}

/// Prefix totals never exceed the whole list's totals, so the running
/// sums fit whenever the whole sum does.
proof fn lemma_prefix_totals(records: Seq<TaskRecord>, i: int)
    requires
        0 <= i < records.len(),
    ensures
        spec_total_nanos(records.take(i + 1)) <= spec_total_nanos(records),
        spec_total_nanos(records.take(i)) <= spec_total_nanos(records.take(i + 1)),
        spec_ran_count(records.take(i + 1)) == spec_ran_count(records.take(i)) + (
        if records[i].run_result is Some {
            1int
        } else {
            0int
        }),
        spec_total_nanos(records.take(i + 1)) == spec_total_nanos(records.take(i)) + (
        match records[i].run_result {
            Some(res) => res.duration.secs * 1_000_000_000 + res.duration.nanos,
            None => 0,
        }),
    decreases records.len() - i,
{
    assert(records.take(i + 1).drop_last() =~= records.take(i));
    assert(records.take(i + 1).last() == records[i]);
    if i + 1 == records.len() {
        assert(records.take(i + 1) =~= records);
    } else {
        lemma_prefix_totals(records, i + 1);
    }
}

} // verus!
