//! `mesh-llm stop`: what is reported for each runtime owner process the
//! caller tried to terminate.

use vstd::prelude::*;
use vstd::string::StringExecFns;
use crate::text::{decimal, decimal_text, owned};

verus! {

/// How an attempt to terminate a process ended.
#[derive(Clone, Copy, Debug, PartialEq, Eq, Structural)]
pub enum TerminationOutcome {
    /// It exited after a polite request.
    Graceful,
    /// It had to be killed.
    Killed,
    /// It was no longer running.
    NotRunning,
    /// It could not be stopped.
    Failed,
}

/// A runtime owner process and how terminating it ended.
pub struct StopResult {
    pub pid: u32,
    pub label: String,
    pub outcome: TerminationOutcome,
}

/// Whether the process is stopped now.
pub open spec fn stopped(outcome: TerminationOutcome) -> bool {
    !(outcome is Failed)
}

/// The report line of a stopped process; a failed one has none.
pub open spec fn stop_line(r: StopResult) -> Seq<Seq<char>> {
    let pid = decimal(r.pid as nat);
    match r.outcome {
        TerminationOutcome::Graceful => seq!["  Terminated owner pid="@ + pid + " gracefully ("@ + r.label@ + ")"@],
        TerminationOutcome::Killed => seq!["  Force-killed owner pid="@ + pid + " ("@ + r.label@ + ")"@],
        TerminationOutcome::NotRunning => seq!["  Owner pid="@ + pid + " was already stopped ("@ + r.label@ + ")"@],
        TerminationOutcome::Failed => Seq::empty(),
    }
}

/// The report lines of `results`, in order.
pub open spec fn stop_lines(results: Seq<StopResult>) -> Seq<Seq<char>>
    decreases results.len(),
{
    if results.len() == 0 {
        Seq::empty()
    } else {
        stop_lines(results.drop_last()) + stop_line(results.last())
    }
}

/// What `stop` reports: a line per stopped process, or "Nothing running."
/// when none was stopped.
pub open spec fn stop_report(results: Seq<StopResult>) -> Seq<Seq<char>> {
    if exists|i: int| 0 <= i < results.len() && stopped(#[trigger] results[i].outcome) {
        stop_lines(results)
    } else {
        seq!["Nothing running."@]
    }
}

/// The report line of one result.
fn stop_result_line(r: &StopResult) -> (res: Option<String>)
    ensures
        match res {
            Some(line) => stop_line(*r) == seq![line@],
            None => stop_line(*r) == Seq::<Seq<char>>::empty(),
        },
{
    let pid = decimal_text(r.pid as u64);
    let mut line = match r.outcome {
        TerminationOutcome::Graceful => owned("  Terminated owner pid="),
        TerminationOutcome::Killed => owned("  Force-killed owner pid="),
        TerminationOutcome::NotRunning => owned("  Owner pid="),
        TerminationOutcome::Failed => return None,
    };
    line.append(pid.as_str());
    match r.outcome {
        TerminationOutcome::Graceful => line.append(" gracefully ("),
        TerminationOutcome::NotRunning => line.append(" was already stopped ("),
        _ => line.append(" ("),
    }
    line.append(r.label.as_str());
    line.append(")");
    Some(line)
}

/// What `stop` reports for the processes it tried to terminate, in order:
/// a line per process that is stopped now, or "Nothing running." when none
/// was.
pub fn stop_report_lines(results: &Vec<StopResult>) -> (lines: Vec<String>)
    ensures
        lines.deep_view() == stop_report(results@),
{
    let mut lines: Vec<String> = Vec::new();
    let mut stopped_count: usize = 0;
    let mut i: usize = 0;
    while i < results.len()
        invariant
            i <= results.len(),
            stopped_count <= i,
            lines.deep_view() == stop_lines(results@.take(i as int)),
            (stopped_count > 0) == exists|j: int| 0 <= j < i && stopped(#[trigger] results@[j].outcome),
        decreases results.len() - i,
    {
        assert(results@.take(i + 1).drop_last() == results@.take(i as int));
        assert(results@.take(i + 1).last() == results@[i as int]);
        let ghost before = lines.deep_view();
        match stop_result_line(&results[i]) {
            Some(line) => {
                lines.push(line);
                stopped_count = stopped_count + 1;
                assert(lines.deep_view() =~= before + stop_line(results@[i as int]));
            },
            None => {
                assert(lines.deep_view() =~= before + stop_line(results@[i as int]));
            },
        }
        i = i + 1;
    }
    assert(results@.take(i as int) == results@);
    if stopped_count == 0 {
        let nothing = vec![owned("Nothing running.")];
        assert(nothing.deep_view() =~= seq!["Nothing running."@]);
        return nothing;
    }
    lines
}

} // verus!
