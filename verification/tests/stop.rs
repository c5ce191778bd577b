use mesh_llm::stop::{stop_report_lines, StopResult, TerminationOutcome};

fn result(pid: u32, label: &str, outcome: TerminationOutcome) -> StopResult {
    StopResult { pid, label: label.to_string(), outcome }
}

#[test]
fn stop_reports_each_stopped_owner() {
    let results = vec![
        result(100, "serve", TerminationOutcome::Graceful),
        result(200, "client", TerminationOutcome::Failed),
        result(300, "worker", TerminationOutcome::Killed),
        result(400, "old", TerminationOutcome::NotRunning),
    ];

    assert_eq!(
        stop_report_lines(&results),
        [
            "  Terminated owner pid=100 gracefully (serve)",
            "  Force-killed owner pid=300 (worker)",
            "  Owner pid=400 was already stopped (old)",
        ]
    );
}

#[test]
fn stop_with_nothing_stopped_says_nothing_running() {
    assert_eq!(stop_report_lines(&vec![]), ["Nothing running."]);
    assert_eq!(
        stop_report_lines(&vec![result(7, "serve", TerminationOutcome::Failed)]),
        ["Nothing running."]
    );
}
