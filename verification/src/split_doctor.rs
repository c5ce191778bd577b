//! The split-serving doctor: the readiness report as console lines, the
//! diagnostic endpoints captured into a bundle, and the choice of the local
//! runtime instance whose native log is copied.

use vstd::prelude::*;
use vstd::string::StringExecFns;
use crate::text::{decimal, decimal_text, is_blank, join_text, joined, owned, trim_text, lemma_trimmed_shape};

verus! {

/// File name of the native runtime log.
pub const SKIPPY_NATIVE_LOG_FILE: &'static str = "skippy-native.log";

/// One reason split serving is blocked, as the console reports it. Each
/// field is what the report's JSON holds there, when it has that shape.
pub struct SplitBlocker {
    pub reason: Option<String>,
    pub count: Option<u64>,
    pub short_node_ids: Option<Vec<Option<String>>>,
    pub recommendation: Option<String>,
}

/// The split-readiness report, as far as the console lines read it. Each
/// field is what the report's JSON holds there, when it has that shape; a
/// list entry that is not a string is `None`.
pub struct SplitReadinessReport {
    pub model_ref: Option<String>,
    pub verdict: Option<String>,
    pub participant_count: Option<u64>,
    pub exclusion_count: Option<u64>,
    pub blockers: Option<Vec<SplitBlocker>>,
    pub recommendations: Option<Vec<Option<String>>>,
}

/// A live local runtime instance.
pub struct LocalInstanceSnapshot {
    pub pid: u32,
    pub api_port: Option<u16>,
    pub version: Option<String>,
    pub started_at_unix: u64,
    pub runtime_dir: String,
    pub is_self: bool,
}

/// A console endpoint captured into the diagnostic bundle.
pub struct DiagnosticEndpoint {
    pub name: &'static str,
    pub path: &'static str,
    pub file_name: &'static str,
}

/// The texts among `items` that are not blank, in order.
pub open spec fn kept_texts(items: Seq<Option<String>>) -> Seq<Seq<char>>
    decreases items.len(),
{
    if items.len() == 0 {
        Seq::empty()
    } else {
        let prev = kept_texts(items.drop_last());
        match items.last() {
            Some(t) => if is_blank(t@) {
                prev
            } else {
                prev.push(t@)
            },
            None => prev,
        }
    }
}

/// The node list of a blocker: its non-blank node ids, or "unknown nodes".
pub open spec fn node_list_text(items: Seq<Option<String>>) -> Seq<char> {
    if kept_texts(items).len() == 0 {
        "unknown nodes"@
    } else {
        "nodes ["@ + joined(kept_texts(items), ", "@) + "]"@
    }
}

/// The console line of a blocker, when it names a reason.
pub open spec fn blocker_line(b: SplitBlocker) -> Option<Seq<char>> {
    match b.reason {
        None => None,
        Some(reason) => {
            let count = match b.count {
                Some(c) => c as nat,
                None => 0,
            };
            let nodes = match b.short_node_ids {
                Some(items) => node_list_text(items@),
                None => "unknown nodes"@,
            };
            let suffix = match b.recommendation {
                Some(r) => if r@.len() == 0 {
                    Seq::<char>::empty()
                } else {
                    " - "@ + r@
                },
                None => Seq::<char>::empty(),
            };
            Some("  - "@ + reason@ + ": "@ + decimal(count) + " peer(s), "@ + nodes + suffix)
        },
    }
}

/// The lines of the blockers that name a reason, in order.
pub open spec fn blocker_lines(items: Seq<SplitBlocker>) -> Seq<Seq<char>>
    decreases items.len(),
{
    if items.len() == 0 {
        Seq::empty()
    } else {
        let prev = blocker_lines(items.drop_last());
        match blocker_line(items.last()) {
            Some(l) => prev.push(l),
            None => prev,
        }
    }
}

/// The bullet for a recommendation.
pub open spec fn bullet(t: Seq<char>) -> Seq<char> {
    "  - "@ + t
}

/// The text of an optional field, or "unknown".
pub open spec fn or_unknown(t: Option<String>) -> Seq<char> {
    match t {
        Some(s) => s@,
        None => "unknown"@,
    }
}

/// The console lines of a split-readiness report.
pub open spec fn readiness_lines(r: SplitReadinessReport) -> Seq<Seq<char>> {
    let participants = match r.participant_count {
        Some(c) => c as nat,
        None => 0,
    };
    let exclusions = match r.exclusion_count {
        Some(c) => c as nat,
        None => 0,
    };
    let head = seq![
        "🩺 Split readiness: "@ + or_unknown(r.verdict),
        Seq::empty(),
        "Model: "@ + or_unknown(r.model_ref),
        "Eligible participants: "@ + decimal(participants),
        "Excluded peers: "@ + decimal(exclusions),
    ];
    let with_blockers = match r.blockers {
        Some(items) => if blocker_lines(items@).len() > 0 {
            head.push(Seq::empty()).push("Blockers:"@) + blocker_lines(items@)
        } else {
            head
        },
        None => head,
    };
    match r.recommendations {
        Some(items) => if kept_texts(items@).len() > 0 {
            with_blockers.push(Seq::empty()).push("Recommended next steps:"@) + kept_texts(items@).map_values(
                |t: Seq<char>| bullet(t),
            )
        } else {
            with_blockers
        },
        None => with_blockers,
    }
}

/// The instance whose log is captured, and why: the first instance serving
/// the console port, or else the only live instance.
pub open spec fn selected_instance(instances: Seq<LocalInstanceSnapshot>, port: u16) -> Option<(int, Seq<char>)> {
    if exists|i: int| 0 <= i < instances.len() && #[trigger] instances[i].api_port == Some(port) {
        let i = choose|i: int|
            0 <= i < instances.len() && #[trigger] instances[i].api_port == Some(port) && forall|j: int|
                0 <= j < i ==> #[trigger] instances[j].api_port != Some(port);
        Some((i, "api_port"@))
    } else if instances.len() == 1 {
        Some((0, "single_live_instance"@))
    } else {
        None
    }
}

/// The texts among `items` that are not blank, in order.
pub fn non_blank_texts(items: &Vec<Option<String>>) -> (res: Vec<String>)
    ensures
        res.deep_view() == kept_texts(items@),
{
    let mut res: Vec<String> = Vec::new();
    let mut i: usize = 0;
    while i < items.len()
        invariant
            i <= items.len(),
            res.deep_view() == kept_texts(items@.take(i as int)),
        decreases items.len() - i,
    {
        assert(items@.take(i + 1).drop_last() == items@.take(i as int));
        let ghost before = res.deep_view();
        match &items[i] {
            Some(t) => {
                proof {
                    lemma_trimmed_shape(t@);
                }
                if !trim_text(t.as_str()).is_empty() {
                    res.push(t.clone());
                    assert(res.deep_view() =~= before.push(t@));
                }
            },
            None => {},
        }
        i = i + 1;
    }
    assert(items@.take(i as int) == items@);
    res
}

/// The node list of a blocker: "nodes [a, b]" of its non-blank node ids, or
/// "unknown nodes" when there are none.
pub fn split_readiness_short_node_list(items: &Vec<Option<String>>) -> (res: String)
    ensures
        res@ == node_list_text(items@),
{
    let nodes = non_blank_texts(items);
    if nodes.len() == 0 {
        owned("unknown nodes")
    } else {
        let mut text = owned("nodes [");
        text.append(join_text(&nodes, ", ").as_str());
        text.append("]");
        text
    }
}

/// The console line of a blocker, or `None` when it names no reason.
pub fn split_readiness_blocker_line(item: &SplitBlocker) -> (res: Option<String>)
    ensures
        match res {
            Some(l) => blocker_line(*item) == Some(l@),
            None => blocker_line(*item) is None,
        },
{
    let reason = match &item.reason {
        Some(r) => r,
        None => return None,
    };
    let count = match item.count {
        Some(c) => c,
        None => 0,
    };
    let nodes = match &item.short_node_ids {
        Some(items) => split_readiness_short_node_list(items),
        None => owned("unknown nodes"),
    };
    let mut line = owned("  - ");
    line.append(reason.as_str());
    line.append(": ");
    line.append(decimal_text(count).as_str());
    line.append(" peer(s), ");
    line.append(nodes.as_str());
    match &item.recommendation {
        Some(r) => {
            if !r.as_str().is_empty() {
                line.append(" - ");
                line.append(r.as_str());
            }
        },
        None => {},
    }
    Some(line)
}

/// The lines of the blockers that name a reason, in order.
pub fn split_readiness_blocker_lines(items: &Vec<SplitBlocker>) -> (res: Vec<String>)
    ensures
        res.deep_view() == blocker_lines(items@),
{
    let mut res: Vec<String> = Vec::new();
    let mut i: usize = 0;
    while i < items.len()
        invariant
            i <= items.len(),
            res.deep_view() == blocker_lines(items@.take(i as int)),
        decreases items.len() - i,
    {
        assert(items@.take(i + 1).drop_last() == items@.take(i as int));
        let ghost before = res.deep_view();
        match split_readiness_blocker_line(&items[i]) {
            Some(line) => {
                let ghost l = line@;
                res.push(line);
                assert(res.deep_view() =~= before.push(l));
            },
            None => {},
        }
        i = i + 1;
    }
    assert(items@.take(i as int) == items@);
    res
}

/// Appends every line of `more` to `lines`.
fn extend_lines(lines: &mut Vec<String>, more: &Vec<String>)
    ensures
        final(lines).deep_view() == old(lines).deep_view() + more.deep_view(),
{
    let ghost start = lines.deep_view();
    let mut i: usize = 0;
    while i < more.len()
        invariant
            i <= more.len(),
            start == old(lines).deep_view(),
            lines@.len() == start.len() + i,
            forall|j: int| 0 <= j < start.len() ==> #[trigger] lines@[j]@ == start[j],
            forall|j: int| 0 <= j < i ==> #[trigger] lines@[start.len() + j]@ == more@[j]@,
        decreases more.len() - i,
    {
        lines.push(more[i].clone());
        i = i + 1;
    }
    assert forall|j: int| 0 <= j < lines@.len() implies #[trigger] lines.deep_view()[j] == (start + more.deep_view())[j] by {
        if j >= start.len() {
            assert(lines@[start.len() + (j - start.len())]@ == more@[j - start.len()]@);
        }
    }
    assert(lines.deep_view() =~= start + more.deep_view());
}

/// Each text as a bullet line.
fn bullets(items: &Vec<String>) -> (res: Vec<String>)
    ensures
        res.deep_view() == items.deep_view().map_values(|t: Seq<char>| bullet(t)),
{
    let mut res: Vec<String> = Vec::new();
    let mut i: usize = 0;
    while i < items.len()
        invariant
            i <= items.len(),
            res@.len() == i,
            forall|j: int| 0 <= j < i ==> #[trigger] res@[j]@ == bullet(items@[j]@),
        decreases items.len() - i,
    {
        let mut line = owned("  - ");
        line.append(items[i].as_str());
        res.push(line);
        i = i + 1;
    }
    assert(res.deep_view() =~= items.deep_view().map_values(|t: Seq<char>| bullet(t)));
    res
}

/// The console lines of a split-readiness report: the verdict, the model and
/// counts, then the blockers and the recommended next steps when there are
/// any.
pub fn split_readiness_lines(report: &SplitReadinessReport) -> (lines: Vec<String>)
    ensures
        lines.deep_view() == readiness_lines(*report),
        lines@.len() >= 5,
        lines@[0]@ == "🩺 Split readiness: "@ + match report.verdict {
            Some(v) => v@,
            None => "unknown"@,
        },
        lines@[1]@ == Seq::<char>::empty(),
        lines@[2]@ == "Model: "@ + match report.model_ref {
            Some(m) => m@,
            None => "unknown"@,
        },
        lines@[3]@ == "Eligible participants: "@ + decimal(match report.participant_count {
            Some(c) => c as nat,
            None => 0,
        }),
        lines@[4]@ == "Excluded peers: "@ + decimal(match report.exclusion_count {
            Some(c) => c as nat,
            None => 0,
        }),
{
    let model = match &report.model_ref {
        Some(m) => m.as_str(),
        None => "unknown",
    };
    let verdict = match &report.verdict {
        Some(v) => v.as_str(),
        None => "unknown",
    };
    let participants = match report.participant_count {
        Some(c) => c,
        None => 0,
    };
    let exclusions = match report.exclusion_count {
        Some(c) => c,
        None => 0,
    };
    let mut verdict_line = owned("🩺 Split readiness: ");
    verdict_line.append(verdict);
    let mut model_line = owned("Model: ");
    model_line.append(model);
    let mut participants_line = owned("Eligible participants: ");
    participants_line.append(decimal_text(participants).as_str());
    let mut exclusions_line = owned("Excluded peers: ");
    exclusions_line.append(decimal_text(exclusions).as_str());
    let mut lines = vec![verdict_line, String::new(), model_line, participants_line, exclusions_line];
    let ghost head = lines.deep_view();
    assert(head =~= seq![
        "🩺 Split readiness: "@ + or_unknown(report.verdict),
        Seq::<char>::empty(),
        "Model: "@ + or_unknown(report.model_ref),
        "Eligible participants: "@ + decimal(participants as nat),
        "Excluded peers: "@ + decimal(exclusions as nat),
    ]);
    match &report.blockers {
        Some(items) => {
            let blockers = split_readiness_blocker_lines(items);
            assert(blockers.deep_view().len() == blockers@.len());
            if blockers.len() > 0 {
                lines.push(String::new());
                lines.push(owned("Blockers:"));
                assert(lines.deep_view() =~= head.push(Seq::empty()).push("Blockers:"@));
                extend_lines(&mut lines, &blockers);
            }
        },
        None => {},
    }
    match &report.recommendations {
        Some(items) => {
            let recommendations = non_blank_texts(items);
            assert(recommendations.deep_view().len() == recommendations@.len());
            let ghost before = lines.deep_view();
            if recommendations.len() > 0 {
                lines.push(String::new());
                lines.push(owned("Recommended next steps:"));
                assert(lines.deep_view() =~= before.push(Seq::empty()).push("Recommended next steps:"@));
                extend_lines(&mut lines, &bullets(&recommendations));
            }
        },
        None => {},
    }
    proof {
        split_readiness_opens_with_verdict_model_and_counts(*report);
    }
    lines
}

/// The instance whose native log is captured: the first one serving the
/// console `port` ("api_port"), or else the only live instance
/// ("single_live_instance"); none when neither applies.
pub fn select_runtime_instance(instances: &Vec<LocalInstanceSnapshot>, port: u16) -> (res: Option<(&LocalInstanceSnapshot, &'static str)>)
    ensures
        match (res, selected_instance(instances@, port)) {
            (Some((inst, why)), Some((i, reason))) => *inst == instances@[i] && why@ == reason,
            (None, None) => true,
            _ => false,
        },
{
    let mut i: usize = 0;
    while i < instances.len()
        invariant
            i <= instances.len(),
            forall|j: int| 0 <= j < i ==> #[trigger] instances@[j].api_port != Some(port),
        decreases instances.len() - i,
    {
        if instances[i].api_port == Some(port) {
            let ghost w = choose|k: int|
                0 <= k < instances@.len() && #[trigger] instances@[k].api_port == Some(port) && forall|j: int|
                    0 <= j < k ==> #[trigger] instances@[j].api_port != Some(port);
            assert(instances@[i as int].api_port == Some(port));
            assert(w == i) by {
                if w < i {
                    assert(instances@[w].api_port != Some(port));
                } else if w > i {
                    assert(instances@[i as int].api_port != Some(port));
                }
            }
            return Some((&instances[i], "api_port"));
        }
        i = i + 1;
    }
    if instances.len() == 1 {
        Some((&instances[0], "single_live_instance"))
    } else {
        None
    }
}

/// The console endpoints captured into a split doctor bundle, with the name
/// each is summarized under and the file it is written to.
pub open spec fn diagnostic_endpoint_table() -> Seq<(Seq<char>, Seq<char>, Seq<char>)> {
    seq![
        ("status"@, "/api/status"@, "status.json"@),
        ("runtime"@, "/api/runtime"@, "runtime.json"@),
        ("runtime_stages"@, "/api/runtime/stages"@, "runtime-stages.json"@),
        ("runtime_endpoints"@, "/api/runtime/endpoints"@, "runtime-endpoints.json"@),
        ("runtime_llama"@, "/api/runtime/llama"@, "runtime-llama.json"@),
        ("plugins"@, "/api/plugins"@, "plugins.json"@),
        ("plugin_endpoints"@, "/api/plugins/endpoints"@, "plugin-endpoints.json"@),
        ("plugin_providers"@, "/api/plugins/providers"@, "plugin-providers.json"@),
    ]
}

/// The console endpoints captured into a split doctor bundle, in capture
/// order.
pub fn skippy_diagnostic_endpoints() -> (res: Vec<DiagnosticEndpoint>)
    ensures
        res@.map_values(|e: DiagnosticEndpoint| (e.name@, e.path@, e.file_name@)) == diagnostic_endpoint_table(),
{
    let res = vec![
        DiagnosticEndpoint { name: "status", path: "/api/status", file_name: "status.json" },
        DiagnosticEndpoint { name: "runtime", path: "/api/runtime", file_name: "runtime.json" },
        DiagnosticEndpoint { name: "runtime_stages", path: "/api/runtime/stages", file_name: "runtime-stages.json" },
        DiagnosticEndpoint { name: "runtime_endpoints", path: "/api/runtime/endpoints", file_name: "runtime-endpoints.json" },
        DiagnosticEndpoint { name: "runtime_llama", path: "/api/runtime/llama", file_name: "runtime-llama.json" },
        DiagnosticEndpoint { name: "plugins", path: "/api/plugins", file_name: "plugins.json" },
        DiagnosticEndpoint { name: "plugin_endpoints", path: "/api/plugins/endpoints", file_name: "plugin-endpoints.json" },
        DiagnosticEndpoint { name: "plugin_providers", path: "/api/plugins/providers", file_name: "plugin-providers.json" },
    ];
    assert(res@.map_values(|e: DiagnosticEndpoint| (e.name@, e.path@, e.file_name@)) =~= diagnostic_endpoint_table());
    res
}

/// The split-readiness lines open with the verdict, a blank line, the model,
/// the number of eligible participants and the number of excluded peers, in
/// that order, each read from its own field of the report ("unknown" or 0
/// when absent), whatever blockers or recommendations follow.
pub proof fn split_readiness_opens_with_verdict_model_and_counts(r: SplitReadinessReport)
    ensures
        readiness_lines(r).len() >= 5,
        readiness_lines(r)[0] == "🩺 Split readiness: "@ + match r.verdict {
            Some(v) => v@,
            None => "unknown"@,
        },
        readiness_lines(r)[1] == Seq::<char>::empty(),
        readiness_lines(r)[2] == "Model: "@ + match r.model_ref {
            Some(m) => m@,
            None => "unknown"@,
        },
        readiness_lines(r)[3] == "Eligible participants: "@ + decimal(match r.participant_count {
            Some(c) => c as nat,
            None => 0,
        }),
        readiness_lines(r)[4] == "Excluded peers: "@ + decimal(match r.exclusion_count {
            Some(c) => c as nat,
            None => 0,
        }),
{
    let eligible: nat = match r.participant_count { Some(c) => c as nat, None => 0 };
    let excluded: nat = match r.exclusion_count { Some(c) => c as nat, None => 0 };
    let head = seq![
        "🩺 Split readiness: "@ + or_unknown(r.verdict),
        Seq::empty(),
        "Model: "@ + or_unknown(r.model_ref),
        "Eligible participants: "@ + decimal(eligible),
        "Excluded peers: "@ + decimal(excluded),
    ];
    let with_blockers = match r.blockers {
        Some(items) => if blocker_lines(items@).len() > 0 {
            head.push(Seq::empty()).push("Blockers:"@) + blocker_lines(items@)
        } else {
            head
        },
        None => head,
    };
    assert(with_blockers.len() >= 5 && forall|i: int| 0 <= i < 5 ==> with_blockers[i] == head[i]);
    let all = readiness_lines(r);
    assert(all.len() >= 5 && forall|i: int| 0 <= i < 5 ==> all[i] == with_blockers[i]);
}

/// An instance serving `port` whose predecessors all serve other ports
/// exists as soon as any instance serves `port`.
proof fn lemma_earliest_serving(instances: Seq<LocalInstanceSnapshot>, port: u16, k: int)
    requires
        0 <= k < instances.len(),
        instances[k].api_port == Some(port),
    ensures
        exists|i: int| 0 <= i < instances.len() && #[trigger] instances[i].api_port == Some(port) && forall|j: int|
            0 <= j < i ==> #[trigger] instances[j].api_port != Some(port),
    decreases k,
{
    if exists|j: int| 0 <= j < k && #[trigger] instances[j].api_port == Some(port) {
        let j = choose|j: int| 0 <= j < k && #[trigger] instances[j].api_port == Some(port);
        lemma_earliest_serving(instances, port, j);
    } else {
        assert(forall|j: int| 0 <= j < k ==> #[trigger] instances[j].api_port != Some(port));
    }
}

/// The captured instance is the first one whose API port is the console
/// port, labelled "api_port"; only when no instance serves that port and
/// exactly one is live is that one taken, labelled "single_live_instance";
/// otherwise none is.
pub proof fn runtime_instance_is_the_first_on_the_port(instances: Seq<LocalInstanceSnapshot>, port: u16)
    ensures
        match selected_instance(instances, port) {
            Some((i, why)) => 0 <= i < instances.len() && {
                ||| why == "api_port"@ && instances[i].api_port == Some(port)
                    && forall|j: int| 0 <= j < i ==> #[trigger] instances[j].api_port != Some(port)
                ||| why == "single_live_instance"@ && instances.len() == 1 && i == 0 && instances[0].api_port != Some(port)
            },
            None => instances.len() != 1 && forall|j: int| 0 <= j < instances.len() ==> #[trigger] instances[j].api_port != Some(port),
        },
{
    if exists|k: int| 0 <= k < instances.len() && #[trigger] instances[k].api_port == Some(port) {
        let k = choose|k: int| 0 <= k < instances.len() && #[trigger] instances[k].api_port == Some(port);
        lemma_earliest_serving(instances, port, k);
    }
}

} // verus!
