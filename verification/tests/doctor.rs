use mesh_llm::doctor_lines::tailscale_report_lines;
use mesh_llm::doctor_report::{
    compare_doctor_peer, doctor_candidates, doctor_report, unavailable_doctor_report,
    TailscaleDoctorPeer, TailscaleDoctorReport,
};
use mesh_llm::probe::PeerProbe;
use mesh_llm::split_doctor::{
    select_runtime_instance, skippy_diagnostic_endpoints, split_readiness_blocker_line,
    split_readiness_lines, split_readiness_short_node_list, LocalInstanceSnapshot, SplitBlocker,
    SplitReadinessReport,
};
use mesh_llm::tailnet::{IpAddress, TailnetAddress, TailnetIp, TailscalePeer, TailscaleStatus};
use mesh_llm::url::{console_url, split_readiness_url};
use std::cmp::Ordering;

fn doctor_peer(hostname: &str, latency_ms: Option<u64>) -> TailscaleDoctorPeer {
    TailscaleDoctorPeer {
        hostname: hostname.to_string(),
        address: "100.64.0.2".to_string(),
        os: Some("linux".to_string()),
        online: true,
        reachable: true,
        bootstrap_available: true,
        latency_ms,
        model_count: 2,
    }
}

fn report_with(peers: Vec<TailscaleDoctorPeer>) -> TailscaleDoctorReport {
    TailscaleDoctorReport {
        status_ok: true,
        status_error: None,
        self_hostname: Some("router".to_string()),
        self_addresses: vec!["100.64.0.1".to_string()],
        total_peer_count: 2,
        online_peer_count: 2,
        tagged_peer_count: 1,
        online_tagged_peer_count: 1,
        reachable_tagged_peer_count: 1,
        bootstrap_peer_count: 1,
        peers,
    }
}

#[test]
fn tailscale_report_lines_render_diagnostics_without_bootstrap_tokens() {
    let report = report_with(vec![doctor_peer("worker", Some(6))]);

    let text = tailscale_report_lines(&report).join("\n");

    assert!(text.contains("Tailscale: connected"));
    assert!(text.contains("MeshLLM tag: 1 tagged, 1 online"));
    assert!(text.contains("worker [100.64.0.2] reachable, 6 ms, bootstrap ready, 2 model(s)"));
    assert!(text.contains("Online peers without tag: 1"));
    assert!(!text.contains("invite_token"));
}

#[test]
fn tailscale_report_lines_render_every_line_exactly() {
    let mut offline = doctor_peer("sleeper", None);
    offline.online = false;
    offline.reachable = false;
    offline.bootstrap_available = false;
    offline.model_count = 0;
    let mut report = report_with(vec![doctor_peer("worker", Some(6)), offline]);
    report.self_addresses.push("fd7a:115c:a1e0::1".to_string());
    report.status_error = Some("probing is off".to_string());

    assert_eq!(
        tailscale_report_lines(&report),
        [
            "🩺 Tailscale: connected",
            "",
            "Self: router (100.64.0.1, fd7a:115c:a1e0::1)",
            "Peers: 2 total, 2 online",
            "MeshLLM tag: 1 tagged, 1 online",
            "Reachable MeshLLM peers: 1",
            "Bootstrap-ready peers: 1",
            "Online peers without tag: 1 (they are intentionally ignored)",
            "",
            "Note: probing is off",
            "",
            "MeshLLM-tagged peers:",
            "  - worker [100.64.0.2] reachable, 6 ms, bootstrap ready, 2 model(s)",
            "  - sleeper [100.64.0.2] offline, bootstrap unavailable, 0 model(s)",
        ]
    );
}

#[test]
fn tailscale_report_lines_without_peers_or_status() {
    let mut report = report_with(vec![]);
    report.self_hostname = None;
    report.self_addresses.clear();
    report.online_tagged_peer_count = 2;
    let lines = tailscale_report_lines(&report);
    assert_eq!(lines[2], "Self: unknown (no tailnet addresses)");
    assert!(!lines.iter().any(|l| l.starts_with("Online peers without tag")));
    assert_eq!(lines.last().map(String::as_str), Some("No MeshLLM-tagged peers are currently visible."));

    assert_eq!(
        tailscale_report_lines(&unavailable_doctor_report("tailscale not installed".to_string())),
        ["🩺 Tailscale: unavailable", "", "Problem: tailscale not installed"]
    );
}

fn tailnet_peer(hostname: &str, last: u8, online: bool, tagged: bool) -> TailscalePeer {
    let text = format!("100.64.0.{last}");
    TailscalePeer {
        hostname: hostname.to_string(),
        dns_name: String::new(),
        addresses: vec![TailnetAddress {
            text: text.clone(),
            ip: Some(TailnetIp { addr: IpAddress::V4(100, 64, 0, last), text }),
        }],
        os: None,
        online,
        tags: if tagged { vec!["tag:mesh-llm".to_string()] } else { vec![] },
    }
}

fn probe(hostname: &str, latency_ms: Option<u64>, reachable: bool, token: bool) -> PeerProbe {
    PeerProbe {
        hostname: hostname.to_string(),
        address: "100.64.0.9".to_string(),
        os: None,
        api_base_url: "http://100.64.0.9:9337".to_string(),
        models: vec!["a".to_string(), "b".to_string(), "c".to_string()],
        invite_token: if token { Some("secret".to_string()) } else { None },
        latency_ms,
        online: true,
        reachable,
    }
}

#[test]
fn doctor_report_counts_and_sorts() {
    let status = TailscaleStatus {
        self_peer: tailnet_peer("router", 1, true, true),
        peers: vec![
            tailnet_peer("worker", 2, true, true),
            tailnet_peer("sleeper", 3, false, true),
            tailnet_peer("laptop", 4, true, false),
            tailnet_peer("mirror", 1, true, true),
        ],
    };
    assert_eq!(doctor_candidates(&status), vec![0, 1]);

    let report = doctor_report(
        &status,
        vec![probe("sleeper", None, false, false), probe("worker", Some(5), true, true)],
        None,
    );

    assert!(report.status_ok);
    assert_eq!(report.status_error, None);
    assert_eq!(report.self_hostname.as_deref(), Some("router"));
    assert_eq!(report.self_addresses, ["100.64.0.1"]);
    assert_eq!(report.total_peer_count, 4);
    assert_eq!(report.online_peer_count, 3);
    assert_eq!(report.tagged_peer_count, 3);
    assert_eq!(report.online_tagged_peer_count, 2);
    assert_eq!(report.reachable_tagged_peer_count, 1);
    assert_eq!(report.bootstrap_peer_count, 1);
    assert_eq!(report.peers[0].hostname, "worker");
    assert!(report.peers[0].bootstrap_available);
    assert_eq!(report.peers[0].model_count, 3);
    assert_eq!(report.peers[1].hostname, "sleeper");
}

#[test]
fn doctor_report_notes_unavailable_probing() {
    let status = TailscaleStatus { self_peer: tailnet_peer("router", 1, true, true), peers: vec![] };
    let report = doctor_report(&status, vec![], Some("no TLS backend".to_string()));

    assert_eq!(
        report.status_error.as_deref(),
        Some("Tailscale status is readable, but HTTP probing is unavailable: no TLS backend")
    );
    assert!(report.peers.is_empty());
}

#[test]
fn unavailable_report_is_empty() {
    let report = unavailable_doctor_report("boom".to_string());
    assert!(!report.status_ok);
    assert_eq!(report.status_error.as_deref(), Some("boom"));
    assert_eq!(report.total_peer_count, 0);
    assert!(report.self_addresses.is_empty() && report.peers.is_empty());
}

#[test]
fn doctor_peer_order_matches_discovery_order() {
    assert_eq!(compare_doctor_peer(&doctor_peer("a", Some(3)), &doctor_peer("b", Some(3))), Ordering::Less);
    assert_eq!(compare_doctor_peer(&doctor_peer("a", None), &doctor_peer("b", Some(3))), Ordering::Greater);
}

#[test]
fn split_readiness_lines_show_waiting_guidance() {
    let report = SplitReadinessReport {
        model_ref: Some("meshllm/Qwen3-8B-Q4_K_M-layers".to_string()),
        verdict: Some("waiting_for_peers".to_string()),
        participant_count: Some(1),
        exclusion_count: Some(1),
        blockers: Some(vec![SplitBlocker {
            reason: Some("missing_model_source".to_string()),
            count: Some(1),
            short_node_ids: Some(vec![Some("peer0000".to_string())]),
            recommendation: Some(
                "Ensure this peer can resolve or inventory the layer package before split serving."
                    .to_string(),
            ),
        }]),
        recommendations: Some(vec![Some(
            "Start at least one more worker/host with --model meshllm/Qwen3-8B-Q4_K_M-layers --split and join it to this mesh."
                .to_string(),
        )]),
    };

    let lines = split_readiness_lines(&report);

    assert!(lines.iter().any(|line| line.contains("waiting_for_peers")));
    assert!(lines.iter().any(|line| line.contains("Eligible participants: 1")));
    assert!(lines.iter().any(|line| line.contains("missing_model_source")));
    assert!(lines.iter().any(|line| line.contains("peer0000")));
    assert!(lines.iter().any(|line| line.contains("--model meshllm/Qwen3-8B-Q4_K_M-layers")));
}

#[test]
fn split_readiness_lines_default_missing_fields() {
    let report = SplitReadinessReport {
        model_ref: None,
        verdict: None,
        participant_count: None,
        exclusion_count: None,
        blockers: Some(vec![SplitBlocker { reason: None, count: Some(3), short_node_ids: None, recommendation: None }]),
        recommendations: Some(vec![None, Some("  ".to_string())]),
    };

    assert_eq!(
        split_readiness_lines(&report),
        ["🩺 Split readiness: unknown", "", "Model: unknown", "Eligible participants: 0", "Excluded peers: 0"]
    );
}

#[test]
fn split_readiness_blocker_line_formats_nodes() {
    let blocker = SplitBlocker {
        reason: Some("low_vram".to_string()),
        count: None,
        short_node_ids: Some(vec![Some("a1".to_string()), None, Some(" ".to_string()), Some("b2".to_string())]),
        recommendation: Some(String::new()),
    };
    assert_eq!(
        split_readiness_blocker_line(&blocker).as_deref(),
        Some("  - low_vram: 0 peer(s), nodes [a1, b2]")
    );
    assert_eq!(split_readiness_short_node_list(&vec![None]), "unknown nodes");
}

fn instance_snapshot(pid: u32, api_port: Option<u16>, runtime_dir: &str) -> LocalInstanceSnapshot {
    LocalInstanceSnapshot {
        pid,
        api_port,
        version: Some("0.99.0-test".to_string()),
        started_at_unix: 1_700_000_000,
        runtime_dir: runtime_dir.to_string(),
        is_self: false,
    }
}

#[test]
fn select_runtime_instance_prefers_matching_console_port() {
    let first = instance_snapshot(100, Some(3131), "/tmp/mesh-100");
    let second = instance_snapshot(200, Some(3145), "/tmp/mesh-200");
    let instances = vec![first, second];

    let (selected, selection) = select_runtime_instance(&instances, 3145).expect("selected instance");

    assert_eq!(selected.pid, 200);
    assert_eq!(selection, "api_port");
}

#[test]
fn select_runtime_instance_falls_back_to_single_live_instance() {
    let instances = vec![instance_snapshot(100, None, "/tmp/mesh-100")];

    let (selected, selection) = select_runtime_instance(&instances, 3131).expect("selected instance");

    assert_eq!(selected.pid, 100);
    assert_eq!(selection, "single_live_instance");
}

#[test]
fn select_runtime_instance_finds_none_among_several_others() {
    let instances = vec![instance_snapshot(100, None, "/a"), instance_snapshot(200, Some(1), "/b")];
    assert!(select_runtime_instance(&instances, 3131).is_none());
    assert!(select_runtime_instance(&vec![], 3131).is_none());
}

#[test]
fn split_doctor_captures_plugin_startup_surfaces() {
    let paths = skippy_diagnostic_endpoints().iter().map(|endpoint| endpoint.path).collect::<Vec<_>>();

    assert!(paths.contains(&"/api/runtime/endpoints"));
    assert!(paths.contains(&"/api/plugins"));
    assert!(paths.contains(&"/api/plugins/providers"));
}

#[test]
fn console_urls_are_local_and_percent_encode_the_model() {
    assert_eq!(console_url(3131, "/api/status"), "http://127.0.0.1:3131/api/status");
    assert_eq!(
        split_readiness_url("meshllm/Qwen3 8B~ü", 3131),
        "http://127.0.0.1:3131/api/diagnostics/split-readiness?model_ref=meshllm%2FQwen3%208B~%C3%BC"
    );
}

#[test]
fn doctor_report_is_the_same_whatever_the_token_values() {
    let status = TailscaleStatus {
        self_peer: tailnet_peer("router", 1, true, true),
        peers: vec![tailnet_peer("worker", 2, true, true), tailnet_peer("spare", 3, true, true)],
    };
    let mut other = probe("worker", Some(5), true, true);
    other.invite_token = Some("a-different-token".to_string());

    let first = doctor_report(&status, vec![probe("worker", Some(5), true, true), probe("spare", None, false, false)], None);
    let second = doctor_report(&status, vec![other, probe("spare", None, false, false)], None);

    let entries = |r: &TailscaleDoctorReport| {
        r.peers
            .iter()
            .map(|p| (p.hostname.clone(), p.reachable, p.bootstrap_available, p.latency_ms, p.model_count))
            .collect::<Vec<_>>()
    };
    assert_eq!(entries(&first), entries(&second));
    assert_eq!(first.bootstrap_peer_count, second.bootstrap_peer_count);
    assert_eq!(first.reachable_tagged_peer_count, second.reachable_tagged_peer_count);
}

#[test]
fn doctor_entries_follow_their_probes_and_stay_within_the_tagged() {
    let status = TailscaleStatus {
        self_peer: tailnet_peer("router", 1, true, true),
        peers: vec![
            tailnet_peer("worker", 2, true, true),
            tailnet_peer("sleeper", 3, false, true),
            tailnet_peer("laptop", 4, true, false),
        ],
    };
    let candidates = doctor_candidates(&status);
    let mut asleep = probe("sleeper", None, false, false);
    asleep.online = false;
    let report = doctor_report(&status, vec![probe("worker", Some(5), true, true), asleep], None);

    assert_eq!(report.peers.len(), candidates.len());
    assert!(report.peers.len() <= report.tagged_peer_count);
    for peer in &report.peers {
        assert!(!peer.bootstrap_available || peer.reachable);
        assert!(!peer.reachable || peer.online);
    }
    assert_eq!(report.reachable_tagged_peer_count, report.peers.iter().filter(|p| p.reachable).count());
    assert_eq!(report.bootstrap_peer_count, report.peers.iter().filter(|p| p.bootstrap_available).count());
}
