use mesh_llm::api::{tailscale_join_access, JoinAccess};
use mesh_llm::addresses::peer_ip_addresses;
use mesh_llm::discover_output::tailscale_discover_output;
use mesh_llm::discovery::{
    compare_peer_latency, discovered_peers, discovery_candidates, TailscaleMeshPeer,
};
use mesh_llm::probe::{finish_probe, next_probe_address, plan_probe, probe_needs_network, PeerProbe, ProbeAttempt, ProbeResponse};
use mesh_llm::tailnet::{
    api_base_url, has_meshllm_tag, is_authorized_peer, is_known_tailscale_peer, is_tailscale_ip,
    matches_target_name, peer_hostname, IpAddress, TailnetAddress, TailnetIp, TailscalePeer,
    TailscaleStatus,
};
use std::cmp::Ordering;

fn v4(a: u8, b: u8, c: u8, d: u8) -> TailnetIp {
    TailnetIp { addr: IpAddress::V4(a, b, c, d), text: format!("{a}.{b}.{c}.{d}") }
}

fn address(text: &str, ip: Option<TailnetIp>) -> TailnetAddress {
    TailnetAddress { text: text.to_string(), ip }
}

fn v4_address(a: u8, b: u8, c: u8, d: u8) -> TailnetAddress {
    let ip = v4(a, b, c, d);
    TailnetAddress { text: ip.text.clone(), ip: Some(ip) }
}

fn tailnet_v6() -> TailnetIp {
    TailnetIp {
        addr: IpAddress::V6(0xfd7a, 0x115c, 0xa1e0, 0, 0, 0, 0, 2),
        text: "fd7a:115c:a1e0::2".to_string(),
    }
}

fn peer(hostname: &str, addresses: Vec<TailnetAddress>, online: bool, tags: &[&str]) -> TailscalePeer {
    TailscalePeer {
        hostname: hostname.to_string(),
        dns_name: String::new(),
        addresses,
        os: None,
        online,
        tags: tags.iter().map(|t| t.to_string()).collect(),
    }
}

#[test]
fn peer_addresses_prefer_ipv4_but_keep_ipv6_fallback() {
    let peer = peer(
        "worker",
        vec![
            address("fd7a:115c:a1e0::2", Some(tailnet_v6())),
            v4_address(100, 64, 0, 2),
            v4_address(100, 64, 0, 2),
        ],
        false,
        &[],
    );

    let addresses = peer_ip_addresses(&peer);

    assert_eq!(addresses.len(), 2);
    assert_eq!(addresses[0].addr, IpAddress::V4(100, 64, 0, 2));
    assert_eq!(addresses[0].text, "100.64.0.2");
    assert_eq!(addresses[1].addr, tailnet_v6().addr);
    assert_eq!(api_base_url(&addresses[1]), "http://[fd7a:115c:a1e0::2]:9337");
}

#[test]
fn target_name_matching_uses_hostname_or_dns_name() {
    let mut peer = peer("", vec![v4_address(100, 64, 0, 2)], false, &[]);
    peer.dns_name = "Worker.example.ts.net.".to_string();

    assert!(matches_target_name(&peer, Some("worker")));
    assert!(matches_target_name(&peer, Some("worker.example.ts.net.")));
    assert!(!matches_target_name(&peer, Some("other")));
}

#[test]
fn target_name_matching_accepts_the_short_host_name() {
    let peer = peer("Worker", vec![v4_address(100, 64, 0, 2)], false, &[]);

    assert!(matches_target_name(&peer, Some("worker")));
    assert!(matches_target_name(&peer, None));
    assert!(!matches_target_name(&peer, Some("worker2")));
}

#[test]
fn untagged_peers_are_not_meshllm_authorized() {
    let peer = peer("worker", vec![v4_address(100, 64, 0, 2)], true, &["tag:other"]);

    assert!(!is_authorized_peer(&peer, &IpAddress::V4(100, 64, 0, 2)));
    assert!(!has_meshllm_tag(&peer));
}

#[test]
fn meshllm_tag_authorizes_peer_by_exact_tag() {
    let peer = peer("worker", vec![v4_address(100, 64, 0, 2)], true, &["tag:mesh-llm"]);

    assert!(is_authorized_peer(&peer, &IpAddress::V4(100, 64, 0, 2)));
    assert!(!is_authorized_peer(&peer, &IpAddress::V4(100, 64, 0, 3)));
}

#[test]
fn tag_prefixes_and_case_variants_do_not_authorize() {
    let peer = peer("worker", vec![v4_address(100, 64, 0, 2)], true, &["tag:mesh-llm-dev", "TAG:MESH-LLM"]);

    assert!(!has_meshllm_tag(&peer));
    assert!(!is_authorized_peer(&peer, &IpAddress::V4(100, 64, 0, 2)));
}

#[test]
fn tailscale_ranges_are_recognized() {
    assert!(is_tailscale_ip(&IpAddress::V4(100, 64, 0, 1)));
    assert!(is_tailscale_ip(&IpAddress::V4(100, 127, 255, 255)));
    assert!(!is_tailscale_ip(&IpAddress::V4(100, 128, 0, 1)));
    assert!(!is_tailscale_ip(&IpAddress::V4(100, 63, 0, 1)));
    assert!(!is_tailscale_ip(&IpAddress::V4(10, 64, 0, 1)));
    assert!(is_tailscale_ip(&tailnet_v6().addr));
    assert!(!is_tailscale_ip(&IpAddress::V6(0xfd7a, 0x115c, 0xa1e1, 0, 0, 0, 0, 2)));
}

#[test]
fn known_peers_include_self_and_tagged_peers_only() {
    let status = TailscaleStatus {
        self_peer: peer("router", vec![v4_address(100, 64, 0, 1)], true, &["tag:mesh-llm"]),
        peers: vec![
            peer("worker", vec![v4_address(100, 64, 0, 2)], true, &["tag:mesh-llm"]),
            peer("laptop", vec![v4_address(100, 64, 0, 3)], true, &[]),
        ],
    };

    assert!(is_known_tailscale_peer(&status, &IpAddress::V4(100, 64, 0, 1)));
    assert!(is_known_tailscale_peer(&status, &IpAddress::V4(100, 64, 0, 2)));
    assert!(!is_known_tailscale_peer(&status, &IpAddress::V4(100, 64, 0, 3)));
    assert!(!is_known_tailscale_peer(&status, &IpAddress::V4(100, 64, 0, 4)));
}

#[test]
fn hostname_is_trimmed_or_falls_back_to_dns_name() {
    let mut spaced = peer("  worker  ", vec![], true, &[]);
    spaced.dns_name = "ignored.ts.net.".to_string();
    assert_eq!(peer_hostname(&spaced), "worker");

    let mut blank = peer(" \t ", vec![], true, &[]);
    blank.dns_name = "node.example.ts.net..".to_string();
    assert_eq!(peer_hostname(&blank), "node.example.ts.net");
}

#[test]
fn api_base_url_uses_the_mesh_port() {
    assert_eq!(api_base_url(&v4(100, 64, 0, 2)), "http://100.64.0.2:9337");
}

#[test]
fn discovery_skips_self_offline_untagged_and_other_names() {
    let status = TailscaleStatus {
        self_peer: peer("router", vec![v4_address(100, 64, 0, 1)], true, &["tag:mesh-llm"]),
        peers: vec![
            peer("worker", vec![v4_address(100, 64, 0, 2)], true, &["tag:mesh-llm"]),
            peer("sleeper", vec![v4_address(100, 64, 0, 3)], false, &["tag:mesh-llm"]),
            peer("laptop", vec![v4_address(100, 64, 0, 4)], true, &[]),
            peer("mirror", vec![v4_address(100, 64, 0, 1)], true, &["tag:mesh-llm"]),
            peer("other", vec![v4_address(100, 64, 0, 5)], true, &["tag:mesh-llm"]),
        ],
    };

    assert_eq!(discovery_candidates(&status, None), vec![0, 4]);
    assert_eq!(discovery_candidates(&status, Some("WORKER")), vec![0]);
}

fn probe(hostname: &str, latency_ms: Option<u64>, reachable: bool, token: Option<&str>) -> PeerProbe {
    PeerProbe {
        hostname: hostname.to_string(),
        address: "100.64.0.9".to_string(),
        os: None,
        api_base_url: "http://100.64.0.9:9337".to_string(),
        models: vec!["Qwen3-8B".to_string()],
        invite_token: token.map(|t| t.to_string()),
        latency_ms,
        online: true,
        reachable,
    }
}

#[test]
fn discovered_peers_are_reachable_and_fastest_first() {
    let peers = discovered_peers(vec![
        probe("slow", Some(30), true, None),
        probe("down", None, false, None),
        probe("fast", Some(4), true, Some("token")),
        probe("beta", Some(30), true, None),
        probe("unmeasured", None, true, None),
    ]);

    let names: Vec<&str> = peers.iter().map(|p| p.hostname.as_str()).collect();
    assert_eq!(names, ["fast", "beta", "slow", "unmeasured"]);
    assert_eq!(peers[0].invite_token.as_deref(), Some("token"));
}

fn mesh_peer(hostname: &str, latency_ms: Option<u64>) -> TailscaleMeshPeer {
    TailscaleMeshPeer {
        hostname: hostname.to_string(),
        address: String::new(),
        os: None,
        models: vec![],
        api_base_url: String::new(),
        latency_ms,
        invite_token: None,
    }
}

#[test]
fn latency_order_puts_measured_peers_first_then_names() {
    assert_eq!(compare_peer_latency(&mesh_peer("b", Some(1)), &mesh_peer("a", Some(2))), Ordering::Less);
    assert_eq!(compare_peer_latency(&mesh_peer("b", Some(2)), &mesh_peer("a", Some(2))), Ordering::Greater);
    assert_eq!(compare_peer_latency(&mesh_peer("a", Some(2)), &mesh_peer("a", Some(2))), Ordering::Equal);
    assert_eq!(compare_peer_latency(&mesh_peer("z", Some(900)), &mesh_peer("a", None)), Ordering::Less);
    assert_eq!(compare_peer_latency(&mesh_peer("a", None), &mesh_peer("b", None)), Ordering::Less);
}

#[test]
fn probe_of_offline_peer_is_unreachable_with_fallback_address() {
    let peer = peer("worker", vec![v4_address(100, 64, 0, 2)], false, &["tag:mesh-llm"]);
    let plan = plan_probe(&peer);
    assert!(!probe_needs_network(&peer, &plan));

    let probe = finish_probe(&peer, plan, vec![]);

    assert!(!probe.reachable);
    assert!(!probe.online);
    assert_eq!(probe.address, "100.64.0.2");
    assert_eq!(probe.api_base_url, "http://100.64.0.2:9337");
    assert_eq!(probe.latency_ms, None);
}

#[test]
fn probe_takes_the_first_answering_address() {
    let peer = peer(
        "worker",
        vec![address("fd7a:115c:a1e0::2", Some(tailnet_v6())), v4_address(100, 64, 0, 2)],
        true,
        &["tag:mesh-llm"],
    );
    let plan = plan_probe(&peer);
    assert!(probe_needs_network(&peer, &plan));
    assert_eq!(plan.addresses[0].text, "100.64.0.2");

    let attempts = vec![
        ProbeAttempt { ip: v4(100, 64, 0, 2), response: None },
        ProbeAttempt {
            ip: tailnet_v6(),
            response: Some(ProbeResponse {
                models: vec!["Llama-3".to_string()],
                latency_ms: 12,
                invite_token: Some("join-me".to_string()),
            }),
        },
    ];
    let probe = finish_probe(&peer, plan, attempts);

    assert!(probe.reachable && probe.online);
    assert_eq!(probe.address, "fd7a:115c:a1e0::2");
    assert_eq!(probe.api_base_url, "http://[fd7a:115c:a1e0::2]:9337");
    assert_eq!(probe.latency_ms, Some(12));
    assert_eq!(probe.models, ["Llama-3"]);
    assert_eq!(probe.invite_token.as_deref(), Some("join-me"));
}

#[test]
fn probe_with_no_answer_is_online_but_unreachable() {
    let peer = peer("worker", vec![v4_address(100, 64, 0, 2)], true, &["tag:mesh-llm"]);
    let plan = plan_probe(&peer);
    let probe = finish_probe(&peer, plan, vec![ProbeAttempt { ip: v4(100, 64, 0, 2), response: None }]);

    assert!(probe.online);
    assert!(!probe.reachable);
    assert_eq!(probe.address, "100.64.0.2");
}

#[test]
fn unparsable_addresses_are_not_probed() {
    let peer = peer("worker", vec![address("not-an-ip", None)], true, &["tag:mesh-llm"]);
    let plan = plan_probe(&peer);

    assert!(plan.addresses.is_empty());
    assert_eq!(plan.fallback_address, "");
    assert!(!probe_needs_network(&peer, &plan));
}

#[test]
fn join_bootstrap_goes_only_to_a_tagged_known_peer() {
    let status = TailscaleStatus {
        self_peer: peer("router", vec![v4_address(100, 64, 0, 1)], true, &["tag:mesh-llm"]),
        peers: vec![
            peer("laptop", vec![v4_address(100, 64, 0, 7)], true, &["tag:other"]),
            peer("worker", vec![v4_address(100, 64, 0, 2)], true, &["tag:mesh-llm"]),
        ],
    };
    let ask = |ip: IpAddress| tailscale_join_access(true, &ip, is_known_tailscale_peer(&status, &ip));

    assert!(matches!(ask(IpAddress::V4(100, 64, 0, 2)), JoinAccess::Granted));
    assert!(matches!(
        ask(IpAddress::V4(100, 64, 0, 7)),
        JoinAccess::Refused { status: 403, message: "Tailscale peer required" }
    ));
    assert!(matches!(
        ask(IpAddress::V4(100, 64, 0, 9)),
        JoinAccess::Refused { status: 403, message: "Tailscale peer required" }
    ));
}

#[test]
fn auto_join_takes_the_fastest_offering_peer() {
    let peers = discovered_peers(vec![
        probe("slow", Some(40), true, Some("slow-token")),
        probe("quiet", Some(2), true, None),
        probe("fast", Some(9), true, Some("fast-token")),
        probe("gone", Some(1), false, Some("gone-token")),
    ]);

    let output = tailscale_discover_output(&peers, true);

    assert_eq!(output.machine.as_deref(), Some("fast-token"));
    assert_eq!(output.console.last().map(String::as_str), Some("Selected Tailscale MeshLLM peer: fast"));
}

#[test]
fn probing_tries_the_plan_in_order_and_stops_at_the_first_answer() {
    let peer = peer(
        "worker",
        vec![address("fd7a:115c:a1e0::2", Some(tailnet_v6())), v4_address(100, 64, 0, 2)],
        true,
        &["tag:mesh-llm"],
    );
    let plan = plan_probe(&peer);
    let mut attempts = vec![];
    assert_eq!(next_probe_address(&plan, &attempts), Some(0));

    attempts.push(ProbeAttempt { ip: v4(100, 64, 0, 2), response: None });
    assert_eq!(next_probe_address(&plan, &attempts), Some(1));

    attempts.push(ProbeAttempt {
        ip: tailnet_v6(),
        response: Some(ProbeResponse { models: vec![], latency_ms: 3, invite_token: None }),
    });
    assert_eq!(next_probe_address(&plan, &attempts), None);

    let unanswered = vec![
        ProbeAttempt { ip: v4(100, 64, 0, 2), response: None },
        ProbeAttempt { ip: tailnet_v6(), response: None },
    ];
    assert_eq!(next_probe_address(&plan, &unanswered), None);
}
