use mesh_llm::api::{json_ok_response, lan_details_access, tailscale_join_access, JoinAccess};
use mesh_llm::clock::{current_unix_secs, elapsed_millis, saturating_millis, unix_ms_of, unix_secs_of, unix_time_ms};
use mesh_llm::discover_output::{
    display_invite_token, lan_discover_output, mesh_capacity, mesh_freshness, nostr_discover_output,
    tailscale_discover_output, LanMeshEntry, NostrMeshEntry,
};
use mesh_llm::discovery::TailscaleMeshPeer;
use mesh_llm::tailnet::IpAddress;

fn mesh_peer(hostname: &str, models: &[&str], token: Option<&str>) -> TailscaleMeshPeer {
    TailscaleMeshPeer {
        hostname: hostname.to_string(),
        address: "100.64.0.2".to_string(),
        os: None,
        models: models.iter().map(|m| m.to_string()).collect(),
        api_base_url: "http://100.64.0.2:9337".to_string(),
        latency_ms: Some(3),
        invite_token: token.map(|t| t.to_string()),
    }
}

#[test]
fn tailscale_discover_lists_peers_and_selects_first_token() {
    let peers = vec![mesh_peer("alpha", &[], None), mesh_peer("beta", &["Qwen3-8B", "Llama-3"], Some("tok"))];

    let output = tailscale_discover_output(&peers, true);

    assert_eq!(
        output.console,
        [
            "Found 2 MeshLLM peer(s) on Tailscale:\n",
            "  [1] alpha  http://100.64.0.2:9337  models: (no models loaded)",
            "  [2] beta  http://100.64.0.2:9337  models: Qwen3-8B, Llama-3",
            "Selected Tailscale MeshLLM peer: beta",
        ]
    );
    assert_eq!(output.machine.as_deref(), Some("tok"));
    assert!(!output.console.iter().any(|l| l.contains("tok")));
}

#[test]
fn tailscale_discover_without_tokens_or_peers() {
    let output = tailscale_discover_output(&vec![mesh_peer("alpha", &["m"], None)], true);
    assert_eq!(output.machine, None);
    assert_eq!(output.console.last().map(String::as_str), Some("The peer must run MeshLLM with Tailscale discovery enabled."));

    let listing_only = tailscale_discover_output(&vec![mesh_peer("alpha", &["m"], Some("t"))], false);
    assert_eq!(listing_only.machine, None);
    assert_eq!(listing_only.console.len(), 2);

    let none = tailscale_discover_output(&vec![], true);
    assert_eq!(none.console, ["No MeshLLM peers found on the Tailscale tailnet."]);
    assert_eq!(none.machine, None);
}

#[test]
fn nostr_listing_pieces() {
    assert_eq!(mesh_freshness(1000, 950), "fresh");
    assert_eq!(mesh_freshness(1000, 800), "ok");
    assert_eq!(mesh_freshness(1000, 700), "stale");
    assert_eq!(mesh_freshness(100, 900), "fresh");
    assert_eq!(mesh_capacity(3, 10), "3/10 clients");
    assert_eq!(mesh_capacity(3, 0), "3 clients");
    let long = "abcdefghijklmnopqrstuvwxyz0123456789ABCDEFGHIJ";
    assert_eq!(display_invite_token(long), "abcdefghijklmnopqrst...89ABCDEFGHIJ");
    assert_eq!(display_invite_token("short-token"), "short-token");
}

#[test]
fn json_response_carries_byte_length() {
    assert_eq!(
        json_ok_response("{\"a\":\"é\"}"),
        "HTTP/1.1 200 OK\r\nContent-Type: application/json\r\nContent-Length: 10\r\n\r\n{\"a\":\"é\"}"
    );
}

#[test]
fn join_bootstrap_requires_mode_tailnet_address_and_tag() {
    let tailnet = IpAddress::V4(100, 64, 0, 2);
    assert!(matches!(tailscale_join_access(true, &tailnet, true), JoinAccess::Granted));
    assert!(matches!(
        tailscale_join_access(false, &tailnet, true),
        JoinAccess::Refused { status: 404, .. }
    ));
    assert!(matches!(
        tailscale_join_access(true, &IpAddress::V4(192, 168, 1, 2), true),
        JoinAccess::Refused { status: 403, message: "Tailscale peer required" }
    ));
    assert!(matches!(
        tailscale_join_access(true, &tailnet, false),
        JoinAccess::Refused { status: 403, .. }
    ));
}

#[test]
fn clock_readings_and_saturation() {
    assert!(current_unix_secs() > 1_600_000_000);
    assert!(unix_time_ms() > 1_600_000_000_000);
    assert!(elapsed_millis(std::time::Instant::now()) < 60_000);
    assert_eq!(saturating_millis(5), 5);
    assert_eq!(saturating_millis(u128::MAX), u64::MAX);
}

fn nostr_entry(label: &str, published_at: u64, max_clients: u64, on_disk: &[&str], token: &str) -> NostrMeshEntry {
    NostrMeshEntry {
        label: label.to_string(),
        score: "12".to_string(),
        published_at,
        client_count: 2,
        max_clients,
        on_disk: on_disk.iter().map(|m| m.to_string()).collect(),
        invite_token: token.to_string(),
    }
}

#[test]
fn nostr_discover_lists_meshes_and_auto_joins_the_best() {
    let long = "abcdefghijklmnopqrstuvwxyz0123456789ABCDEFGHIJ";
    let entries = vec![
        nostr_entry("lab", 950, 8, &["Qwen3-8B", "Llama-3"], long),
        nostr_entry("home", 600, 0, &[], "short"),
    ];

    let output = nostr_discover_output(&entries, false, 1000, true);

    assert_eq!(
        output.console,
        [
            "Found 2 mesh(es):\n",
            "  [1] lab (score: 12, fresh, 2/8 clients)",
            "      on disk: Qwen3-8B, Llama-3",
            "      token: abcdefghijklmnopqrst...89ABCDEFGHIJ",
            "",
            "  [2] home (score: 12, stale, 2 clients)",
            "      token: short",
            "",
            "Auto-joining best match: lab",
            "\nRun:",
            &format!("  mesh-llm --join {long}"),
        ]
    );
    assert_eq!(output.machine.as_deref(), Some(long));
}

#[test]
fn nostr_discover_without_auto_join_shows_how_to_join() {
    let output = nostr_discover_output(&vec![nostr_entry("lab", 800, 0, &[], "t")], true, 1000, false);
    assert_eq!(output.machine, None);
    assert_eq!(
        &output.console[output.console.len() - 4..],
        [
            "To join a mesh:",
            "  mesh-llm --join <token>",
            "  mesh-llm --discover <name>       # join by mesh name",
            "  mesh-llm client --discover <name> # join as client by mesh name",
        ]
    );
    assert_eq!(output.console[1], "  [1] lab (score: 12, ok, 2 clients)");
}

#[test]
fn nostr_discover_with_nothing_found_hints_only_when_filtered() {
    let filtered = nostr_discover_output(&vec![], true, 1000, true);
    assert_eq!(filtered.console, ["No meshes found.", "Try broader filters or check relays."]);
    assert_eq!(filtered.machine, None);

    let unfiltered = nostr_discover_output(&vec![], false, 1000, true);
    assert_eq!(unfiltered.console, ["No meshes found."]);
}

fn lan_entry(name: Option<&str>, serving: &[&str], matched: bool, version: Option<&str>, token: Option<&str>) -> LanMeshEntry {
    LanMeshEntry {
        name: name.map(|n| n.to_string()),
        node_count: 3,
        capacity_gb: "48".to_string(),
        serving: serving.iter().map(|m| m.to_string()).collect(),
        joinable_with_supplied_token: matched,
        instance_name: "mesh-a".to_string(),
        host: "192.168.1.20".to_string(),
        port: 9337,
        published_version: version.map(|v| v.to_string()),
        on_disk: vec![],
        join_token: token.map(|t| t.to_string()),
    }
}

#[test]
fn lan_discover_lists_meshes_and_picks_the_matching_token() {
    let entries = vec![
        lan_entry(None, &[], false, None, None),
        lan_entry(Some("lab"), &["Qwen3-8B"], true, Some("0.99.0"), Some("lan-token")),
    ];

    let output = lan_discover_output(&entries, true, true);

    assert_eq!(
        output.console,
        [
            "Found 2 LAN mesh(es):\n",
            "  [1] (unnamed)  3 node(s), 48GB capacity  serving: (no models loaded)",
            "      instance: mesh-a  host: 192.168.1.20:9337  requires supplied token",
            "",
            "  [2] lab  3 node(s), 48GB capacity  serving: Qwen3-8B",
            "      instance: mesh-a  host: 192.168.1.20:9337  token fingerprint matched",
            "      version: 0.99.0",
            "",
        ]
    );
    assert_eq!(output.machine.as_deref(), Some("lan-token"));
}

#[test]
fn lan_discover_explains_missing_tokens() {
    let none = lan_discover_output(&vec![], false, false);
    assert_eq!(
        none.console,
        [
            "No LAN meshes found.",
            "mDNS advertisements do not include reusable invite tokens.",
            "Pass --join <token> to verify a LAN advertisement by token fingerprint.",
        ]
    );
    assert_eq!(lan_discover_output(&vec![], true, false).console, ["No LAN meshes found."]);

    let unmatched = lan_discover_output(&vec![lan_entry(Some("lab"), &[], false, None, None)], true, true);
    assert_eq!(unmatched.machine, None);
    assert_eq!(
        &unmatched.console[unmatched.console.len() - 2..],
        ["No LAN mesh matched the supplied token fingerprint.", "mDNS intentionally does not advertise raw invite tokens."]
    );

    let manual = lan_discover_output(&vec![lan_entry(Some("lab"), &[], true, None, Some("t"))], true, false);
    assert_eq!(manual.machine, None);
    assert_eq!(manual.console.last().map(String::as_str), Some("  mesh-llm --join <token> discover --mesh-discovery-mode mdns --auto"));
}

#[test]
fn lan_details_refusals_come_in_order() {
    assert_eq!(
        lan_details_access(Some("expected value at line 1 column 1"), true, true),
        Err((400, "Invalid JSON body: expected value at line 1 column 1".to_string()))
    );
    assert_eq!(
        lan_details_access(None, false, true),
        Err((404, "LAN discovery details are only available in mDNS discovery mode".to_string()))
    );
    assert_eq!(lan_details_access(None, true, false), Err((403, "Invalid LAN discovery proof".to_string())));
    assert_eq!(lan_details_access(None, true, true), Ok(()));
}

#[test]
fn unix_time_is_the_reading_or_zero_before_the_epoch() {
    assert_eq!(unix_secs_of(Some(1_700_000_000)), 1_700_000_000);
    assert_eq!(unix_secs_of(None), 0);
    assert_eq!(unix_ms_of(Some(1_700_000_000_123)), 1_700_000_000_123);
    assert_eq!(unix_ms_of(None), 0);
}
