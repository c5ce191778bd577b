//! The console rendering of the Tailscale doctor report.

use vstd::prelude::*;
use vstd::string::StringExecFns;
use crate::doctor_report::{TailscaleDoctorPeer, TailscaleDoctorReport};
use crate::text::{decimal, decimal_text, join_text, joined, owned};

verus! {

/// The line describing one tagged peer.
pub open spec fn peer_line(p: TailscaleDoctorPeer) -> Seq<char> {
    let state = if !p.online {
        "offline"@
    } else if !p.reachable {
        "unreachable"@
    } else {
        "reachable"@
    };
    let latency = match p.latency_ms {
        Some(v) => ", "@ + decimal(v as nat) + " ms"@,
        None => Seq::empty(),
    };
    let bootstrap = if p.bootstrap_available {
        ", bootstrap ready"@
    } else {
        ", bootstrap unavailable"@
    };
    "  - "@ + p.hostname@ + " ["@ + p.address@ + "] "@ + state + latency + bootstrap + ", "@
        + decimal(p.model_count as nat) + " model(s)"@
}

/// The lines of the report when the status could not be read.
pub open spec fn unavailable_lines(r: TailscaleDoctorReport) -> Seq<Seq<char>> {
    let problem = match r.status_error {
        Some(e) => e@,
        None => "tailscale status could not be read"@,
    };
    seq!["🩺 Tailscale: unavailable"@, Seq::empty(), "Problem: "@ + problem]
}

/// The summary lines of a readable status, before the peer list.
pub open spec fn summary_lines(r: TailscaleDoctorReport) -> Seq<Seq<char>> {
    let name = match r.self_hostname {
        Some(h) => h@,
        None => "unknown"@,
    };
    let addresses = if r.self_addresses@.len() == 0 {
        "no tailnet addresses"@
    } else {
        joined(r.self_addresses.deep_view(), ", "@)
    };
    let untagged = if r.online_peer_count >= r.online_tagged_peer_count {
        (r.online_peer_count - r.online_tagged_peer_count) as nat
    } else {
        0
    };
    let head = seq![
        "🩺 Tailscale: connected"@,
        Seq::empty(),
        "Self: "@ + name + " ("@ + addresses + ")"@,
        "Peers: "@ + decimal(r.total_peer_count as nat) + " total, "@ + decimal(
            r.online_peer_count as nat,
        ) + " online"@,
        "MeshLLM tag: "@ + decimal(r.tagged_peer_count as nat) + " tagged, "@ + decimal(
            r.online_tagged_peer_count as nat,
        ) + " online"@,
        "Reachable MeshLLM peers: "@ + decimal(r.reachable_tagged_peer_count as nat),
        "Bootstrap-ready peers: "@ + decimal(r.bootstrap_peer_count as nat),
    ];
    let with_untagged = if untagged > 0 {
        head.push(
            "Online peers without tag: "@ + decimal(untagged) + " (they are intentionally ignored)"@,
        )
    } else {
        head
    };
    match r.status_error {
        Some(e) => with_untagged.push(Seq::empty()).push("Note: "@ + e@),
        None => with_untagged,
    }
}

/// The console lines of a doctor report.
pub open spec fn report_lines(r: TailscaleDoctorReport) -> Seq<Seq<char>> {
    if !r.status_ok {
        unavailable_lines(r)
    } else if r.peers@.len() == 0 {
        summary_lines(r).push(Seq::empty()).push("No MeshLLM-tagged peers are currently visible."@)
    } else {
        summary_lines(r).push(Seq::empty()).push("MeshLLM-tagged peers:"@) + r.peers@.map_values(
            |p: TailscaleDoctorPeer| peer_line(p),
        )
    }
}

/// The line describing one tagged peer.
pub fn tailscale_peer_line(p: &TailscaleDoctorPeer) -> (res: String)
    ensures
        res@ == peer_line(*p),
        ({
            let state = if !p.online { "offline"@ } else if !p.reachable { "unreachable"@ } else { "reachable"@ };
            let prefix = "  - "@ + p.hostname@ + " ["@ + p.address@ + "] "@ + state;
            &&& res@.len() > prefix.len()
            &&& res@.take(prefix.len() as int) == prefix
            &&& res@[prefix.len() as int] == ','
        }),
{
    proof {
        peer_line_names_the_peer_state(*p);
    }
    let mut line = owned("  - ");
    line.append(p.hostname.as_str());
    line.append(" [");
    line.append(p.address.as_str());
    line.append("] ");
    if !p.online {
        line.append("offline");
    } else if !p.reachable {
        line.append("unreachable");
    } else {
        line.append("reachable");
    }
    match p.latency_ms {
        Some(v) => {
            line.append(", ");
            line.append(decimal_text(v).as_str());
            line.append(" ms");
        },
        None => {},
    }
    if p.bootstrap_available {
        line.append(", bootstrap ready");
    } else {
        line.append(", bootstrap unavailable");
    }
    line.append(", ");
    line.append(decimal_text(p.model_count as u64).as_str());
    line.append(" model(s)");
    line
}

/// Two texts joined: `a` then `b`.
fn text2(a: &str, b: &str) -> (res: String)
    ensures
        res@ == a@ + b@,
{
    let mut s = owned(a);
    s.append(b);
    s
}

/// The console lines of a doctor report: a status headline, the counts, a
/// note when probing was impossible, and one line per tagged peer. The
/// report holds no invite token, so neither do the lines.
pub fn tailscale_report_lines(report: &TailscaleDoctorReport) -> (lines: Vec<String>)
    ensures
        lines.deep_view() == report_lines(*report),
{
    if !report.status_ok {
        let problem = match &report.status_error {
            Some(e) => e.as_str(),
            None => "tailscale status could not be read",
        };
        let lines = vec![
            owned("🩺 Tailscale: unavailable"),
            String::new(),
            text2("Problem: ", problem),
        ];
        assert(lines.deep_view() =~= report_lines(*report));
        return lines;
    }
    let name = match &report.self_hostname {
        Some(h) => h.as_str(),
        None => "unknown",
    };
    let addresses = if report.self_addresses.len() == 0 {
        owned("no tailnet addresses")
    } else {
        join_text(&report.self_addresses, ", ")
    };
    let untagged = report.online_peer_count.saturating_sub(report.online_tagged_peer_count);
    let mut self_line = text2("Self: ", name);
    self_line.append(" (");
    self_line.append(addresses.as_str());
    self_line.append(")");
    let mut peers_line = text2("Peers: ", decimal_text(report.total_peer_count as u64).as_str());
    peers_line.append(" total, ");
    peers_line.append(decimal_text(report.online_peer_count as u64).as_str());
    peers_line.append(" online");
    let mut tag_line = text2("MeshLLM tag: ", decimal_text(report.tagged_peer_count as u64).as_str());
    tag_line.append(" tagged, ");
    tag_line.append(decimal_text(report.online_tagged_peer_count as u64).as_str());
    tag_line.append(" online");
    let mut lines = vec![
        owned("🩺 Tailscale: connected"),
        String::new(),
        self_line,
        peers_line,
        tag_line,
        text2("Reachable MeshLLM peers: ", decimal_text(report.reachable_tagged_peer_count as u64).as_str()),
        text2("Bootstrap-ready peers: ", decimal_text(report.bootstrap_peer_count as u64).as_str()),
    ];
    if untagged > 0 {
        let mut line = text2("Online peers without tag: ", decimal_text(untagged as u64).as_str());
        line.append(" (they are intentionally ignored)");
        lines.push(line);
    }
    match &report.status_error {
        Some(error) => {
            lines.push(String::new());
            lines.push(text2("Note: ", error.as_str()));
        },
        None => {},
    }
    assert(lines.deep_view() =~= summary_lines(*report));
    if report.peers.len() == 0 {
        lines.push(String::new());
        lines.push(owned("No MeshLLM-tagged peers are currently visible."));
        assert(lines.deep_view() =~= report_lines(*report));
        return lines;
    }
    lines.push(String::new());
    lines.push(owned("MeshLLM-tagged peers:"));
    let ghost head = lines.deep_view();
    let mut i: usize = 0;
    while i < report.peers.len()
        invariant
            i <= report.peers.len(),
            lines@.len() == head.len() + i,
            forall|j: int| 0 <= j < head.len() ==> #[trigger] lines@[j]@ == head[j],
            forall|j: int| 0 <= j < i ==> #[trigger] lines@[head.len() + j]@ == peer_line(report.peers@[j]),
        decreases report.peers.len() - i,
    {
        let line = tailscale_peer_line(&report.peers[i]);
        lines.push(line);
        i = i + 1;
    }
    assert(lines.deep_view() =~= report_lines(*report)) by {
        let tail = report.peers@.map_values(|p: TailscaleDoctorPeer| peer_line(p));
        assert forall|j: int| 0 <= j < lines@.len() implies #[trigger] lines.deep_view()[j] == (head + tail)[j] by {
            if j >= head.len() {
                assert(lines@[head.len() + (j - head.len())]@ == peer_line(report.peers@[j - head.len()]));
            }
        }
    }
    lines
}

/// A peer line names the peer, its address and its state, followed by a
/// comma: "offline" exactly when the peer is not online, "unreachable" when
/// it is online but did not answer, "reachable" otherwise.
pub proof fn peer_line_names_the_peer_state(p: TailscaleDoctorPeer)
    ensures
        ({
            let state = if !p.online { "offline"@ } else if !p.reachable { "unreachable"@ } else { "reachable"@ };
            let prefix = "  - "@ + p.hostname@ + " ["@ + p.address@ + "] "@ + state;
            &&& peer_line(p).len() > prefix.len()
            &&& peer_line(p).take(prefix.len() as int) == prefix
            &&& peer_line(p)[prefix.len() as int] == ','
        }),
{
    reveal_strlit(", ");
    reveal_strlit(", bootstrap ready");
    reveal_strlit(", bootstrap unavailable");
    let word = if !p.online { "offline"@ } else if !p.reachable { "unreachable"@ } else { "reachable"@ };
    let prefix = "  - "@ + p.hostname@ + " ["@ + p.address@ + "] "@ + word;
    let timing = match p.latency_ms { Some(v) => ", "@ + decimal(v as nat) + " ms"@, None => Seq::empty() };
    let ready = if p.bootstrap_available { ", bootstrap ready"@ } else { ", bootstrap unavailable"@ };
    let rest = timing + ready + ", "@ + decimal(p.model_count as nat) + " model(s)"@;
    assert(peer_line(p) == prefix + rest);
    assert(rest[0] == ',');
    assert((prefix + rest).take(prefix.len() as int) == prefix);
}

} // verus!
