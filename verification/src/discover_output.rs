//! What `discover` prints for each discovery mode (Tailscale, Nostr relays,
//! the local LAN): the console listing and, with auto-join, the chosen
//! token on machine output.

use vstd::prelude::*;
use vstd::string::StringExecFns;
use vstd::string::StringSliceAdditionalSpecFns;
use vstd::utf8::{decode_utf8, encode_utf8, is_char_boundary};
use crate::discovery::TailscaleMeshPeer;
use crate::order::{listed_before, listed_in_order};
use crate::text::{decimal, decimal_text, join_text, joined, owned};

verus! {

/// A mesh listed on Nostr relays, as the listing shows it: its display
/// label and score as rendered, when it was published, its client counts
/// (a maximum of 0 meaning none is set), the models on disk, and its invite
/// token.
pub struct NostrMeshEntry {
    pub label: String,
    pub score: String,
    pub published_at: u64,
    pub client_count: u64,
    pub max_clients: u64,
    pub on_disk: Vec<String>,
    pub invite_token: String,
}

/// A mesh found on the local LAN, as the listing shows it: its name if
/// advertised, node count, capacity in GB as rendered, the models served,
/// whether the supplied token's fingerprint matched, where it was found, its
/// published version, the models on disk, and the token to join it with
/// when the supplied token matched.
pub struct LanMeshEntry {
    pub name: Option<String>,
    pub node_count: u64,
    pub capacity_gb: String,
    pub serving: Vec<String>,
    pub joinable_with_supplied_token: bool,
    pub instance_name: String,
    pub host: String,
    pub port: u16,
    pub published_version: Option<String>,
    pub on_disk: Vec<String>,
    pub join_token: Option<String>,
}

/// Console lines, and the line for machine output if any.
pub struct DiscoverOutput {
    pub console: Vec<String>,
    pub machine: Option<String>,
}

/// The models a peer serves, as listed.
pub open spec fn models_text(p: TailscaleMeshPeer) -> Seq<char> {
    if p.models@.len() == 0 {
        "(no models loaded)"@
    } else {
        joined(p.models.deep_view(), ", "@)
    }
}

/// The listing line of the peer at 0-based position `i`.
pub open spec fn listing_line(i: nat, p: TailscaleMeshPeer) -> Seq<char> {
    "  ["@ + decimal(i + 1) + "] "@ + p.hostname@ + "  "@ + p.api_base_url@ + "  models: "@ + models_text(p)
}

/// The position of the first peer that offered a join token, if any.
pub open spec fn first_offering(peers: Seq<TailscaleMeshPeer>) -> Option<int> {
    if exists|i: int| 0 <= i < peers.len() && (#[trigger] peers[i]).invite_token is Some {
        Some(choose|i: int| 0 <= i < peers.len() && (#[trigger] peers[i]).invite_token is Some && forall|j: int|
            0 <= j < i ==> (#[trigger] peers[j]).invite_token is None)
    } else {
        None
    }
}

/// The console lines of a Tailscale discovery.
pub open spec fn discover_console(peers: Seq<TailscaleMeshPeer>, auto_join: bool) -> Seq<Seq<char>> {
    if peers.len() == 0 {
        seq!["No MeshLLM peers found on the Tailscale tailnet."@]
    } else {
        let listing = seq!["Found "@ + decimal(peers.len()) + " MeshLLM peer(s) on Tailscale:\n"@]
            + Seq::new(peers.len(), |i: int| listing_line(i as nat, peers[i]));
        if !auto_join {
            listing
        } else {
            match first_offering(peers) {
                Some(i) => listing.push("Selected Tailscale MeshLLM peer: "@ + peers[i].hostname@),
                None => listing.push("No Tailscale MeshLLM peer offered a join bootstrap."@).push(
                    "The peer must run MeshLLM with Tailscale discovery enabled."@,
                ),
            }
        }
    }
}

/// The machine output of a Tailscale discovery: with auto-join, the token
/// of the first listed peer that offered one.
pub open spec fn discover_machine(peers: Seq<TailscaleMeshPeer>, auto_join: bool) -> Option<Seq<char>> {
    if peers.len() == 0 || !auto_join {
        None
    } else {
        match first_offering(peers) {
            Some(i) => Some(peers[i].invite_token->0@),
            None => None,
        }
    }
}

/// How fresh a listing published at `published_at` is at `now`: under two
/// minutes "fresh", under five "ok", else "stale".
pub open spec fn freshness(now: u64, published_at: u64) -> Seq<char> {
    let age = if now >= published_at {
        now - published_at
    } else {
        0
    };
    if age < 120 {
        "fresh"@
    } else if age < 300 {
        "ok"@
    } else {
        "stale"@
    }
}

/// The listing line of one peer.
fn peer_listing_line(i: usize, p: &TailscaleMeshPeer) -> (res: String)
    requires
        i < usize::MAX,
    ensures
        res@ == listing_line(i as nat, *p),
{
    let mut line = owned("  [");
    line.append(decimal_text((i + 1) as u64).as_str());
    line.append("] ");
    line.append(p.hostname.as_str());
    line.append("  ");
    line.append(p.api_base_url.as_str());
    line.append("  models: ");
    if p.models.len() == 0 {
        line.append("(no models loaded)");
    } else {
        line.append(join_text(&p.models, ", ").as_str());
    }
    line
}

/// What a Tailscale discovery prints: the listing of the peers found, and
/// with `auto_join` the token of the first peer that offered one (on
/// machine output) and which peer it was (on the console).
#[verifier::loop_isolation(false)]
pub fn tailscale_discover_output(peers: &Vec<TailscaleMeshPeer>, auto_join: bool) -> (res: DiscoverOutput)
    ensures
        res.console.deep_view() == discover_console(peers@, auto_join),
        owned_text_option(res.machine) == discover_machine(peers@, auto_join),
{
    if peers.len() == 0 {
        let console = vec![owned("No MeshLLM peers found on the Tailscale tailnet.")];
        assert(console.deep_view() =~= discover_console(peers@, auto_join));
        return DiscoverOutput { console, machine: None };
    }
    let mut header = owned("Found ");
    header.append(decimal_text(peers.len() as u64).as_str());
    header.append(" MeshLLM peer(s) on Tailscale:\n");
    let mut console = vec![header];
    let mut i: usize = 0;
    while i < peers.len()
        invariant
            i <= peers.len(),
            console@.len() == i + 1,
            console@[0]@ == "Found "@ + decimal(peers@.len()) + " MeshLLM peer(s) on Tailscale:\n"@,
            forall|j: int| 0 <= j < i ==> #[trigger] console@[j + 1]@ == listing_line(j as nat, peers@[j]),
        decreases peers.len() - i,
    {
        console.push(peer_listing_line(i, &peers[i]));
        i = i + 1;
    }
    let ghost listing = seq!["Found "@ + decimal(peers@.len()) + " MeshLLM peer(s) on Tailscale:\n"@]
        + Seq::new(peers@.len(), |k: int| listing_line(k as nat, peers@[k]));
    assert forall|j: int| 0 <= j < console@.len() implies #[trigger] console.deep_view()[j] == listing[j] by {
        if j > 0 {
            assert(console@[(j - 1) + 1]@ == listing_line((j - 1) as nat, peers@[j - 1]));
        }
    }
    assert(console.deep_view() =~= listing);
    assert(discover_console(peers@, false) == listing);
    if !auto_join {
        return DiscoverOutput { console, machine: None };
    }
    let mut k: usize = 0;
    while k < peers.len()
        invariant
            k <= peers.len(),
            console.deep_view() == listing,
            forall|j: int| 0 <= j < k ==> (#[trigger] peers@[j]).invite_token is None,
        decreases peers.len() - k,
    {
        match &peers[k].invite_token {
            Some(token) => {
                let mut line = owned("Selected Tailscale MeshLLM peer: ");
                line.append(peers[k].hostname.as_str());
                let ghost before = console.deep_view();
                console.push(line);
                proof {
                    assert((peers@[k as int]).invite_token is Some);
                    let w = first_offering(peers@)->0;
                    assert(w == k) by {
                        if w < k {
                            assert(peers@[w].invite_token is None);
                        } else if w > k {
                            assert(peers@[k as int].invite_token is None);
                        }
                    }
                    assert(console.deep_view() =~= before.push("Selected Tailscale MeshLLM peer: "@ + peers@[k as int].hostname@));
                }
                assert(console.deep_view() == discover_console(peers@, auto_join));
                return DiscoverOutput { console, machine: Some(token.clone()) };
            },
            None => {},
        }
        k = k + 1;
    }
    let ghost before = console.deep_view();
    console.push(owned("No Tailscale MeshLLM peer offered a join bootstrap."));
    console.push(owned("The peer must run MeshLLM with Tailscale discovery enabled."));
    assert(console.deep_view() =~= before.push("No Tailscale MeshLLM peer offered a join bootstrap."@).push(
        "The peer must run MeshLLM with Tailscale discovery enabled."@,
    ));
    assert(first_offering(peers@) is None);
    assert(console.deep_view() == discover_console(peers@, auto_join));
    DiscoverOutput { console, machine: None }
}

/// The characters of an optional owned text.
pub open spec fn owned_text_option(t: Option<String>) -> Option<Seq<char>> {
    match t {
        Some(s) => Some(s@),
        None => None,
    }
}

/// How fresh a Nostr listing published at `published_at` is at `now`.
pub fn mesh_freshness(now: u64, published_at: u64) -> (res: &'static str)
    ensures
        res@ == freshness(now, published_at),
{
    let age = now.saturating_sub(published_at);
    if age < 120 {
        "fresh"
    } else if age < 300 {
        "ok"
    } else {
        "stale"
    }
}

/// The client capacity of a listing: "c/m clients", or "c clients" when
/// the mesh sets no maximum.
pub fn mesh_capacity(client_count: u64, max_clients: u64) -> (res: String)
    ensures
        res@ == if max_clients > 0 {
            decimal(client_count as nat) + "/"@ + decimal(max_clients as nat) + " clients"@
        } else {
            decimal(client_count as nat) + " clients"@
        },
{
    let mut text = decimal_text(client_count);
    if max_clients > 0 {
        text.append("/");
        text.append(decimal_text(max_clients).as_str());
    }
    text.append(" clients");
    text
}

/// An invite token as shown in a listing: tokens over 40 bytes keep their
/// first 20 and last 12 bytes around "...".
pub fn display_invite_token(token: &str) -> (res: String)
    requires
        can_shorten(token@),
    ensures
        res@ == shown_token(token@),
{
    let len = token.len();
    if len > 40 {
        let (head, _) = token.split_at(20);
        let (_, tail) = token.split_at(len - 12);
        proof {
            vstd::utf8::encode_utf8_decode_utf8(head@);
            vstd::utf8::encode_utf8_decode_utf8(tail@);
        }
        let mut text = owned(head);
        text.append("...");
        text.append(tail);
        text
    } else {
        owned(token)
    }
}

/// Whether a token can be shown shortened: its UTF-8 form fits in memory
/// and, when over 40 bytes, bytes 20 and 12-from-the-end start characters.
pub open spec fn can_shorten(token: Seq<char>) -> bool {
    let b = encode_utf8(token);
    &&& b.len() <= usize::MAX
    &&& b.len() > 40 ==> is_char_boundary(b, 20) && is_char_boundary(b, b.len() - 12)
}

/// A token as a listing shows it: over 40 bytes, its first 20 and last 12
/// bytes around "..."; otherwise whole.
pub open spec fn shown_token(token: Seq<char>) -> Seq<char> {
    let b = encode_utf8(token);
    if b.len() > 40 {
        decode_utf8(b.subrange(0, 20)) + "..."@ + decode_utf8(b.subrange(b.len() - 12, b.len() as int))
    } else {
        token
    }
}

/// The client capacity of a listing.
pub open spec fn capacity_text(client_count: u64, max_clients: u64) -> Seq<char> {
    if max_clients > 0 {
        decimal(client_count as nat) + "/"@ + decimal(max_clients as nat) + " clients"@
    } else {
        decimal(client_count as nat) + " clients"@
    }
}

/// The lines of the Nostr listing entry at 0-based position `i`: the
/// summary, the models on disk if any, the shown token, and a blank line.
pub open spec fn nostr_entry_lines(i: nat, e: NostrMeshEntry, now: u64) -> Seq<Seq<char>> {
    seq![
        "  ["@ + decimal(i + 1) + "] "@ + e.label@ + " (score: "@ + e.score@ + ", "@ + freshness(now, e.published_at)
            + ", "@ + capacity_text(e.client_count, e.max_clients) + ")"@,
    ] + (if e.on_disk@.len() > 0 {
        seq!["      on disk: "@ + joined(e.on_disk.deep_view(), ", "@)]
    } else {
        Seq::empty()
    }) + seq!["      token: "@ + shown_token(e.invite_token@), Seq::empty()]
}

/// The lines of every entry, in order.
pub open spec fn nostr_listing(entries: Seq<NostrMeshEntry>, now: u64) -> Seq<Seq<char>>
    decreases entries.len(),
{
    if entries.len() == 0 {
        Seq::empty()
    } else {
        nostr_listing(entries.drop_last(), now) + nostr_entry_lines((entries.len() - 1) as nat, entries.last(), now)
    }
}

/// The console lines of a Nostr discovery: when nothing was found, that
/// (with a hint when filters were set); otherwise the listing, then either
/// the best match being joined (the first listed) or how to join.
pub open spec fn nostr_console(entries: Seq<NostrMeshEntry>, filtered: bool, now: u64, auto_join: bool) -> Seq<Seq<char>> {
    if entries.len() == 0 {
        seq!["No meshes found."@] + if filtered {
            seq!["Try broader filters or check relays."@]
        } else {
            Seq::empty()
        }
    } else {
        seq!["Found "@ + decimal(entries.len()) + " mesh(es):\n"@] + nostr_listing(entries, now) + if auto_join {
            seq![
                "Auto-joining best match: "@ + entries[0].label@,
                "\nRun:"@,
                "  mesh-llm --join "@ + entries[0].invite_token@,
            ]
        } else {
            seq![
                "To join a mesh:"@,
                "  mesh-llm --join <token>"@,
                "  mesh-llm --discover <name>       # join by mesh name"@,
                "  mesh-llm client --discover <name> # join as client by mesh name"@,
            ]
        }
    }
}

/// The machine output of a Nostr discovery: with auto-join, the best
/// match's invite token.
pub open spec fn nostr_machine(entries: Seq<NostrMeshEntry>, auto_join: bool) -> Option<Seq<char>> {
    if entries.len() > 0 && auto_join {
        Some(entries[0].invite_token@)
    } else {
        None
    }
}

/// Append `more` to `lines`.
fn append_lines(lines: &mut Vec<String>, more: Vec<String>)
    ensures
        final(lines).deep_view() == old(lines).deep_view() + more.deep_view(),
{
    let ghost start = lines.deep_view();
    let mut i: usize = 0;
    while i < more.len()
        invariant
            i <= more.len(),
            lines.deep_view() == start + more.deep_view().take(i as int),
        decreases more.len() - i,
    {
        let ghost before = lines.deep_view();
        lines.push(more[i].clone());
        assert(more.deep_view().take(i + 1) == more.deep_view().take(i as int).push(more@[i as int]@));
        assert(lines.deep_view() =~= before.push(more@[i as int]@));
        i = i + 1;
    }
    assert(more.deep_view().take(i as int) == more.deep_view());
}

/// The lines of the Nostr listing entry at 0-based position `i`.
fn nostr_entry_text(i: usize, e: &NostrMeshEntry, now: u64) -> (res: Vec<String>)
    requires
        i < usize::MAX,
        can_shorten(e.invite_token@),
    ensures
        res.deep_view() == nostr_entry_lines(i as nat, *e, now),
{
    let mut line = owned("  [");
    line.append(decimal_text((i + 1) as u64).as_str());
    line.append("] ");
    line.append(e.label.as_str());
    line.append(" (score: ");
    line.append(e.score.as_str());
    line.append(", ");
    line.append(mesh_freshness(now, e.published_at));
    line.append(", ");
    line.append(mesh_capacity(e.client_count, e.max_clients).as_str());
    line.append(")");
    let mut lines = vec![line];
    let ghost head = lines.deep_view();
    if e.on_disk.len() > 0 {
        let mut disk = owned("      on disk: ");
        disk.append(join_text(&e.on_disk, ", ").as_str());
        lines.push(disk);
    }
    let mut token = owned("      token: ");
    token.append(display_invite_token(e.invite_token.as_str()).as_str());
    lines.push(token);
    lines.push(String::new());
    assert(lines.deep_view() =~= nostr_entry_lines(i as nat, *e, now));
    lines
}

/// What a Nostr discovery prints, given the meshes found (best first), the
/// time now in Unix seconds, and whether any filter was set: the listing,
/// and with `auto_join` the best match's token on machine output.
pub fn nostr_discover_output(entries: &Vec<NostrMeshEntry>, filtered: bool, now: u64, auto_join: bool) -> (res: DiscoverOutput)
    requires
        forall|i: int| 0 <= i < entries@.len() ==> can_shorten(#[trigger] entries@[i].invite_token@),
    ensures
        res.console.deep_view() == nostr_console(entries@, filtered, now, auto_join),
        owned_text_option(res.machine) == nostr_machine(entries@, auto_join),
{
    if entries.len() == 0 {
        let mut console = vec![owned("No meshes found.")];
        if filtered {
            console.push(owned("Try broader filters or check relays."));
        }
        assert(console.deep_view() =~= nostr_console(entries@, filtered, now, auto_join));
        return DiscoverOutput { console, machine: None };
    }
    let mut header = owned("Found ");
    header.append(decimal_text(entries.len() as u64).as_str());
    header.append(" mesh(es):\n");
    let mut console = vec![header];
    let ghost first = console.deep_view();
    let mut i: usize = 0;
    while i < entries.len()
        invariant
            i <= entries.len(),
            forall|j: int| 0 <= j < entries@.len() ==> can_shorten(#[trigger] entries@[j].invite_token@),
            console.deep_view() == first + nostr_listing(entries@.take(i as int), now),
        decreases entries.len() - i,
    {
        assert(entries@.take(i + 1).drop_last() == entries@.take(i as int));
        assert(entries@.take(i + 1).last() == entries@[i as int]);
        let lines = nostr_entry_text(i, &entries[i], now);
        append_lines(&mut console, lines);
        assert(first + nostr_listing(entries@.take(i as int), now) + nostr_entry_lines(i as nat, entries@[i as int], now)
            =~= first + nostr_listing(entries@.take(i + 1), now));
        i = i + 1;
    }
    assert(entries@.take(i as int) == entries@);
    let ghost listed = console.deep_view();
    assert(first == seq!["Found "@ + decimal(entries@.len()) + " mesh(es):\n"@]);
    if auto_join {
        let best = &entries[0];
        let mut chosen = owned("Auto-joining best match: ");
        chosen.append(best.label.as_str());
        let mut join = owned("  mesh-llm --join ");
        join.append(best.invite_token.as_str());
        console.push(chosen);
        console.push(owned("\nRun:"));
        console.push(join);
        assert(console.deep_view() =~= listed + seq![
            "Auto-joining best match: "@ + entries@[0].label@,
            "\nRun:"@,
            "  mesh-llm --join "@ + entries@[0].invite_token@,
        ]);
        DiscoverOutput { console, machine: Some(best.invite_token.clone()) }
    } else {
        console.push(owned("To join a mesh:"));
        console.push(owned("  mesh-llm --join <token>"));
        console.push(owned("  mesh-llm --discover <name>       # join by mesh name"));
        console.push(owned("  mesh-llm client --discover <name> # join as client by mesh name"));
        assert(console.deep_view() =~= listed + seq![
            "To join a mesh:"@,
            "  mesh-llm --join <token>"@,
            "  mesh-llm --discover <name>       # join by mesh name"@,
            "  mesh-llm client --discover <name> # join as client by mesh name"@,
        ]);
        DiscoverOutput { console, machine: None }
    }
}

/// The lines of the LAN listing entry at 0-based position `i`.
pub open spec fn lan_entry_lines(i: nat, e: LanMeshEntry) -> Seq<Seq<char>> {
    let name = match e.name {
        Some(n) => n@,
        None => "(unnamed)"@,
    };
    let models = if e.serving@.len() == 0 {
        "(no models loaded)"@
    } else {
        joined(e.serving.deep_view(), ", "@)
    };
    let join_state = if e.joinable_with_supplied_token {
        "token fingerprint matched"@
    } else {
        "requires supplied token"@
    };
    seq![
        "  ["@ + decimal(i + 1) + "] "@ + name + "  "@ + decimal(e.node_count as nat) + " node(s), "@ + e.capacity_gb@
            + "GB capacity  serving: "@ + models,
        "      instance: "@ + e.instance_name@ + "  host: "@ + e.host@ + ":"@ + decimal(e.port as nat) + "  "@ + join_state,
    ] + (match e.published_version {
        Some(v) => seq!["      version: "@ + v@],
        None => Seq::empty(),
    }) + (if e.on_disk@.len() > 0 {
        seq!["      on disk: "@ + joined(e.on_disk.deep_view(), ", "@)]
    } else {
        Seq::empty()
    }) + seq![Seq::empty()]
}

/// The lines of every LAN entry, in order.
pub open spec fn lan_listing(entries: Seq<LanMeshEntry>) -> Seq<Seq<char>>
    decreases entries.len(),
{
    if entries.len() == 0 {
        Seq::empty()
    } else {
        lan_listing(entries.drop_last()) + lan_entry_lines((entries.len() - 1) as nat, entries.last())
    }
}

/// The position of the first entry with a token to join by, if any.
pub open spec fn first_joinable(entries: Seq<LanMeshEntry>) -> Option<int> {
    if exists|i: int| 0 <= i < entries.len() && (#[trigger] entries[i]).join_token is Some {
        Some(choose|i: int| 0 <= i < entries.len() && (#[trigger] entries[i]).join_token is Some && forall|j: int|
            0 <= j < i ==> (#[trigger] entries[j]).join_token is None)
    } else {
        None
    }
}

/// The console lines of a LAN discovery: when nothing was found, that (and,
/// without a supplied token, why a token is needed); otherwise the listing,
/// then with auto-join a note when no mesh matched the supplied token, or
/// without it how to join.
pub open spec fn lan_console(entries: Seq<LanMeshEntry>, token_supplied: bool, auto_join: bool) -> Seq<Seq<char>> {
    if entries.len() == 0 {
        seq!["No LAN meshes found."@] + if token_supplied {
            Seq::empty()
        } else {
            seq![
                "mDNS advertisements do not include reusable invite tokens."@,
                "Pass --join <token> to verify a LAN advertisement by token fingerprint."@,
            ]
        }
    } else {
        seq!["Found "@ + decimal(entries.len()) + " LAN mesh(es):\n"@] + lan_listing(entries) + if auto_join {
            if first_joinable(entries) is Some {
                Seq::empty()
            } else {
                seq![
                    "No LAN mesh matched the supplied token fingerprint."@,
                    "mDNS intentionally does not advertise raw invite tokens."@,
                ]
            }
        } else {
            seq![
                "To join a LAN mesh:"@,
                "  mesh-llm --join <token>"@,
                "  mesh-llm --join <token> discover --mesh-discovery-mode mdns --auto"@,
            ]
        }
    }
}

/// The machine output of a LAN discovery: with auto-join, the token of the
/// first listed mesh that has one.
pub open spec fn lan_machine(entries: Seq<LanMeshEntry>, auto_join: bool) -> Option<Seq<char>> {
    if auto_join {
        match first_joinable(entries) {
            Some(i) => Some(entries[i].join_token->0@),
            None => None,
        }
    } else {
        None
    }
}

/// The lines of the LAN listing entry at 0-based position `i`.
fn lan_entry_text(i: usize, e: &LanMeshEntry) -> (res: Vec<String>)
    requires
        i < usize::MAX,
    ensures
        res.deep_view() == lan_entry_lines(i as nat, *e),
{
    let mut line = owned("  [");
    line.append(decimal_text((i + 1) as u64).as_str());
    line.append("] ");
    match &e.name {
        Some(n) => line.append(n.as_str()),
        None => line.append("(unnamed)"),
    }
    line.append("  ");
    line.append(decimal_text(e.node_count).as_str());
    line.append(" node(s), ");
    line.append(e.capacity_gb.as_str());
    line.append("GB capacity  serving: ");
    if e.serving.len() == 0 {
        line.append("(no models loaded)");
    } else {
        line.append(join_text(&e.serving, ", ").as_str());
    }
    let mut place = owned("      instance: ");
    place.append(e.instance_name.as_str());
    place.append("  host: ");
    place.append(e.host.as_str());
    place.append(":");
    place.append(decimal_text(e.port as u64).as_str());
    place.append("  ");
    if e.joinable_with_supplied_token {
        place.append("token fingerprint matched");
    } else {
        place.append("requires supplied token");
    }
    let mut lines = vec![line, place];
    match &e.published_version {
        Some(v) => {
            let mut version = owned("      version: ");
            version.append(v.as_str());
            lines.push(version);
        },
        None => {},
    }
    if e.on_disk.len() > 0 {
        let mut disk = owned("      on disk: ");
        disk.append(join_text(&e.on_disk, ", ").as_str());
        lines.push(disk);
    }
    lines.push(String::new());
    assert(lines.deep_view() =~= lan_entry_lines(i as nat, *e));
    lines
}

/// What a LAN discovery prints, given the meshes found and whether a join
/// token was supplied: the listing, and with `auto_join` the token of the
/// first mesh that matched the supplied token, on machine output.
#[verifier::loop_isolation(false)]
pub fn lan_discover_output(entries: &Vec<LanMeshEntry>, token_supplied: bool, auto_join: bool) -> (res: DiscoverOutput)
    ensures
        res.console.deep_view() == lan_console(entries@, token_supplied, auto_join),
        owned_text_option(res.machine) == lan_machine(entries@, auto_join),
{
    if entries.len() == 0 {
        let mut console = vec![owned("No LAN meshes found.")];
        if !token_supplied {
            console.push(owned("mDNS advertisements do not include reusable invite tokens."));
            console.push(owned("Pass --join <token> to verify a LAN advertisement by token fingerprint."));
        }
        assert(console.deep_view() =~= lan_console(entries@, token_supplied, auto_join));
        assert(auto_join ==> first_joinable(entries@) is None);
        return DiscoverOutput { console, machine: None };
    }
    let mut header = owned("Found ");
    header.append(decimal_text(entries.len() as u64).as_str());
    header.append(" LAN mesh(es):\n");
    let mut console = vec![header];
    let ghost first = console.deep_view();
    let mut i: usize = 0;
    while i < entries.len()
        invariant
            i <= entries.len(),
            console.deep_view() == first + lan_listing(entries@.take(i as int)),
        decreases entries.len() - i,
    {
        assert(entries@.take(i + 1).drop_last() == entries@.take(i as int));
        assert(entries@.take(i + 1).last() == entries@[i as int]);
        let lines = lan_entry_text(i, &entries[i]);
        append_lines(&mut console, lines);
        assert(first + lan_listing(entries@.take(i as int)) + lan_entry_lines(i as nat, entries@[i as int])
            =~= first + lan_listing(entries@.take(i + 1)));
        i = i + 1;
    }
    assert(entries@.take(i as int) == entries@);
    assert(first == seq!["Found "@ + decimal(entries@.len()) + " LAN mesh(es):\n"@]);
    let ghost listed = console.deep_view();
    if !auto_join {
        console.push(owned("To join a LAN mesh:"));
        console.push(owned("  mesh-llm --join <token>"));
        console.push(owned("  mesh-llm --join <token> discover --mesh-discovery-mode mdns --auto"));
        assert(console.deep_view() =~= listed + seq![
            "To join a LAN mesh:"@,
            "  mesh-llm --join <token>"@,
            "  mesh-llm --join <token> discover --mesh-discovery-mode mdns --auto"@,
        ]);
        return DiscoverOutput { console, machine: None };
    }
    let mut k: usize = 0;
    while k < entries.len()
        invariant
            k <= entries.len(),
            console.deep_view() == listed,
            forall|j: int| 0 <= j < k ==> (#[trigger] entries@[j]).join_token is None,
        decreases entries.len() - k,
    {
        match &entries[k].join_token {
            Some(token) => {
                proof {
                    assert((entries@[k as int]).join_token is Some);
                    let w = first_joinable(entries@)->0;
                    assert(w == k) by {
                        if w < k {
                            assert(entries@[w].join_token is None);
                        } else if w > k {
                            assert(entries@[k as int].join_token is None);
                        }
                    }
                    assert(console.deep_view() =~= listed + Seq::<Seq<char>>::empty());
                }
                return DiscoverOutput { console, machine: Some(token.clone()) };
            },
            None => {},
        }
        k = k + 1;
    }
    assert(first_joinable(entries@) is None);
    console.push(owned("No LAN mesh matched the supplied token fingerprint."));
    console.push(owned("mDNS intentionally does not advertise raw invite tokens."));
    assert(console.deep_view() =~= listed + seq![
        "No LAN mesh matched the supplied token fingerprint."@,
        "mDNS intentionally does not advertise raw invite tokens."@,
    ]);
    DiscoverOutput { console, machine: None }
}

/// A peer that offered a token, with none before it that did, exists as
/// soon as any peer offered one.
proof fn lemma_earliest_offering(peers: Seq<TailscaleMeshPeer>, k: int)
    requires
        0 <= k < peers.len(),
        peers[k].invite_token is Some,
    ensures
        exists|i: int| 0 <= i < peers.len() && (#[trigger] peers[i]).invite_token is Some && forall|j: int|
            0 <= j < i ==> (#[trigger] peers[j]).invite_token is None,
    decreases k,
{
    if exists|j: int| 0 <= j < k && (#[trigger] peers[j]).invite_token is Some {
        let j = choose|j: int| 0 <= j < k && (#[trigger] peers[j]).invite_token is Some;
        lemma_earliest_offering(peers, j);
    } else {
        assert(forall|j: int| 0 <= j < k ==> (#[trigger] peers[j]).invite_token is None);
    }
}

/// Auto-join over a listing in listing order takes the token of the fastest
/// peer that offered one: no other offering peer is listed before it. When
/// no peer offered a token, nothing is printed for joining.
pub proof fn auto_join_takes_the_fastest_offering_peer(peers: Seq<TailscaleMeshPeer>)
    requires
        listed_in_order(peers),
    ensures
        match first_offering(peers) {
            Some(i) => {
                &&& 0 <= i < peers.len()
                &&& discover_machine(peers, true) == Some(peers[i].invite_token->0@)
                &&& forall|j: int| 0 <= j < peers.len() && (#[trigger] peers[j]).invite_token is Some ==> !listed_before(peers[j], peers[i])
            },
            None => discover_machine(peers, true) is None && forall|j: int| 0 <= j < peers.len() ==> (#[trigger] peers[j]).invite_token is None,
        },
{
    if exists|k: int| 0 <= k < peers.len() && (#[trigger] peers[k]).invite_token is Some {
        let k = choose|k: int| 0 <= k < peers.len() && (#[trigger] peers[k]).invite_token is Some;
        lemma_earliest_offering(peers, k);
        let i = first_offering(peers)->0;
        assert(0 <= i < peers.len() && peers[i].invite_token is Some && forall|j: int|
            0 <= j < i ==> (#[trigger] peers[j]).invite_token is None);
        assert forall|j: int| 0 <= j < peers.len() && (#[trigger] peers[j]).invite_token is Some implies !listed_before(peers[j], peers[i]) by {
            if j < i {
                assert(peers[j].invite_token is None);
            } else if j == i {
                crate::order::lemma_chars_precede_irreflexive(peers[i].hostname@);
            }
        }
    }
}

/// A Tailscale discovery with peers lists each of them, in order, after a
/// header with their number: the position from 1, the host name, the API
/// base URL and the models served (or "(no models loaded)").
pub proof fn discover_listing_shows_name_url_and_models(peers: Seq<TailscaleMeshPeer>, auto_join: bool)
    requires
        peers.len() > 0,
    ensures
        discover_console(peers, auto_join).len() > peers.len(),
        discover_console(peers, auto_join)[0] == "Found "@ + decimal(peers.len()) + " MeshLLM peer(s) on Tailscale:\n"@,
        forall|i: int| #![trigger peers[i]] 0 <= i < peers.len() ==> discover_console(peers, auto_join)[i + 1]
            == "  ["@ + decimal((i + 1) as nat) + "] "@ + peers[i].hostname@ + "  "@ + peers[i].api_base_url@ + "  models: "@
            + (if peers[i].models@.len() == 0 { "(no models loaded)"@ } else { joined(peers[i].models.deep_view(), ", "@) }),
{
    let lines = discover_console(peers, auto_join);
    let listing = seq!["Found "@ + decimal(peers.len()) + " MeshLLM peer(s) on Tailscale:\n"@]
        + Seq::new(peers.len(), |k: int| listing_line(k as nat, peers[k]));
    assert(lines.len() >= listing.len() && forall|j: int| 0 <= j < listing.len() ==> lines[j] == listing[j]);
    assert forall|i: int| #![trigger peers[i]] 0 <= i < peers.len() implies lines[i + 1]
        == "  ["@ + decimal((i + 1) as nat) + "] "@ + peers[i].hostname@ + "  "@ + peers[i].api_base_url@ + "  models: "@
        + (if peers[i].models@.len() == 0 { "(no models loaded)"@ } else { joined(peers[i].models.deep_view(), ", "@) }) by {
        assert(lines[i + 1] == listing[i + 1]);
        assert(listing[i + 1] == listing_line(i as nat, peers[i]));
    }
}

} // verus!
