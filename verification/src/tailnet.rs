//! The tailnet as the library sees it: peers as `tailscale status --json`
//! reports them, their addresses, and the rules that decide which of them
//! MeshLLM trusts and how they are named and reached.

use vstd::prelude::*;
use vstd::string::StringExecFns;
use crate::text::{
    decimal, decimal_text, eq_ignore_ascii_case_text, equal_ignoring_ascii_case, owned,
    is_blank, lemma_trimmed_shape, position_of, split_once_char_text, trim_end_char, trim_end_char_text, trim_text,
    trimmed,
};

verus! {

/// Port the MeshLLM API listens on.
pub const DEFAULT_MESH_API_PORT: u16 = 9337;

/// The tag a tailnet device must carry before MeshLLM treats it as a peer.
pub open spec fn meshllm_tag() -> Seq<char> {
    "tag:mesh-llm"@
}

/// An IP address, by its numeric parts.
#[derive(Clone, Copy, Debug, PartialEq, Eq, Structural)]
pub enum IpAddress {
    V4(u8, u8, u8, u8),
    V6(u16, u16, u16, u16, u16, u16, u16, u16),
}

/// A parsed tailnet address together with its canonical text (the form
/// `Display` gives it: dotted decimal, or compressed lower-case hex).
pub struct TailnetIp {
    pub addr: IpAddress,
    pub text: String,
}

/// One entry of a peer's `TailscaleIPs`: the text as reported, and the
/// address it parses to, if it parses.
pub struct TailnetAddress {
    pub text: String,
    pub ip: Option<TailnetIp>,
}

/// A device of the tailnet, as `tailscale status --json` reports it.
pub struct TailscalePeer {
    pub hostname: String,
    pub dns_name: String,
    pub addresses: Vec<TailnetAddress>,
    pub os: Option<String>,
    pub online: bool,
    pub tags: Vec<String>,
}

/// The local device and the peers it sees.
pub struct TailscaleStatus {
    pub self_peer: TailscalePeer,
    pub peers: Vec<TailscalePeer>,
}

/// Whether `ip` lies in the ranges Tailscale assigns: `100.64.0.0/10`, or
/// the `fd7a:115c:a1e0::/48` prefix.
pub open spec fn in_tailscale_range(ip: IpAddress) -> bool {
    match ip {
        IpAddress::V4(a, b, _, _) => a == 100 && 64 <= b <= 127,
        IpAddress::V6(s0, s1, s2, _, _, _, _, _) => s0 == 0xfd7a && s1 == 0x115c && s2 == 0xa1e0,
    }
}

pub open spec fn is_v6(ip: IpAddress) -> bool {
    ip is V6
}

/// Whether the peer carries the MeshLLM tag.
pub open spec fn carries_meshllm_tag(peer: TailscalePeer) -> bool {
    peer.tags.deep_view().contains(meshllm_tag())
}

/// Whether one of the peer's reported addresses parses to `ip`.
pub open spec fn reports_address(peer: TailscalePeer, ip: IpAddress) -> bool {
    exists|i: int|
        0 <= i < peer.addresses@.len() && #[trigger] parsed_as(peer.addresses@[i], ip)
}

pub open spec fn parsed_as(address: TailnetAddress, ip: IpAddress) -> bool {
    address.ip matches Some(t) && t.addr == ip
}

/// A peer is authorized as a MeshLLM peer when it reports `ip` and carries
/// the MeshLLM tag.
pub open spec fn authorizes(peer: TailscalePeer, ip: IpAddress) -> bool {
    reports_address(peer, ip) && carries_meshllm_tag(peer)
}

/// Whether `ip` belongs to the local device or to one of its peers, and
/// that device carries the MeshLLM tag.
pub open spec fn knows_authorized(status: TailscaleStatus, ip: IpAddress) -> bool {
    authorizes(status.self_peer, ip) || exists|i: int| 0 <= i < status.peers@.len() && authorizes(#[trigger] status.peers@[i], ip)
}

/// The name a peer goes by: its trimmed host name, or when that is blank its
/// DNS name without trailing dots.
pub open spec fn hostname_of(peer: TailscalePeer) -> Seq<char> {
    if trimmed(peer.hostname@).len() > 0 {
        trimmed(peer.hostname@)
    } else {
        trim_end_char(peer.dns_name@, '.')
    }
}

/// The MagicDNS short name of a peer: its DNS name up to the first dot.
pub open spec fn dns_short_name(peer: TailscalePeer) -> Seq<char> {
    match position_of(peer.dns_name@, '.') {
        Some(i) => peer.dns_name@.take(i as int),
        None => peer.dns_name@,
    }
}

/// Whether the peer answers to `target`, ignoring ASCII case: by the name it
/// goes by, by its DNS name, or by its MagicDNS short name. No target
/// matches every peer.
pub open spec fn answers_to(peer: TailscalePeer, target: Option<Seq<char>>) -> bool {
    match target {
        None => true,
        Some(t) => {
            ||| equal_ignoring_ascii_case(hostname_of(peer), t)
            ||| equal_ignoring_ascii_case(peer.dns_name@, t)
            ||| equal_ignoring_ascii_case(dns_short_name(peer), t)
        },
    }
}

/// The characters of an optional text.
pub open spec fn text_option(t: Option<&str>) -> Option<Seq<char>> {
    match t {
        Some(t) => Some(t@),
        None => None,
    }
}

/// The API base URL of a peer reached at `ip`; IPv6 addresses are bracketed.
pub open spec fn base_url_of(ip: TailnetIp) -> Seq<char> {
    if is_v6(ip.addr) {
        "http://["@ + ip.text@ + "]:"@ + decimal(DEFAULT_MESH_API_PORT as nat)
    } else {
        "http://"@ + ip.text@ + ":"@ + decimal(DEFAULT_MESH_API_PORT as nat)
    }
}

/// Whether `ip` lies in the Tailscale address ranges.
pub fn is_tailscale_ip(ip: &IpAddress) -> (res: bool)
    ensures
        res == in_tailscale_range(*ip),
{
    match ip {
        IpAddress::V4(a, b, _, _) => *a == 100 && 64 <= *b && *b <= 127,
        IpAddress::V6(s0, s1, s2, _, _, _, _, _) => *s0 == 0xfd7a && *s1 == 0x115c && *s2
            == 0xa1e0,
    }
}

/// Whether the peer carries the MeshLLM tag (exactly; no prefix or case
/// variant counts).
pub fn has_meshllm_tag(peer: &TailscalePeer) -> (res: bool)
    ensures
        res == carries_meshllm_tag(*peer),
{
    let tag = owned("tag:mesh-llm");
    let mut i: usize = 0;
    while i < peer.tags.len()
        invariant
            i <= peer.tags.len(),
            tag@ == meshllm_tag(),
            forall|j: int| 0 <= j < i ==> peer.tags@[j]@ != meshllm_tag(),
        decreases peer.tags.len() - i,
    {
        if peer.tags[i] == tag {
            assert(peer.tags.deep_view()[i as int] == meshllm_tag());
            return true;
        }
        i = i + 1;
    }
    assert(!peer.tags.deep_view().contains(meshllm_tag())) by {
        if peer.tags.deep_view().contains(meshllm_tag()) {
            let k = choose|k: int|
                0 <= k < peer.tags.deep_view().len() && peer.tags.deep_view()[k] == meshllm_tag();
            assert(peer.tags@[k]@ == meshllm_tag());
        }
    }
    false
}

/// Whether one of the peer's reported addresses parses to `ip`.
pub fn peer_reports_address(peer: &TailscalePeer, ip: &IpAddress) -> (res: bool)
    ensures
        res == reports_address(*peer, *ip),
        res == exists|i: int| #![trigger peer.addresses@[i]]
            0 <= i < peer.addresses@.len() && peer.addresses@[i].ip is Some && peer.addresses@[i].ip->0.addr == *ip,
{
    proof {
        authorized_at_every_reported_address(*peer, *ip);
    }
    let mut i: usize = 0;
    while i < peer.addresses.len()
        invariant
            i <= peer.addresses.len(),
            forall|j: int| 0 <= j < i ==> !parsed_as(#[trigger] peer.addresses@[j], *ip),
        decreases peer.addresses.len() - i,
    {
        match &peer.addresses[i].ip {
            Some(t) => {
                if t.addr == *ip {
                    assert(parsed_as(peer.addresses@[i as int], *ip));
                    return true;
                }
            },
            None => {},
        }
        i = i + 1;
    }
    false
}

/// A peer is a MeshLLM peer at `ip` when it reports that address and carries
/// the MeshLLM tag; tailnet membership alone is not enough.
pub fn is_authorized_peer(peer: &TailscalePeer, ip: &IpAddress) -> (res: bool)
    ensures
        res == authorizes(*peer, *ip),
        res == ((exists|i: int| #![trigger peer.addresses@[i]]
            0 <= i < peer.addresses@.len() && peer.addresses@[i].ip is Some && peer.addresses@[i].ip->0.addr == *ip)
            && exists|j: int| #![trigger peer.tags@[j]] 0 <= j < peer.tags@.len() && peer.tags@[j]@ == "tag:mesh-llm"@),
{
    proof {
        authorized_at_every_reported_address(*peer, *ip);
    }
    peer_reports_address(peer, ip) && has_meshllm_tag(peer)
}

/// Whether `ip` belongs to the local device or to one of its peers that is
/// authorized as a MeshLLM peer.
pub fn is_known_tailscale_peer(status: &TailscaleStatus, ip: &IpAddress) -> (res: bool)
    ensures
        res == knows_authorized(*status, *ip),
{
    if is_authorized_peer(&status.self_peer, ip) {
        return true;
    }
    let mut i: usize = 0;
    while i < status.peers.len()
        invariant
            i <= status.peers.len(),
            forall|j: int| 0 <= j < i ==> !authorizes(#[trigger] status.peers@[j], *ip),
        decreases status.peers.len() - i,
    {
        if is_authorized_peer(&status.peers[i], ip) {
            return true;
        }
        i = i + 1;
    }
    false
}

/// The name a peer goes by: its trimmed host name, or its DNS name without
/// trailing dots when the host name is blank.
pub fn peer_hostname(peer: &TailscalePeer) -> (res: String)
    ensures
        res@ == hostname_of(*peer),
        !is_blank(peer.hostname@) ==> res@ == trimmed(peer.hostname@),
        is_blank(peer.hostname@) ==> res@ == trim_end_char(peer.dns_name@, '.'),
{
    proof {
        lemma_trimmed_shape(peer.hostname@);
    }
    let host = trim_text(peer.hostname.as_str());
    if !host.is_empty() {
        owned(host)
    } else {
        owned(trim_end_char_text(peer.dns_name.as_str(), '.'))
    }
}

/// The MagicDNS short name of a peer: its DNS name up to the first dot.
pub fn peer_dns_short_name(peer: &TailscalePeer) -> (res: &str)
    ensures
        res@ == dns_short_name(*peer),
{
    match split_once_char_text(peer.dns_name.as_str(), '.') {
        Some((short, _)) => short,
        None => peer.dns_name.as_str(),
    }
}

/// Whether the peer answers to `target_name`, ignoring ASCII case: by the
/// name it goes by, its DNS name, or its MagicDNS short name; with no target
/// every peer matches.
pub fn matches_target_name(peer: &TailscalePeer, target_name: Option<&str>) -> (res: bool)
    ensures
        res == answers_to(*peer, text_option(target_name)),
{
    match target_name {
        None => true,
        Some(target) => {
            let hostname = peer_hostname(peer);
            eq_ignore_ascii_case_text(hostname.as_str(), target) || eq_ignore_ascii_case_text(
                peer.dns_name.as_str(),
                target,
            ) || eq_ignore_ascii_case_text(peer_dns_short_name(peer), target)
        },
    }
}

/// The API base URL of a peer reached at `ip`, on the MeshLLM API port.
pub fn api_base_url(ip: &TailnetIp) -> (res: String)
    ensures
        res@ == base_url_of(*ip),
{
    let port = decimal_text(DEFAULT_MESH_API_PORT as u64);
    let mut url = match ip.addr {
        IpAddress::V4(..) => owned("http://"),
        IpAddress::V6(..) => owned("http://["),
    };
    url.append(ip.text.as_str());
    match ip.addr {
        IpAddress::V4(..) => url.append(":"),
        IpAddress::V6(..) => url.append("]:"),
    }
    url.append(port.as_str());
    url
}

/// A peer is authorized at an address exactly when one of the addresses it
/// reports, whichever position it has, parses to that address and one of its
/// tags is exactly `tag:mesh-llm`; a status knows the address as authorized
/// whenever one of its devices is so.
pub proof fn authorized_at_every_reported_address(peer: TailscalePeer, ip: IpAddress)
    ensures
        reports_address(peer, ip) == exists|i: int| #![trigger peer.addresses@[i]]
            0 <= i < peer.addresses@.len() && peer.addresses@[i].ip is Some && peer.addresses@[i].ip->0.addr == ip,
        carries_meshllm_tag(peer) == exists|j: int| #![trigger peer.tags@[j]]
            0 <= j < peer.tags@.len() && peer.tags@[j]@ == "tag:mesh-llm"@,
        forall|i: int| #![trigger peer.addresses@[i]] 0 <= i < peer.addresses@.len() && peer.addresses@[i].ip is Some
            && peer.addresses@[i].ip->0.addr == ip && carries_meshllm_tag(peer) ==> authorizes(peer, ip),
{
    if exists|i: int| #![trigger peer.addresses@[i]]
        0 <= i < peer.addresses@.len() && peer.addresses@[i].ip is Some && peer.addresses@[i].ip->0.addr == ip {
        let i = choose|i: int| #![trigger peer.addresses@[i]]
            0 <= i < peer.addresses@.len() && peer.addresses@[i].ip is Some && peer.addresses@[i].ip->0.addr == ip;
        assert(parsed_as(peer.addresses@[i], ip));
    }
    if carries_meshllm_tag(peer) {
        let j = choose|j: int| 0 <= j < peer.tags.deep_view().len() && peer.tags.deep_view()[j] == meshllm_tag();
        assert(peer.tags@[j]@ == "tag:mesh-llm"@);
    }
    if exists|j: int| #![trigger peer.tags@[j]] 0 <= j < peer.tags@.len() && peer.tags@[j]@ == "tag:mesh-llm"@ {
        let j = choose|j: int| #![trigger peer.tags@[j]] 0 <= j < peer.tags@.len() && peer.tags@[j]@ == "tag:mesh-llm"@;
        assert(peer.tags.deep_view()[j] == meshllm_tag());
    }
    assert forall|i: int| #![trigger peer.addresses@[i]] 0 <= i < peer.addresses@.len() && peer.addresses@[i].ip is Some
        && peer.addresses@[i].ip->0.addr == ip && carries_meshllm_tag(peer) implies authorizes(peer, ip) by {
        assert(parsed_as(peer.addresses@[i], ip));
    }
}

/// A status knows an address as authorized when a device of it, the local
/// one or any peer, reports that address at any position and carries the
/// MeshLLM tag.
pub proof fn known_at_every_reported_address(status: TailscaleStatus, ip: IpAddress, k: int, i: int)
    requires
        0 <= k < status.peers@.len(),
        0 <= i < status.peers@[k].addresses@.len(),
        status.peers@[k].addresses@[i].ip matches Some(t) && t.addr == ip,
        carries_meshllm_tag(status.peers@[k]),
    ensures
        knows_authorized(status, ip),
{
    authorized_at_every_reported_address(status.peers@[k], ip);
    assert(authorizes(status.peers@[k], ip));
}

} // verus!
