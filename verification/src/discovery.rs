//! Tailnet discovery: which peers are probed, and the list of MeshLLM peers
//! that answered, fastest first.

use vstd::prelude::*;
use std::cmp::Ordering;
use crate::order::{
    is_stable_listing, latency_precedes, order_text, sort_listing, LatencyListed,
};
use crate::probe::PeerProbe;
use crate::tailnet::{
    answers_to, carries_meshllm_tag, has_meshllm_tag, matches_target_name, text_option,
    TailscalePeer, TailscaleStatus,
};

verus! {

/// A MeshLLM peer found on the tailnet. The invite token is carried for the
/// caller that joins, and is never part of what is shown.
pub struct TailscaleMeshPeer {
    pub hostname: String,
    pub address: String,
    pub os: Option<String>,
    pub models: Vec<String>,
    pub api_base_url: String,
    pub latency_ms: Option<u64>,
    pub invite_token: Option<String>,
}

impl LatencyListed for TailscaleMeshPeer {
    open spec fn listed_latency(&self) -> Option<u64> {
        self.latency_ms
    }

    open spec fn listed_name(&self) -> Seq<char> {
        self.hostname@
    }
}

/// Whether one of `peer`'s reported address texts is also one of `other`'s.
pub open spec fn shares_address_text(peer: TailscalePeer, other: TailscalePeer) -> bool {
    exists|i: int, j: int|
        0 <= i < peer.addresses@.len() && 0 <= j < other.addresses@.len()
            && #[trigger] peer.addresses@[i].text@ == #[trigger] other.addresses@[j].text@
}

/// A peer is probed during discovery when it is online, carries the MeshLLM
/// tag, is not the local device, and answers to the target name.
pub open spec fn is_discovery_candidate(
    peer: TailscalePeer,
    self_peer: TailscalePeer,
    target: Option<Seq<char>>,
) -> bool {
    &&& peer.online
    &&& carries_meshllm_tag(peer)
    &&& !shares_address_text(peer, self_peer)
    &&& answers_to(peer, target)
}

/// Whether `idx` lists, in increasing order, exactly the positions of
/// `peers` that satisfy `pred`.
pub open spec fn selects_exactly(
    idx: Seq<usize>,
    peers: Seq<TailscalePeer>,
    pred: spec_fn(TailscalePeer) -> bool,
) -> bool {
    &&& forall|k: int| 0 <= k < idx.len() ==> #[trigger] idx[k] < peers.len() && pred(peers[idx[k] as int])
    &&& forall|i: int| 0 <= i < peers.len() && pred(#[trigger] peers[i]) ==> exists|k: int| 0 <= k < idx.len() && idx[k] == i
    &&& forall|k1: int, k2: int| 0 <= k1 < k2 < idx.len() ==> #[trigger] idx[k1] < #[trigger] idx[k2]
}

/// The listing entry for a probe.
pub open spec fn mesh_peer_of(p: PeerProbe) -> TailscaleMeshPeer {
    TailscaleMeshPeer {
        hostname: p.hostname,
        address: p.address,
        os: p.os,
        models: p.models,
        api_base_url: p.api_base_url,
        latency_ms: p.latency_ms,
        invite_token: p.invite_token,
    }
}

/// The listing entries of the reachable probes, in probe order.
pub open spec fn reachable_mesh_peers(probes: Seq<PeerProbe>) -> Seq<TailscaleMeshPeer>
    decreases probes.len(),
{
    if probes.len() == 0 {
        Seq::empty()
    } else {
        let prev = reachable_mesh_peers(probes.drop_last());
        if probes.last().reachable {
            prev.push(mesh_peer_of(probes.last()))
        } else {
            prev
        }
    }
}

/// Whether any reported address text of `peer` is also one of `other`'s.
pub fn shares_address(peer: &TailscalePeer, other: &TailscalePeer) -> (res: bool)
    ensures
        res == shares_address_text(*peer, *other),
{
    let mut i: usize = 0;
    while i < peer.addresses.len()
        invariant
            i <= peer.addresses.len(),
            forall|a: int, b: int|
                0 <= a < i && 0 <= b < other.addresses@.len() ==> #[trigger] peer.addresses@[a].text@
                    != #[trigger] other.addresses@[b].text@,
        decreases peer.addresses.len() - i,
    {
        let mut j: usize = 0;
        while j < other.addresses.len()
            invariant
                i < peer.addresses.len(),
                j <= other.addresses.len(),
                forall|a: int, b: int|
                    0 <= a < i && 0 <= b < other.addresses@.len() ==> #[trigger] peer.addresses@[a].text@
                        != #[trigger] other.addresses@[b].text@,
                forall|b: int|
                    0 <= b < j ==> peer.addresses@[i as int].text@ != #[trigger] other.addresses@[b].text@,
            decreases other.addresses.len() - j,
        {
            if peer.addresses[i].text == other.addresses[j].text {
                return true;
            }
            j = j + 1;
        }
        i = i + 1;
    }
    false
}

/// The positions, in order, of the peers that discovery probes: online,
/// tagged, not the local device, answering to `target_name`.
pub fn discovery_candidates(status: &TailscaleStatus, target_name: Option<&str>) -> (res: Vec<usize>)
    ensures
        selects_exactly(
            res@,
            status.peers@,
            |p: TailscalePeer| is_discovery_candidate(p, status.self_peer, text_option(target_name)),
        ),
{
    let ghost pred = |p: TailscalePeer| is_discovery_candidate(p, status.self_peer, text_option(target_name));
    let mut res: Vec<usize> = Vec::new();
    let mut i: usize = 0;
    while i < status.peers.len()
        invariant
            i <= status.peers.len(),
            pred == (|p: TailscalePeer| is_discovery_candidate(p, status.self_peer, text_option(target_name))),
            forall|k: int| 0 <= k < res@.len() ==> #[trigger] res@[k] < i && pred(status.peers@[res@[k] as int]),
            forall|a: int| 0 <= a < i && pred(#[trigger] status.peers@[a]) ==> exists|k: int| 0 <= k < res@.len() && res@[k] == a,
            forall|k1: int, k2: int| 0 <= k1 < k2 < res@.len() ==> #[trigger] res@[k1] < #[trigger] res@[k2],
        decreases status.peers.len() - i,
    {
        let peer = &status.peers[i];
        let ghost prev = res@;
        let chosen = peer.online && has_meshllm_tag(peer) && !shares_address(peer, &status.self_peer)
            && matches_target_name(peer, target_name);
        if chosen {
            res.push(i);
        }
        assert forall|a: int| 0 <= a < i + 1 && pred(#[trigger] status.peers@[a]) implies exists|k: int|
            0 <= k < res@.len() && res@[k] == a by {
            if a == i {
                assert(res@[res@.len() - 1] == i);
            } else {
                let k = choose|k: int| 0 <= k < prev.len() && prev[k] == a;
                assert(res@[k] == prev[k]);
            }
        }
        i = i + 1;
    }
    res
}

/// Orders discovered peers: measured latency first and smaller first, the
/// host name deciding ties.
pub fn compare_peer_latency(a: &TailscaleMeshPeer, b: &TailscaleMeshPeer) -> (res: Ordering)
    ensures
        (res == Ordering::Less) == latency_precedes(a.latency_ms, a.hostname@, b.latency_ms, b.hostname@),
        (res == Ordering::Equal) == (a.latency_ms == b.latency_ms && a.hostname@ == b.hostname@),
        (res == Ordering::Greater) == latency_precedes(b.latency_ms, b.hostname@, a.latency_ms, a.hostname@),
{
    match (a.latency_ms, b.latency_ms) {
        (Some(x), Some(y)) => {
            if x < y {
                Ordering::Less
            } else if y < x {
                Ordering::Greater
            } else {
                order_text(a.hostname.as_str(), b.hostname.as_str())
            }
        },
        (Some(_), None) => Ordering::Less,
        (None, Some(_)) => Ordering::Greater,
        (None, None) => order_text(a.hostname.as_str(), b.hostname.as_str()),
    }
}

/// Sort discovered peers stably into listing order.
fn sort_mesh_peers(peers: &mut Vec<TailscaleMeshPeer>)
    ensures
        is_stable_listing(final(peers)@, old(peers)@),
{
    sort_listing(peers, compare_peer_latency)
}

/// The discovered MeshLLM peers: the reachable probes as listing entries,
/// stably sorted fastest first.
pub fn discovered_peers(probes: Vec<PeerProbe>) -> (res: Vec<TailscaleMeshPeer>)
    ensures
        is_stable_listing(res@, reachable_mesh_peers(probes@)),
        forall|k: int| #![trigger res@[k]] 0 <= k < res@.len() ==> exists|i: int| #![trigger probes@[i]] 0 <= i < probes@.len()
            && probes@[i].reachable
            && res@[k].hostname == probes@[i].hostname
            && res@[k].address == probes@[i].address
            && res@[k].os == probes@[i].os
            && res@[k].models == probes@[i].models
            && res@[k].api_base_url == probes@[i].api_base_url
            && res@[k].latency_ms == probes@[i].latency_ms
            && res@[k].invite_token == probes@[i].invite_token,
{
    let ghost all = probes@;
    let mut res: Vec<TailscaleMeshPeer> = Vec::new();
    let mut rest = probes;
    proof {
        assert(all.take(0) =~= Seq::<PeerProbe>::empty());
    }
    while rest.len() > 0
        invariant
            res@ == reachable_mesh_peers(all.take(all.len() - rest@.len())),
            rest@ == all.skip(all.len() - rest@.len()),
            rest@.len() <= all.len(),
        decreases rest@.len(),
    {
        let ghost done = all.len() - rest@.len();
        let p = rest.remove(0);
        assert(all.take(done + 1).drop_last() == all.take(done));
        assert(all.take(done + 1).last() == p);
        assert(rest@ == all.skip(done + 1));
        if p.reachable {
            res.push(TailscaleMeshPeer {
                hostname: p.hostname,
                address: p.address,
                os: p.os,
                models: p.models,
                api_base_url: p.api_base_url,
                latency_ms: p.latency_ms,
                invite_token: p.invite_token,
            });
        }
    }
    assert(all.take(all.len() as int) == all);
    sort_mesh_peers(&mut res);
    proof {
        discovered_peers_keep_their_probe_fields(all, res@);
    }
    res
}

/// What `reachable_mesh_peers` holds: one entry per reachable probe, and
/// only entries of reachable probes.
pub proof fn lemma_reachable_mesh_peers(probes: Seq<PeerProbe>)
    ensures
        reachable_mesh_peers(probes).len() == probes.filter(|p: PeerProbe| p.reachable).len(),
        forall|m: TailscaleMeshPeer| #[trigger] reachable_mesh_peers(probes).contains(m) <==> exists|i: int|
            0 <= i < probes.len() && probes[i].reachable && m == mesh_peer_of(#[trigger] probes[i]),
    decreases probes.len(),
{
    let reached = |p: PeerProbe| p.reachable;
    if probes.len() > 0 {
        let prev = probes.drop_last();
        let last = probes.last();
        lemma_reachable_mesh_peers(prev);
        prev.lemma_filter_len_push(reached, last);
        assert(prev.push(last) == probes);
        let listed = reachable_mesh_peers(probes);
        let before = reachable_mesh_peers(prev);
        assert forall|m: TailscaleMeshPeer| #[trigger] listed.contains(m) implies exists|i: int|
            0 <= i < probes.len() && probes[i].reachable && m == mesh_peer_of(#[trigger] probes[i]) by {
            if before.contains(m) {
                let i = choose|i: int| 0 <= i < prev.len() && prev[i].reachable && m == mesh_peer_of(#[trigger] prev[i]);
                assert(probes[i] == prev[i]);
            } else {
                assert(last.reachable && m == mesh_peer_of(last)) by {
                    if last.reachable {
                        let k = choose|k: int| 0 <= k < listed.len() && listed[k] == m;
                        if k < before.len() {
                            assert(before[k] == listed[k]);
                        }
                    }
                }
                assert(probes[probes.len() - 1] == last);
            }
        }
        assert forall|m: TailscaleMeshPeer| (exists|i: int|
            0 <= i < probes.len() && probes[i].reachable && m == mesh_peer_of(#[trigger] probes[i])) implies #[trigger] listed.contains(m) by {
            let i = choose|i: int| 0 <= i < probes.len() && probes[i].reachable && m == mesh_peer_of(#[trigger] probes[i]);
            if i < prev.len() {
                assert(prev[i] == probes[i]);
                assert(before.contains(m));
                let k = choose|k: int| 0 <= k < before.len() && before[k] == m;
                assert(listed[k] == m);
            } else {
                assert(listed[listed.len() - 1] == m);
            }
        }
    }
}

/// Discovery lists exactly the peers that answered: one entry per reachable
/// probe, each built from a reachable probe, and every reachable probe
/// listed; peers that were offline or did not answer never appear.
pub proof fn discovery_lists_exactly_the_reachable(probes: Seq<PeerProbe>, listed: Seq<TailscaleMeshPeer>)
    requires
        is_stable_listing(listed, reachable_mesh_peers(probes)),
    ensures
        listed.len() == probes.filter(|p: PeerProbe| p.reachable).len(),
        forall|m: TailscaleMeshPeer| #[trigger] listed.contains(m) ==> exists|i: int|
            0 <= i < probes.len() && probes[i].reachable && m == mesh_peer_of(#[trigger] probes[i]),
        forall|i: int| 0 <= i < probes.len() && (#[trigger] probes[i]).reachable ==> listed.contains(mesh_peer_of(probes[i])),
{
    broadcast use vstd::seq_lib::group_to_multiset_ensures;

    let reached = reachable_mesh_peers(probes);
    lemma_reachable_mesh_peers(probes);
    assert(listed.len() == reached.len()) by {
        assert(listed.to_multiset().len() == listed.len());
        assert(reached.to_multiset().len() == reached.len());
    }
    assert forall|m: TailscaleMeshPeer| #[trigger] listed.contains(m) implies exists|i: int|
        0 <= i < probes.len() && probes[i].reachable && m == mesh_peer_of(#[trigger] probes[i]) by {
        assert(listed.to_multiset().count(m) > 0);
        assert(reached.contains(m));
    }
    assert forall|i: int| 0 <= i < probes.len() && (#[trigger] probes[i]).reachable implies listed.contains(mesh_peer_of(probes[i])) by {
        let m = mesh_peer_of(probes[i]);
        assert(reached.contains(m));
        assert(reached.to_multiset().count(m) > 0);
    }
}

/// Each discovered peer is a reachable probe carried over field for field:
/// its name, address, OS, models, API base URL, latency and token are those
/// of the probe; and every reachable probe is listed so.
pub proof fn discovered_peers_keep_their_probe_fields(probes: Seq<PeerProbe>, listed: Seq<TailscaleMeshPeer>)
    requires
        is_stable_listing(listed, reachable_mesh_peers(probes)),
    ensures
        forall|k: int| #![trigger listed[k]] 0 <= k < listed.len() ==> exists|i: int| #![trigger probes[i]] 0 <= i < probes.len()
            && probes[i].reachable
            && listed[k].hostname == probes[i].hostname
            && listed[k].address == probes[i].address
            && listed[k].os == probes[i].os
            && listed[k].models == probes[i].models
            && listed[k].api_base_url == probes[i].api_base_url
            && listed[k].latency_ms == probes[i].latency_ms
            && listed[k].invite_token == probes[i].invite_token,
        forall|i: int| 0 <= i < probes.len()
            && (#[trigger] probes[i]).reachable ==> exists|k: int| #![trigger listed[k]] 0 <= k < listed.len()
            && listed[k].hostname == probes[i].hostname
            && listed[k].address == probes[i].address
            && listed[k].os == probes[i].os
            && listed[k].models == probes[i].models
            && listed[k].api_base_url == probes[i].api_base_url
            && listed[k].latency_ms == probes[i].latency_ms
            && listed[k].invite_token == probes[i].invite_token,
{
    discovery_lists_exactly_the_reachable(probes, listed);
    assert forall|k: int| #![trigger listed[k]] 0 <= k < listed.len() implies exists|i: int| #![trigger probes[i]] 0 <= i < probes.len()
        && probes[i].reachable
        && listed[k].hostname == probes[i].hostname
        && listed[k].address == probes[i].address
        && listed[k].os == probes[i].os
        && listed[k].models == probes[i].models
        && listed[k].api_base_url == probes[i].api_base_url
        && listed[k].latency_ms == probes[i].latency_ms
        && listed[k].invite_token == probes[i].invite_token by {
        assert(listed.contains(listed[k]));
        let i = choose|i: int| 0 <= i < probes.len() && probes[i].reachable && listed[k] == mesh_peer_of(#[trigger] probes[i]);
        assert(probes[i].reachable);
    }
    assert forall|i: int| 0 <= i < probes.len()
        && (#[trigger] probes[i]).reachable implies exists|k: int| #![trigger listed[k]] 0 <= k < listed.len()
        && listed[k].hostname == probes[i].hostname
        && listed[k].address == probes[i].address
        && listed[k].os == probes[i].os
        && listed[k].models == probes[i].models
        && listed[k].api_base_url == probes[i].api_base_url
        && listed[k].latency_ms == probes[i].latency_ms
        && listed[k].invite_token == probes[i].invite_token by {
        assert(listed.contains(mesh_peer_of(probes[i])));
        let k = choose|k: int| 0 <= k < listed.len() && listed[k] == mesh_peer_of(probes[i]);
        assert(listed[k] == mesh_peer_of(probes[i]));
    }
}

} // verus!
