//! The Tailscale doctor report: what the tailnet looks like from here, and
//! how each MeshLLM-tagged peer answered. It holds no invite token, only
//! whether one was offered.

use vstd::prelude::*;
use std::cmp::Ordering;
use crate::discovery::{selects_exactly, shares_address, shares_address_text};
use crate::order::{is_stable_listing, latency_precedes, lemma_stable_listing_unique, order_text, sort_listing, LatencyListed};
use crate::probe::{probe_consistent, PeerProbe};
use crate::tailnet::{carries_meshllm_tag, has_meshllm_tag, hostname_of, peer_hostname, TailscalePeer, TailscaleStatus};
use crate::text::owned;
use vstd::string::StringExecFns;

verus! {

/// How one MeshLLM-tagged peer answered.
pub struct TailscaleDoctorPeer {
    pub hostname: String,
    pub address: String,
    pub os: Option<String>,
    pub online: bool,
    pub reachable: bool,
    pub bootstrap_available: bool,
    pub latency_ms: Option<u64>,
    pub model_count: usize,
}

impl LatencyListed for TailscaleDoctorPeer {
    open spec fn listed_latency(&self) -> Option<u64> {
        self.latency_ms
    }

    open spec fn listed_name(&self) -> Seq<char> {
        self.hostname@
    }
}

/// The doctor's findings.
pub struct TailscaleDoctorReport {
    pub status_ok: bool,
    pub status_error: Option<String>,
    pub self_hostname: Option<String>,
    pub self_addresses: Vec<String>,
    pub total_peer_count: usize,
    pub online_peer_count: usize,
    pub tagged_peer_count: usize,
    pub online_tagged_peer_count: usize,
    pub reachable_tagged_peer_count: usize,
    pub bootstrap_peer_count: usize,
    pub peers: Vec<TailscaleDoctorPeer>,
}

/// Whether a peer is counted when counting online peers (`online_only`),
/// tagged peers (`tagged_only`), or both.
pub open spec fn counted(p: TailscalePeer, online_only: bool, tagged_only: bool) -> bool {
    (!online_only || p.online) && (!tagged_only || carries_meshllm_tag(p))
}

/// The number of `peers` counted under the given conditions.
pub open spec fn peer_count(peers: Seq<TailscalePeer>, online_only: bool, tagged_only: bool) -> nat {
    peers.filter(|p: TailscalePeer| counted(p, online_only, tagged_only)).len()
}

/// Whether a probe is counted when counting reachable peers, or reachable
/// peers that offered a join token (`offered_only`).
pub open spec fn probe_counted(p: PeerProbe, offered_only: bool) -> bool {
    p.reachable && (!offered_only || p.invite_token is Some)
}

/// The number of `probes` counted.
pub open spec fn probe_count(probes: Seq<PeerProbe>, offered_only: bool) -> nat {
    probes.filter(|p: PeerProbe| probe_counted(p, offered_only)).len()
}

/// A peer is probed by the doctor when it carries the MeshLLM tag and is not
/// the local device; being offline does not exclude it.
pub open spec fn is_doctor_candidate(peer: TailscalePeer, self_peer: TailscalePeer) -> bool {
    carries_meshllm_tag(peer) && !shares_address_text(peer, self_peer)
}

/// The report entry of a probe: everything but the models themselves and
/// the token, which is reduced to whether it was offered.
pub open spec fn doctor_peer_of(p: PeerProbe) -> TailscaleDoctorPeer {
    TailscaleDoctorPeer {
        hostname: p.hostname,
        address: p.address,
        os: p.os,
        online: p.online,
        reachable: p.reachable,
        bootstrap_available: p.invite_token is Some,
        latency_ms: p.latency_ms,
        model_count: p.models@.len() as usize,
    }
}

/// The report entries of `probes`, in probe order.
pub open spec fn doctor_entries(probes: Seq<PeerProbe>) -> Seq<TailscaleDoctorPeer> {
    probes.map_values(|p: PeerProbe| doctor_peer_of(p))
}

/// Whether an entry is counted when counting reachable peers, or reachable
/// peers that offered a join token (`offered_only`).
pub open spec fn entry_counted(q: TailscaleDoctorPeer, offered_only: bool) -> bool {
    q.reachable && (!offered_only || q.bootstrap_available)
}

/// Whether two probes agree in everything but the value of the join token
/// each offered (both offered one, or neither did).
pub open spec fn differ_only_in_token(p: PeerProbe, q: PeerProbe) -> bool {
    &&& p.hostname == q.hostname
    &&& p.address == q.address
    &&& p.os == q.os
    &&& p.api_base_url == q.api_base_url
    &&& p.models@ == q.models@
    &&& p.latency_ms == q.latency_ms
    &&& p.online == q.online
    &&& p.reachable == q.reachable
    &&& (p.invite_token is Some) == (q.invite_token is Some)
}

/// The problem note when probing could not start.
pub open spec fn probing_unavailable_note(error: Seq<char>) -> Seq<char> {
    "Tailscale status is readable, but HTTP probing is unavailable: "@ + error
}

/// Whether `report` is the doctor's report for `status` and `probes`, with
/// `client_error` the reason probing could not start, if it could not.
pub open spec fn is_doctor_report(
    report: TailscaleDoctorReport,
    status: TailscaleStatus,
    probes: Seq<PeerProbe>,
    client_error: Option<Seq<char>>,
) -> bool {
    &&& report.status_ok
    &&& match client_error {
        Some(e) => report.status_error matches Some(n) && n@ == probing_unavailable_note(e),
        None => report.status_error is None,
    }
    &&& report.self_hostname matches Some(h) && h@ == hostname_of(status.self_peer)
    &&& report.self_addresses.deep_view() == status.self_peer.addresses@.map_values(|a: crate::tailnet::TailnetAddress| a.text@)
    &&& report.total_peer_count == status.peers@.len()
    &&& report.online_peer_count == peer_count(status.peers@, true, false)
    &&& report.tagged_peer_count == peer_count(status.peers@, false, true)
    &&& report.online_tagged_peer_count == peer_count(status.peers@, true, true)
    &&& report.reachable_tagged_peer_count == probe_count(probes, false)
    &&& report.bootstrap_peer_count == probe_count(probes, true)
    &&& is_stable_listing(report.peers@, doctor_entries(probes))
}

/// The characters of an optional owned text.
pub open spec fn owned_text(t: Option<String>) -> Option<Seq<char>> {
    match t {
        Some(s) => Some(s@),
        None => None,
    }
}

/// Whether `report` says the status could not be read, and why.
pub open spec fn is_unavailable_report(report: TailscaleDoctorReport, error: Seq<char>) -> bool {
    &&& !report.status_ok
    &&& report.status_error matches Some(e) && e@ == error
    &&& report.self_hostname is None
    &&& report.self_addresses@.len() == 0
    &&& report.total_peer_count == 0
    &&& report.online_peer_count == 0
    &&& report.tagged_peer_count == 0
    &&& report.online_tagged_peer_count == 0
    &&& report.reachable_tagged_peer_count == 0
    &&& report.bootstrap_peer_count == 0
    &&& report.peers@.len() == 0
}

/// Orders doctor entries as discovered peers are ordered: measured latency
/// first and smaller first, the host name deciding ties.
pub fn compare_doctor_peer(a: &TailscaleDoctorPeer, b: &TailscaleDoctorPeer) -> (res: Ordering)
    ensures
        (res == Ordering::Less) == latency_precedes(a.latency_ms, a.hostname@, b.latency_ms, b.hostname@),
        (res == Ordering::Equal) == (a.latency_ms == b.latency_ms && a.hostname@ == b.hostname@),
        (res == Ordering::Greater) == latency_precedes(b.latency_ms, b.hostname@, a.latency_ms, a.hostname@),
{
    match (a.latency_ms, b.latency_ms) {
        (Some(x), Some(y)) => {
            if x < y {
                Ordering::Less
            } else if y < x {
                Ordering::Greater
            } else {
                order_text(a.hostname.as_str(), b.hostname.as_str())
            }
        },
        (Some(_), None) => Ordering::Less,
        (None, Some(_)) => Ordering::Greater,
        (None, None) => order_text(a.hostname.as_str(), b.hostname.as_str()),
    }
}

/// Sort doctor entries stably into listing order.
fn sort_doctor_peers(peers: &mut Vec<TailscaleDoctorPeer>)
    ensures
        is_stable_listing(final(peers)@, old(peers)@),
{
    sort_listing(peers, compare_doctor_peer)
}

/// The number of `peers` counted under the given conditions.
pub fn count_peers(peers: &Vec<TailscalePeer>, online_only: bool, tagged_only: bool) -> (res: usize)
    ensures
        res == peer_count(peers@, online_only, tagged_only),
{
    let ghost pred = |p: TailscalePeer| counted(p, online_only, tagged_only);
    let mut count: usize = 0;
    let mut i: usize = 0;
    while i < peers.len()
        invariant
            i <= peers.len(),
            pred == (|p: TailscalePeer| counted(p, online_only, tagged_only)),
            count == peers@.take(i as int).filter(pred).len(),
            count <= i,
        decreases peers.len() - i,
    {
        let p = &peers[i];
        assert(peers@.take(i + 1) == peers@.take(i as int).push(peers@[i as int]));
        proof {
            peers@.take(i as int).lemma_filter_len_push(pred, peers@[i as int]);
        }
        if (!online_only || p.online) && (!tagged_only || has_meshllm_tag(p)) {
            count = count + 1;
        }
        i = i + 1;
    }
    assert(peers@.take(i as int) == peers@);
    count
}

/// The number of `probes` counted.
pub fn count_probes(probes: &Vec<PeerProbe>, offered_only: bool) -> (res: usize)
    ensures
        res == probe_count(probes@, offered_only),
{
    let ghost pred = |p: PeerProbe| probe_counted(p, offered_only);
    let mut count: usize = 0;
    let mut i: usize = 0;
    while i < probes.len()
        invariant
            i <= probes.len(),
            pred == (|p: PeerProbe| probe_counted(p, offered_only)),
            count == probes@.take(i as int).filter(pred).len(),
            count <= i,
        decreases probes.len() - i,
    {
        let p = &probes[i];
        assert(probes@.take(i + 1) == probes@.take(i as int).push(probes@[i as int]));
        proof {
            probes@.take(i as int).lemma_filter_len_push(pred, probes@[i as int]);
        }
        if p.reachable && (!offered_only || p.invite_token.is_some()) {
            count = count + 1;
        }
        i = i + 1;
    }
    assert(probes@.take(i as int) == probes@);
    count
}

/// The positions, in order, of the peers the doctor probes: tagged and not
/// the local device.
pub fn doctor_candidates(status: &TailscaleStatus) -> (res: Vec<usize>)
    ensures
        selects_exactly(res@, status.peers@, |p: TailscalePeer| is_doctor_candidate(p, status.self_peer)),
{
    let ghost pred = |p: TailscalePeer| is_doctor_candidate(p, status.self_peer);
    let mut res: Vec<usize> = Vec::new();
    let mut i: usize = 0;
    while i < status.peers.len()
        invariant
            i <= status.peers.len(),
            pred == (|p: TailscalePeer| is_doctor_candidate(p, status.self_peer)),
            forall|k: int| 0 <= k < res@.len() ==> #[trigger] res@[k] < i && pred(status.peers@[res@[k] as int]),
            forall|a: int| 0 <= a < i && pred(#[trigger] status.peers@[a]) ==> exists|k: int| 0 <= k < res@.len() && res@[k] == a,
            forall|k1: int, k2: int| 0 <= k1 < k2 < res@.len() ==> #[trigger] res@[k1] < #[trigger] res@[k2],
        decreases status.peers.len() - i,
    {
        let peer = &status.peers[i];
        let ghost prev = res@;
        let chosen = has_meshllm_tag(peer) && !shares_address(peer, &status.self_peer);
        if chosen {
            res.push(i);
        }
        assert forall|a: int| 0 <= a < i + 1 && pred(#[trigger] status.peers@[a]) implies exists|k: int|
            0 <= k < res@.len() && res@[k] == a by {
            if a == i {
                assert(res@[res@.len() - 1] == i);
            } else {
                let k = choose|k: int| 0 <= k < prev.len() && prev[k] == a;
                assert(res@[k] == prev[k]);
            }
        }
        i = i + 1;
    }
    res
}

/// The report when the Tailscale status could not be read.
pub fn unavailable_doctor_report(error: String) -> (report: TailscaleDoctorReport)
    ensures
        is_unavailable_report(report, error@),
{
    TailscaleDoctorReport {
        status_ok: false,
        status_error: Some(error),
        self_hostname: None,
        self_addresses: Vec::new(),
        total_peer_count: 0,
        online_peer_count: 0,
        tagged_peer_count: 0,
        online_tagged_peer_count: 0,
        reachable_tagged_peer_count: 0,
        bootstrap_peer_count: 0,
        peers: Vec::new(),
    }
}

/// The doctor's report on `status`, given the probes of its candidates and,
/// when probing could not start, the reason.
pub fn doctor_report(status: &TailscaleStatus, probes: Vec<PeerProbe>, client_error: Option<String>) -> (report: TailscaleDoctorReport)
    ensures
        is_doctor_report(report, *status, probes@, match client_error {
            Some(e) => Some(e@),
            None => None,
        }),
        report.total_peer_count == status.peers@.len(),
        report.online_peer_count == status.peers@.filter(|p: TailscalePeer| p.online).len(),
        report.tagged_peer_count == status.peers@.filter(|p: TailscalePeer| carries_meshllm_tag(p)).len(),
        report.online_tagged_peer_count == status.peers@.filter(|p: TailscalePeer| p.online && carries_meshllm_tag(p)).len(),
        report.reachable_tagged_peer_count == probes@.filter(|q: PeerProbe| q.reachable).len(),
        report.bootstrap_peer_count == probes@.filter(|q: PeerProbe| q.reachable && q.invite_token is Some).len(),
        forall|k: int| #![trigger report.peers@[k]] 0 <= k < report.peers@.len() ==> exists|i: int| #![trigger probes@[i]] 0 <= i < probes@.len()
           
                && report.peers@[k].hostname == probes@[i].hostname
                && report.peers@[k].address == probes@[i].address
                && report.peers@[k].os == probes@[i].os
                && report.peers@[k].online == probes@[i].online
                && report.peers@[k].reachable == probes@[i].reachable
                && report.peers@[k].bootstrap_available == (probes@[i].invite_token is Some)
                && report.peers@[k].latency_ms == probes@[i].latency_ms
                && report.peers@[k].model_count == probes@[i].models@.len() as usize,
{
    let total_peer_count = status.peers.len();
    let online_peer_count = count_peers(&status.peers, true, false);
    let tagged_peer_count = count_peers(&status.peers, false, true);
    let online_tagged_peer_count = count_peers(&status.peers, true, true);
    let self_hostname = peer_hostname(&status.self_peer);
    let mut self_addresses: Vec<String> = Vec::new();
    let mut i: usize = 0;
    while i < status.self_peer.addresses.len()
        invariant
            i <= status.self_peer.addresses.len(),
            self_addresses@.len() == i,
            forall|j: int| 0 <= j < i ==> #[trigger] self_addresses@[j]@ == status.self_peer.addresses@[j].text@,
        decreases status.self_peer.addresses.len() - i,
    {
        self_addresses.push(status.self_peer.addresses[i].text.clone());
        i = i + 1;
    }
    assert(self_addresses.deep_view() =~= status.self_peer.addresses@.map_values(
        |a: crate::tailnet::TailnetAddress| a.text@,
    ));
    let status_error = match client_error {
        Some(error) => {
            let mut note = owned("Tailscale status is readable, but HTTP probing is unavailable: ");
            note.append(error.as_str());
            Some(note)
        },
        None => None,
    };
    let reachable_tagged_peer_count = count_probes(&probes, false);
    let bootstrap_peer_count = count_probes(&probes, true);
    let ghost all = probes@;
    let ghost mapped = all.map_values(|p: PeerProbe| doctor_peer_of(p));
    let mut peers: Vec<TailscaleDoctorPeer> = Vec::new();
    let mut rest = probes;
    while rest.len() > 0
        invariant
            rest@.len() <= all.len(),
            rest@ == all.skip(all.len() - rest@.len()),
            peers@ == mapped.take(all.len() - rest@.len()),
            mapped == all.map_values(|p: PeerProbe| doctor_peer_of(p)),
        decreases rest@.len(),
    {
        let ghost done = all.len() - rest@.len();
        let p = rest.remove(0);
        assert(p == all[done]);
        let bootstrap_available = p.invite_token.is_some();
        let model_count = p.models.len();
        peers.push(TailscaleDoctorPeer {
            hostname: p.hostname,
            address: p.address,
            os: p.os,
            online: p.online,
            reachable: p.reachable,
            bootstrap_available,
            latency_ms: p.latency_ms,
            model_count,
        });
        assert(peers@ =~= mapped.take(done + 1));
        assert(rest@ =~= all.skip(done + 1));
    }
    assert(mapped.take(all.len() as int) == mapped);
    sort_doctor_peers(&mut peers);
    proof {
        doctor_entries_keep_their_probe_fields(peers@, all);
        let listed = peers@;
        assert forall|k: int| #![trigger listed[k]] 0 <= k < listed.len() implies exists|i: int| #![trigger all[i]] 0 <= i < all.len()
           
                && listed[k].hostname == all[i].hostname
                && listed[k].address == all[i].address
                && listed[k].os == all[i].os
                && listed[k].online == all[i].online
                && listed[k].reachable == all[i].reachable
                && listed[k].bootstrap_available == (all[i].invite_token is Some)
                && listed[k].latency_ms == all[i].latency_ms
                && listed[k].model_count == all[i].models@.len() as usize by {
            assert(listed[k] == peers@[k]);
        }
    }
    let report = TailscaleDoctorReport {
        status_ok: true,
        status_error,
        self_hostname: Some(self_hostname),
        self_addresses,
        total_peer_count,
        online_peer_count,
        tagged_peer_count,
        online_tagged_peer_count,
        reachable_tagged_peer_count,
        bootstrap_peer_count,
        peers,
    };
    proof {
        doctor_counts_count_what_they_say(report, *status, all, owned_text(client_error));
    }
    report
}

} // verus!

verus! {

/// If every element satisfying `p` satisfies `q`, filtering by `p` keeps no
/// more elements than filtering by `q`.
pub proof fn lemma_filter_len_monotone<A>(s: Seq<A>, p: spec_fn(A) -> bool, q: spec_fn(A) -> bool)
    requires
        forall|x: A| #[trigger] p(x) ==> q(x),
    ensures
        s.filter(p).len() <= s.filter(q).len(),
    decreases s.len(),
{
    if s.len() > 0 {
        let b = s.drop_last();
        lemma_filter_len_monotone(b, p, q);
        b.lemma_filter_len_push(p, s.last());
        b.lemma_filter_len_push(q, s.last());
        assert(b.push(s.last()) == s);
    }
}

/// The doctor's counts nest: online tagged peers are among the online peers
/// and among the tagged peers, which are among all peers; peers that offered
/// a join token are among the reachable ones, which are among those probed.
pub proof fn doctor_counts_nest(peers: Seq<TailscalePeer>, probes: Seq<PeerProbe>)
    ensures
        peer_count(peers, true, true) <= peer_count(peers, true, false) <= peers.len(),
        peer_count(peers, true, true) <= peer_count(peers, false, true) <= peers.len(),
        probe_count(probes, true) <= probe_count(probes, false) <= probes.len(),
{
    broadcast use vstd::seq_lib::group_filter_ensures;

    let both = |p: TailscalePeer| counted(p, true, true);
    let online = |p: TailscalePeer| counted(p, true, false);
    let tagged = |p: TailscalePeer| counted(p, false, true);
    lemma_filter_len_monotone(peers, both, online);
    lemma_filter_len_monotone(peers, both, tagged);
    peers.lemma_filter_len(online);
    peers.lemma_filter_len(tagged);
    let offered = |p: PeerProbe| probe_counted(p, true);
    let reached = |p: PeerProbe| probe_counted(p, false);
    lemma_filter_len_monotone(probes, offered, reached);
    probes.lemma_filter_len(reached);
}

/// Two predicates that agree on every element of `s` keep as many elements.
pub proof fn lemma_filter_len_agree<A>(s: Seq<A>, p: spec_fn(A) -> bool, q: spec_fn(A) -> bool)
    requires
        forall|i: int| 0 <= i < s.len() ==> p(#[trigger] s[i]) == q(s[i]),
    ensures
        s.filter(p).len() == s.filter(q).len(),
    decreases s.len(),
{
    if s.len() > 0 {
        let b = s.drop_last();
        assert forall|i: int| 0 <= i < b.len() implies p(#[trigger] b[i]) == q(b[i]) by {
            assert(b[i] == s[i]);
        }
        lemma_filter_len_agree(b, p, q);
        b.lemma_filter_len_push(p, s.last());
        b.lemma_filter_len_push(q, s.last());
        assert(b.push(s.last()) == s);
        assert(p(s[s.len() - 1]) == q(s[s.len() - 1]));
    }
}

/// Sequences with the same elements keep as many elements under a filter.
pub proof fn lemma_filter_len_permutation<A>(a: Seq<A>, b: Seq<A>, p: spec_fn(A) -> bool)
    requires
        a.to_multiset() == b.to_multiset(),
    ensures
        a.filter(p).len() == b.filter(p).len(),
    decreases a.len(),
{
    broadcast use vstd::seq_lib::group_to_multiset_ensures;

    if a.len() == 0 {
        assert(b.to_multiset().len() == 0);
        assert(b.len() == 0);
        assert(b =~= a);
    } else {
        let x = a.last();
        let a1 = a.drop_last();
        assert(a.contains(x)) by {
            assert(a[a.len() - 1] == x);
        }
        assert(a.to_multiset().count(x) > 0);
        assert(b.contains(x));
        let i = choose|i: int| 0 <= i < b.len() && b[i] == x;
        let b1 = b.remove(i);
        assert(a.remove(a.len() - 1) == a1);
        assert(a1.to_multiset() == a.to_multiset().remove(x));
        assert(b1.to_multiset() == b.to_multiset().remove(x));
        lemma_filter_len_permutation(a1, b1, p);
        a1.lemma_filter_len_push(p, x);
        assert(a1.push(x) == a);
        let l = b.subrange(0, i);
        let r = b.subrange(i + 1, b.len() as int);
        assert(b == l + seq![x] + r);
        assert(b1 == l + r);
        Seq::filter_distributes_over_add(l + seq![x], r, p);
        Seq::filter_distributes_over_add(l, seq![x], p);
        Seq::filter_distributes_over_add(l, r, p);
        Seq::<A>::empty().lemma_filter_len_push(p, x);
        assert(seq![x] == Seq::<A>::empty().push(x));
    }
}

/// The entries of `probes` keep the reachable and the offering probes.
pub proof fn lemma_entry_counts(probes: Seq<PeerProbe>, offered_only: bool)
    ensures
        probe_count(probes, offered_only) == doctor_entries(probes).filter(|q: TailscaleDoctorPeer| entry_counted(q, offered_only)).len(),
    decreases probes.len(),
{
    let pp = |p: PeerProbe| probe_counted(p, offered_only);
    let qq = |q: TailscaleDoctorPeer| entry_counted(q, offered_only);
    if probes.len() > 0 {
        let b = probes.drop_last();
        lemma_entry_counts(b, offered_only);
        assert(doctor_entries(b) == doctor_entries(probes).drop_last());
        assert(b.push(probes.last()) == probes);
        assert(doctor_entries(b).push(doctor_peer_of(probes.last())) == doctor_entries(probes));
        b.lemma_filter_len_push(pp, probes.last());
        doctor_entries(b).lemma_filter_len_push(qq, doctor_peer_of(probes.last()));
    } else {
        assert(probes.filter(pp) =~= Seq::<PeerProbe>::empty());
        assert(doctor_entries(probes).filter(qq) =~= Seq::<TailscaleDoctorPeer>::empty());
    }
}

/// The report's entries follow from its probes: when each probe offered a
/// token only if reachable and was reachable only if online (as
/// `finish_probe` guarantees), each entry is bootstrap-ready only if
/// reachable and reachable only if online, and the reachable and
/// bootstrap-ready counts are those of the listed entries, the second no
/// more than the first.
pub proof fn doctor_entries_follow_the_probes(
    report: TailscaleDoctorReport,
    status: TailscaleStatus,
    probes: Seq<PeerProbe>,
    client_error: Option<Seq<char>>,
)
    requires
        is_doctor_report(report, status, probes, client_error),
        forall|i: int| 0 <= i < probes.len() ==> probe_consistent(#[trigger] probes[i]),
    ensures
        forall|k: int| 0 <= k < report.peers@.len() ==> {
            &&& (#[trigger] report.peers@[k]).bootstrap_available ==> report.peers@[k].reachable
            &&& report.peers@[k].reachable ==> report.peers@[k].online
        },
        report.reachable_tagged_peer_count == report.peers@.filter(|q: TailscaleDoctorPeer| q.reachable).len(),
        report.bootstrap_peer_count == report.peers@.filter(|q: TailscaleDoctorPeer| q.bootstrap_available).len(),
        report.bootstrap_peer_count <= report.reachable_tagged_peer_count,
{
    broadcast use vstd::seq_lib::group_to_multiset_ensures;

    let entries = doctor_entries(probes);
    let listed = report.peers@;
    assert forall|k: int| 0 <= k < listed.len() implies {
        &&& (#[trigger] listed[k]).bootstrap_available ==> listed[k].reachable
        &&& listed[k].reachable ==> listed[k].online
    } by {
        assert(listed.contains(listed[k]));
        assert(listed.to_multiset().count(listed[k]) > 0);
        assert(entries.contains(listed[k]));
        let i = choose|i: int| 0 <= i < entries.len() && entries[i] == listed[k];
        assert(probe_consistent(probes[i]));
    }
    let reach = |q: TailscaleDoctorPeer| q.reachable;
    let boot = |q: TailscaleDoctorPeer| q.bootstrap_available;
    let reach_c = |q: TailscaleDoctorPeer| entry_counted(q, false);
    let boot_c = |q: TailscaleDoctorPeer| entry_counted(q, true);
    lemma_entry_counts(probes, false);
    lemma_entry_counts(probes, true);
    lemma_filter_len_agree(entries, reach_c, reach);
    assert forall|i: int| 0 <= i < entries.len() implies boot_c(#[trigger] entries[i]) == boot(entries[i]) by {
        assert(probe_consistent(probes[i]));
    }
    lemma_filter_len_agree(entries, boot_c, boot);
    lemma_filter_len_permutation(entries, listed, reach);
    lemma_filter_len_permutation(entries, listed, boot);
    doctor_counts_nest(status.peers@, probes);
}

/// Candidates chosen by `selects_exactly` below `n`, all satisfying `q`,
/// are no more than the peers below `n` that satisfy `q`.
proof fn lemma_selected_at_most_counted(
    idx: Seq<usize>,
    peers: Seq<TailscalePeer>,
    q: spec_fn(TailscalePeer) -> bool,
    n: int,
)
    requires
        0 <= n <= peers.len(),
        forall|k: int| 0 <= k < idx.len() ==> #[trigger] idx[k] < n && q(peers[idx[k] as int]),
        forall|k1: int, k2: int| 0 <= k1 < k2 < idx.len() ==> #[trigger] idx[k1] < #[trigger] idx[k2],
    ensures
        idx.len() <= peers.take(n).filter(q).len(),
    decreases n,
{
    if n == 0 {
        if idx.len() > 0 {
            assert(idx[0] < 0);
        }
    } else {
        let prev = peers.take(n - 1);
        assert(prev.push(peers[n - 1]) == peers.take(n));
        prev.lemma_filter_len_push(q, peers[n - 1]);
        if idx.len() > 0 && idx[idx.len() - 1] == n - 1 {
            let rest = idx.drop_last();
            assert forall|k: int| 0 <= k < rest.len() implies #[trigger] rest[k] < n - 1 && q(peers[rest[k] as int]) by {
                assert(rest[k] == idx[k]);
                assert(idx[k] < idx[idx.len() - 1]);
            }
            assert forall|k1: int, k2: int| 0 <= k1 < k2 < rest.len() implies #[trigger] rest[k1] < #[trigger] rest[k2] by {
                assert(rest[k1] == idx[k1] && rest[k2] == idx[k2]);
            }
            lemma_selected_at_most_counted(rest, peers, q, n - 1);
            assert(q(peers[n - 1]));
        } else {
            assert forall|k: int| 0 <= k < idx.len() implies #[trigger] idx[k] < n - 1 && q(peers[idx[k] as int]) by {
                if idx[k] == n - 1 {
                    if k < idx.len() - 1 {
                        assert(idx[k] < idx[idx.len() - 1]);
                    }
                }
            }
            lemma_selected_at_most_counted(idx, peers, q, n - 1);
        }
    }
}

/// The doctor lists no more peers than there are tagged peers, when it
/// probed the doctor's candidates once each.
pub proof fn doctor_lists_at_most_the_tagged(
    report: TailscaleDoctorReport,
    status: TailscaleStatus,
    candidates: Seq<usize>,
    probes: Seq<PeerProbe>,
    client_error: Option<Seq<char>>,
)
    requires
        selects_exactly(candidates, status.peers@, |p: TailscalePeer| is_doctor_candidate(p, status.self_peer)),
        probes.len() == candidates.len(),
        is_doctor_report(report, status, probes, client_error),
    ensures
        report.peers@.len() <= report.tagged_peer_count,
{
    broadcast use vstd::seq_lib::group_to_multiset_ensures;

    let tagged = |p: TailscalePeer| counted(p, false, true);
    assert(report.peers@.to_multiset().len() == report.peers@.len());
    assert(doctor_entries(probes).to_multiset().len() == doctor_entries(probes).len());
    assert forall|k: int| 0 <= k < candidates.len() implies #[trigger] candidates[k] < status.peers@.len() && tagged(
        status.peers@[candidates[k] as int],
    ) by {
        assert(is_doctor_candidate(status.peers@[candidates[k] as int], status.self_peer));
    }
    lemma_selected_at_most_counted(candidates, status.peers@, tagged, status.peers@.len() as int);
    assert(status.peers@.take(status.peers@.len() as int) == status.peers@);
}

/// The report does not depend on the join tokens' values: probes that
/// differ only in which token each offered give the same report.
pub proof fn doctor_report_ignores_token_values(
    status: TailscaleStatus,
    probes1: Seq<PeerProbe>,
    probes2: Seq<PeerProbe>,
    client_error: Option<Seq<char>>,
    report1: TailscaleDoctorReport,
    report2: TailscaleDoctorReport,
)
    requires
        probes1.len() == probes2.len(),
        forall|i: int| 0 <= i < probes1.len() ==> differ_only_in_token(#[trigger] probes1[i], probes2[i]),
        is_doctor_report(report1, status, probes1, client_error),
        is_doctor_report(report2, status, probes2, client_error),
    ensures
        report1.peers@ == report2.peers@,
        report1.status_ok == report2.status_ok,
        owned_text(report1.status_error) == owned_text(report2.status_error),
        owned_text(report1.self_hostname) == owned_text(report2.self_hostname),
        report1.self_addresses.deep_view() == report2.self_addresses.deep_view(),
        report1.total_peer_count == report2.total_peer_count,
        report1.online_peer_count == report2.online_peer_count,
        report1.tagged_peer_count == report2.tagged_peer_count,
        report1.online_tagged_peer_count == report2.online_tagged_peer_count,
        report1.reachable_tagged_peer_count == report2.reachable_tagged_peer_count,
        report1.bootstrap_peer_count == report2.bootstrap_peer_count,
{
    assert(doctor_entries(probes1) =~= doctor_entries(probes2)) by {
        assert forall|i: int| 0 <= i < probes1.len() implies doctor_entries(probes1)[i] == doctor_entries(probes2)[i] by {
            assert(differ_only_in_token(probes1[i], probes2[i]));
        }
    }
    lemma_stable_listing_unique(report1.peers@, report2.peers@, doctor_entries(probes1));
    lemma_entry_counts(probes1, false);
    lemma_entry_counts(probes2, false);
    lemma_entry_counts(probes1, true);
    lemma_entry_counts(probes2, true);
}

/// Each entry of the report's listing is a probe carried over field for
/// field: its name, address, OS, whether it is online and reachable, its
/// latency and model count are the probe's, and it is bootstrap-ready
/// exactly when the probe offered a token; every probe is listed so.
pub proof fn doctor_entries_keep_their_probe_fields(listed: Seq<TailscaleDoctorPeer>, probes: Seq<PeerProbe>)
    requires
        is_stable_listing(listed, doctor_entries(probes)),
    ensures
        forall|k: int| #![trigger listed[k]] 0 <= k < listed.len() ==> exists|i: int| #![trigger probes[i]] 0 <= i < probes.len()
           
                && listed[k].hostname == probes[i].hostname
                && listed[k].address == probes[i].address
                && listed[k].os == probes[i].os
                && listed[k].online == probes[i].online
                && listed[k].reachable == probes[i].reachable
                && listed[k].bootstrap_available == (probes[i].invite_token is Some)
                && listed[k].latency_ms == probes[i].latency_ms
                && listed[k].model_count == probes[i].models@.len() as usize,
        forall|i: int| #![trigger probes[i]] 0 <= i < probes.len() ==> exists|k: int| #![trigger listed[k]] 0 <= k < listed.len()
           
                && listed[k].hostname == probes[i].hostname
                && listed[k].address == probes[i].address
                && listed[k].os == probes[i].os
                && listed[k].online == probes[i].online
                && listed[k].reachable == probes[i].reachable
                && listed[k].bootstrap_available == (probes[i].invite_token is Some)
                && listed[k].latency_ms == probes[i].latency_ms
                && listed[k].model_count == probes[i].models@.len() as usize,
{
    broadcast use vstd::seq_lib::group_to_multiset_ensures;

    let entries = doctor_entries(probes);
    assert forall|k: int| #![trigger listed[k]] 0 <= k < listed.len() implies exists|i: int| #![trigger probes[i]] 0 <= i < probes.len()
       
            && listed[k].hostname == probes[i].hostname
            && listed[k].address == probes[i].address
            && listed[k].os == probes[i].os
            && listed[k].online == probes[i].online
            && listed[k].reachable == probes[i].reachable
            && listed[k].bootstrap_available == (probes[i].invite_token is Some)
            && listed[k].latency_ms == probes[i].latency_ms
            && listed[k].model_count == probes[i].models@.len() as usize by {
        assert(listed.contains(listed[k]));
        assert(listed.to_multiset().count(listed[k]) > 0);
        assert(entries.contains(listed[k]));
        let i = choose|i: int| 0 <= i < entries.len() && entries[i] == listed[k];
        assert(entries[i] == doctor_peer_of(probes[i]));
    }
    assert forall|i: int| #![trigger probes[i]] 0 <= i < probes.len() implies exists|k: int| #![trigger listed[k]] 0 <= k < listed.len()
       
            && listed[k].hostname == probes[i].hostname
            && listed[k].address == probes[i].address
            && listed[k].os == probes[i].os
            && listed[k].online == probes[i].online
            && listed[k].reachable == probes[i].reachable
            && listed[k].bootstrap_available == (probes[i].invite_token is Some)
            && listed[k].latency_ms == probes[i].latency_ms
            && listed[k].model_count == probes[i].models@.len() as usize by {
        assert(entries[i] == doctor_peer_of(probes[i]));
        assert(entries.contains(entries[i]));
        assert(entries.to_multiset().count(entries[i]) > 0);
        assert(listed.contains(entries[i]));
        let k = choose|k: int| 0 <= k < listed.len() && listed[k] == entries[i];
        assert(listed[k] == entries[i]);
    }
}

/// The report's counts count what their names say: all peers, the online
/// ones, the tagged ones, the online tagged ones, the probes that were
/// reachable, and the reachable ones that offered a join token.
pub proof fn doctor_counts_count_what_they_say(
    report: TailscaleDoctorReport,
    status: TailscaleStatus,
    probes: Seq<PeerProbe>,
    client_error: Option<Seq<char>>,
)
    requires
        is_doctor_report(report, status, probes, client_error),
    ensures
        report.total_peer_count == status.peers@.len(),
        report.online_peer_count == status.peers@.filter(|p: TailscalePeer| p.online).len(),
        report.tagged_peer_count == status.peers@.filter(|p: TailscalePeer| carries_meshllm_tag(p)).len(),
        report.online_tagged_peer_count == status.peers@.filter(|p: TailscalePeer| p.online && carries_meshllm_tag(p)).len(),
        report.reachable_tagged_peer_count == probes.filter(|q: PeerProbe| q.reachable).len(),
        report.bootstrap_peer_count == probes.filter(|q: PeerProbe| q.reachable && q.invite_token is Some).len(),
{
    let peers = status.peers@;
    lemma_filter_len_agree(peers, |p: TailscalePeer| counted(p, true, false), |p: TailscalePeer| p.online);
    lemma_filter_len_agree(peers, |p: TailscalePeer| counted(p, false, true), |p: TailscalePeer| carries_meshllm_tag(p));
    lemma_filter_len_agree(
        peers,
        |p: TailscalePeer| counted(p, true, true),
        |p: TailscalePeer| p.online && carries_meshllm_tag(p),
    );
    lemma_filter_len_agree(probes, |q: PeerProbe| probe_counted(q, false), |q: PeerProbe| q.reachable);
    lemma_filter_len_agree(probes, |q: PeerProbe| probe_counted(q, true), |q: PeerProbe| q.reachable && q.invite_token is Some);
}

} // verus!
