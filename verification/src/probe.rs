//! Probing one peer: where to look, and what the answers add up to. The
//! HTTP requests themselves are made by the caller, one address at a time
//! in plan order, stopping at the first that answers.

use vstd::prelude::*;
use crate::addresses::{is_probe_order, peer_ip_addresses};
use crate::tailnet::{api_base_url, base_url_of, hostname_of, peer_hostname, TailnetIp, TailscalePeer};

verus! {

/// What a probe of a peer found out.
pub struct PeerProbe {
    pub hostname: String,
    pub address: String,
    pub os: Option<String>,
    pub api_base_url: String,
    pub models: Vec<String>,
    pub invite_token: Option<String>,
    pub latency_ms: Option<u64>,
    pub online: bool,
    pub reachable: bool,
}

/// Where a peer is probed: its name, its addresses in probe order, and the
/// address and URL reported when none answers.
pub struct ProbePlan {
    pub hostname: String,
    pub addresses: Vec<TailnetIp>,
    pub fallback_address: String,
    pub fallback_api_base_url: String,
}

/// The answer of a peer's API at one address: its model list, the time the
/// model list took, and the join token if the peer offered one.
pub struct ProbeResponse {
    pub models: Vec<String>,
    pub latency_ms: u64,
    pub invite_token: Option<String>,
}

/// One address tried, and the answer if the model list was read there.
pub struct ProbeAttempt {
    pub ip: TailnetIp,
    pub response: Option<ProbeResponse>,
}

/// Whether `plan` is the probe plan of `peer`.
pub open spec fn is_plan_of(peer: TailscalePeer, plan: ProbePlan) -> bool {
    &&& plan.hostname@ == hostname_of(peer)
    &&& is_probe_order(peer, plan.addresses@)
    &&& if plan.addresses@.len() > 0 {
        &&& plan.fallback_address@ == plan.addresses@[0].text@
        &&& plan.fallback_api_base_url@ == base_url_of(plan.addresses@[0])
    } else {
        &&& plan.fallback_address@ == Seq::<char>::empty()
        &&& plan.fallback_api_base_url@ == Seq::<char>::empty()
    }
}

/// Whether the peer is worth a request at all: it is online and has an
/// address.
pub open spec fn worth_probing(peer: TailscalePeer, plan: ProbePlan) -> bool {
    peer.online && plan.addresses@.len() > 0
}

/// The index of the first attempt that was answered, if any.
pub open spec fn first_answer(attempts: Seq<ProbeAttempt>) -> Option<int>
    decreases attempts.len(),
{
    if attempts.len() == 0 {
        None
    } else if attempts[0].response is Some {
        Some(0)
    } else {
        match first_answer(attempts.drop_first()) {
            Some(i) => Some(i + 1),
            None => None,
        }
    }
}

/// The probe that reports `peer` as not reachable.
pub open spec fn is_unreached_probe(probe: PeerProbe, peer: TailscalePeer, plan: ProbePlan) -> bool {
    &&& probe.hostname@ == plan.hostname@
    &&& probe.address@ == plan.fallback_address@
    &&& probe.os == peer.os
    &&& probe.api_base_url@ == plan.fallback_api_base_url@
    &&& probe.models@.len() == 0
    &&& probe.invite_token is None
    &&& probe.latency_ms is None
    &&& probe.online == peer.online
    &&& !probe.reachable
}

/// The probe that reports `peer` as reached by `attempt`.
pub open spec fn is_reached_probe(probe: PeerProbe, peer: TailscalePeer, plan: ProbePlan, attempt: ProbeAttempt) -> bool {
    let response = attempt.response->0;
    &&& probe.hostname@ == plan.hostname@
    &&& probe.address@ == attempt.ip.text@
    &&& probe.os == peer.os
    &&& probe.api_base_url@ == base_url_of(attempt.ip)
    &&& probe.models@ == response.models@
    &&& probe.invite_token == response.invite_token
    &&& probe.latency_ms == Some(response.latency_ms)
    &&& probe.online
    &&& probe.reachable
}

/// Whether a probe is coherent: it offered a join token only if reachable,
/// and was reachable only if online.
pub open spec fn probe_consistent(p: PeerProbe) -> bool {
    &&& p.invite_token is Some ==> p.reachable
    &&& p.reachable ==> p.online
}

/// The probe plan of `peer`: its name, its distinct parsed addresses in
/// probe order, and the first of them as fallback (empty texts when there is
/// none).
pub fn plan_probe(peer: &TailscalePeer) -> (plan: ProbePlan)
    ensures
        is_plan_of(*peer, plan),
{
    let hostname = peer_hostname(peer);
    let addresses = peer_ip_addresses(peer);
    let (fallback_address, fallback_api_base_url) = if addresses.len() > 0 {
        (addresses[0].text.clone(), api_base_url(&addresses[0]))
    } else {
        (String::new(), String::new())
    };
    ProbePlan { hostname, addresses, fallback_address, fallback_api_base_url }
}

/// Whether `peer` should be probed over the network at all.
pub fn probe_needs_network(peer: &TailscalePeer, plan: &ProbePlan) -> (res: bool)
    ensures
        res == worth_probing(*peer, *plan),
{
    peer.online && plan.addresses.len() > 0
}

fn copy_text_option(t: &Option<String>) -> (res: Option<String>)
    ensures
        res == *t,
{
    match t {
        Some(s) => Some(s.clone()),
        None => None,
    }
}

/// The first answer is the first attempt with a response; none means no
/// attempt was answered.
pub proof fn lemma_first_answer(attempts: Seq<ProbeAttempt>)
    ensures
        match first_answer(attempts) {
            Some(k) => 0 <= k < attempts.len() && attempts[k].response is Some && forall|j: int|
                0 <= j < k ==> (#[trigger] attempts[j]).response is None,
            None => forall|j: int| 0 <= j < attempts.len() ==> (#[trigger] attempts[j]).response is None,
        },
    decreases attempts.len(),
{
    if attempts.len() > 0 && attempts[0].response is None {
        let rest = attempts.drop_first();
        lemma_first_answer(rest);
        match first_answer(rest) {
            Some(k) => {
                assert forall|j: int| 0 <= j < k + 1 implies (#[trigger] attempts[j]).response is None by {
                    if j > 0 {
                        assert(attempts[j] == rest[j - 1]);
                    }
                }
            },
            None => {
                assert forall|j: int| 0 <= j < attempts.len() implies (#[trigger] attempts[j]).response is None by {
                    if j > 0 {
                        assert(attempts[j] == rest[j - 1]);
                    }
                }
            },
        }
    }
}

/// Whether `attempts` followed `plan`: attempt `i` was made at the plan's
/// address `i`, and only the last attempt may have been answered.
pub open spec fn follows_plan(plan: ProbePlan, attempts: Seq<ProbeAttempt>) -> bool {
    &&& attempts.len() <= plan.addresses@.len()
    &&& forall|i: int| 0 <= i < attempts.len() ==> (#[trigger] attempts[i]).ip == plan.addresses@[i]
    &&& forall|i: int| 0 <= i < attempts.len() - 1 ==> (#[trigger] attempts[i]).response is None
}

/// The position in `plan` of the address to try next: the next one in
/// order while none has answered; none once one answered or all were tried.
pub open spec fn next_probe(plan: ProbePlan, attempts: Seq<ProbeAttempt>) -> Option<int> {
    if first_answer(attempts) is None && attempts.len() < plan.addresses@.len() {
        Some(attempts.len() as int)
    } else {
        None
    }
}

/// The position in `plan` of the address to try next, given the attempts
/// made so far: the addresses are tried in plan order and probing stops at
/// the first answer.
pub fn next_probe_address(plan: &ProbePlan, attempts: &Vec<ProbeAttempt>) -> (res: Option<usize>)
    ensures
        match next_probe(*plan, attempts@) {
            Some(i) => res == Some(i as usize),
            None => res is None,
        },
{
    proof {
        lemma_first_answer(attempts@);
    }
    let mut i: usize = 0;
    while i < attempts.len()
        invariant
            i <= attempts.len(),
            forall|j: int| 0 <= j < i ==> (#[trigger] attempts@[j]).response is None,
        decreases attempts.len() - i,
    {
        if attempts[i].response.is_some() {
            proof {
                lemma_first_answer(attempts@);
            }
            return None;
        }
        i = i + 1;
    }
    if attempts.len() < plan.addresses.len() {
        Some(attempts.len())
    } else {
        None
    }
}

/// Probing in plan order: trying the next address keeps the attempts in
/// plan order; when the plan says to stop, either every address was tried
/// unanswered or the last attempt is the first answer, made at the plan's
/// address of that position after every earlier address went unanswered.
pub proof fn probing_follows_the_plan(plan: ProbePlan, attempts: Seq<ProbeAttempt>, attempt: ProbeAttempt)
    requires
        follows_plan(plan, attempts),
    ensures
        next_probe(plan, attempts) matches Some(i) && attempt.ip == plan.addresses@[i] ==> follows_plan(plan, attempts.push(attempt)),
        next_probe(plan, attempts) is None ==> match first_answer(attempts) {
            Some(k) => {
                &&& k == attempts.len() - 1
                &&& attempts[k].ip == plan.addresses@[k]
                &&& forall|j: int| 0 <= j < k ==> (#[trigger] attempts[j]).response is None
            },
            None => attempts.len() == plan.addresses@.len(),
        },
{
    lemma_first_answer(attempts);
    if let Some(k) = first_answer(attempts) {
        if k < attempts.len() - 1 {
            assert(attempts[k].response is None);
        }
    }
    if next_probe(plan, attempts) matches Some(i) && attempt.ip == plan.addresses@[i] {
        let more = attempts.push(attempt);
        assert forall|j: int| 0 <= j < more.len() - 1 implies (#[trigger] more[j]).response is None by {
            assert(more[j] == attempts[j]);
        }
        assert forall|j: int| 0 <= j < more.len() implies (#[trigger] more[j]).ip == plan.addresses@[j] by {
            if j < attempts.len() {
                assert(more[j] == attempts[j]);
            }
        }
    }
}

/// The outcome of probing `peer` by `plan`: a peer not worth probing, or
/// one whose addresses all failed, is reported unreachable with the
/// fallback address; otherwise the first answered attempt decides.
#[verifier::loop_isolation(false)]
pub fn finish_probe(peer: &TailscalePeer, plan: ProbePlan, attempts: Vec<ProbeAttempt>) -> (probe: PeerProbe)
    ensures
        worth_probing(*peer, plan) && first_answer(attempts@) is Some ==> is_reached_probe(
            probe,
            *peer,
            plan,
            attempts@[first_answer(attempts@)->0],
        ),
        !(worth_probing(*peer, plan) && first_answer(attempts@) is Some) ==> is_unreached_probe(
            probe,
            *peer,
            plan,
        ),
        probe_consistent(probe),
        probe.online == peer.online,
        probe.reachable == (peer.online && plan.addresses@.len() > 0 && first_answer(attempts@) is Some),
        peer.online && first_answer(attempts@) is None ==> probe.online && !probe.reachable,
        probe.hostname == plan.hostname,
        probe.os == peer.os,
        peer.online && plan.addresses@.len() > 0 && first_answer(attempts@) is Some ==> {
            let k = first_answer(attempts@)->0;
            &&& probe.address == attempts@[k].ip.text
            &&& probe.models == attempts@[k].response->0.models
            &&& probe.invite_token == attempts@[k].response->0.invite_token
            &&& probe.latency_ms == Some(attempts@[k].response->0.latency_ms)
        },
        !(peer.online && plan.addresses@.len() > 0 && first_answer(attempts@) is Some) ==> {
            &&& probe.address == plan.fallback_address
            &&& probe.api_base_url == plan.fallback_api_base_url
            &&& probe.models@.len() == 0
            &&& probe.invite_token is None
            &&& probe.latency_ms is None
        },
{
    if !probe_needs_network(peer, &plan) {
        return PeerProbe {
            hostname: plan.hostname,
            address: plan.fallback_address,
            os: copy_text_option(&peer.os),
            api_base_url: plan.fallback_api_base_url,
            models: Vec::new(),
            invite_token: None,
            latency_ms: None,
            online: peer.online,
            reachable: false,
        };
    }
    let mut pending = attempts;
    let ghost all = pending@;
    let mut i: usize = 0;
    let n = pending.len();
    assert(all.subrange(0, n as int) == all);
    while i < n
        invariant
            n == all.len(),
            i <= n,
            pending@.len() == n,
            forall|j: int| 0 <= j < i ==> pending@[j] == all[j] && all[j].response is None,
            forall|j: int| i <= j < n ==> pending@[j] == all[j],
            first_answer(all) == match first_answer(all.subrange(i as int, n as int)) {
                Some(k) => Some(k + i),
                None => None,
            },
        decreases n - i,
    {
        assert(all.subrange(i as int, n as int).drop_first() == all.subrange(i + 1, n as int));
        if pending[i].response.is_some() {
            let attempt = pending.swap_remove(i);
            let response = attempt.response.unwrap();
            let url = api_base_url(&attempt.ip);
            assert(first_answer(all) == Some(i as int));
            assert(attempt == all[i as int]);
            assert(response == all[i as int].response->0);
            return PeerProbe {
                hostname: plan.hostname,
                address: attempt.ip.text,
                os: copy_text_option(&peer.os),
                api_base_url: url,
                models: response.models,
                invite_token: response.invite_token,
                latency_ms: Some(response.latency_ms),
                online: true,
                reachable: true,
            };
        }
        i = i + 1;
    }
    assert(all.subrange(n as int, n as int).len() == 0);
    PeerProbe {
        hostname: plan.hostname,
        address: plan.fallback_address,
        os: copy_text_option(&peer.os),
        api_base_url: plan.fallback_api_base_url,
        models: Vec::new(),
        invite_token: None,
        latency_ms: None,
        online: true,
        reachable: false,
    }
}

} // verus!
