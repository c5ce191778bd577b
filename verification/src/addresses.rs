//! The addresses a peer is probed at: its parsed addresses, IPv4 first, each
//! address once.

use vstd::prelude::*;
use crate::order::chars_precede;
use crate::tailnet::{is_v6, IpAddress, TailnetAddress, TailnetIp, TailscalePeer};

verus! {

/// Whether `a` sorts strictly before `b` by the key (is IPv6, canonical text).
pub open spec fn ip_key_precedes(a: TailnetIp, b: TailnetIp) -> bool {
    ||| !is_v6(a.addr) && is_v6(b.addr)
    ||| is_v6(a.addr) == is_v6(b.addr) && chars_precede(a.text@, b.text@)
}

/// Whether `a` and `b` have the same sort key.
pub open spec fn same_ip_key(a: TailnetIp, b: TailnetIp) -> bool {
    is_v6(a.addr) == is_v6(b.addr) && a.text@ == b.text@
}

/// Whether `s` is in non-decreasing key order.
pub open spec fn sorted_by_ip_key(s: Seq<TailnetIp>) -> bool {
    forall|i: int, j: int| 0 <= i < j < s.len() ==> !ip_key_precedes(#[trigger] s[j], #[trigger] s[i])
}

/// The elements of `s` whose key equals that of `k`, in order.
pub open spec fn key_class(s: Seq<TailnetIp>, k: TailnetIp) -> Seq<TailnetIp> {
    s.filter(|x: TailnetIp| same_ip_key(x, k))
}

/// `s` with every element dropped that has the same address as the element
/// just before it: the first of each run of equal addresses stays.
pub open spec fn dedup_adjacent(s: Seq<TailnetIp>) -> Seq<TailnetIp>
    decreases s.len(),
{
    if s.len() <= 1 {
        s
    } else if s.last().addr == s[s.len() - 2].addr {
        dedup_adjacent(s.drop_last())
    } else {
        dedup_adjacent(s.drop_last()).push(s.last())
    }
}

/// The addresses among `a` that parse, in order.
pub open spec fn parsed_ips(a: Seq<TailnetAddress>) -> Seq<TailnetIp>
    decreases a.len(),
{
    if a.len() == 0 {
        Seq::empty()
    } else {
        let p = parsed_ips(a.drop_last());
        match a.last().ip {
            Some(t) => p.push(t),
            None => p,
        }
    }
}

/// The key peer addresses are sorted by: IPv4 before IPv6, then the
/// canonical text.
pub fn ip_sort_key(ip: &TailnetIp) -> (res: (bool, String))
    ensures
        res.0 == is_v6(ip.addr),
        res.1@ == ip.text@,
{
    let v6 = match ip.addr {
        IpAddress::V4(..) => false,
        IpAddress::V6(..) => true,
    };
    (v6, ip.text.clone())
}

/// Whether two parsed addresses are the same address.
pub fn same_address(a: &TailnetIp, b: &TailnetIp) -> (res: bool)
    ensures
        res == (a.addr == b.addr),
{
    a.addr == b.addr
}

/// A copy of `ip`.
pub fn copy_ip(ip: &TailnetIp) -> (res: TailnetIp)
    ensures
        res == *ip,
{
    TailnetIp { addr: ip.addr, text: ip.text.clone() }
}

/// `slice::sort_by_key` with `ip_sort_key`: a stable sort, so the result is
/// a permutation in key order in which elements with equal keys keep their
/// relative order.
#[verifier::external_body]
fn sort_by_ip_key(ips: &mut Vec<TailnetIp>)
    ensures
        is_key_sorting(final(ips)@, old(ips)@),
{
    ips.sort_by_key(ip_sort_key)
}

/// `Vec::dedup_by` with `same_address`: removes every element whose address
/// equals that of the element before it.
#[verifier::external_body]
fn dedup_by_address(ips: &mut Vec<TailnetIp>)
    ensures
        final(ips)@ == dedup_adjacent(old(ips)@),
{
    ips.dedup_by(|a, b| same_address(a, b))
}

/// An element of `parsed_ips(a)` is the parse of some entry of `a`, and
/// every parse is an element.
pub proof fn lemma_parsed_ips(a: Seq<TailnetAddress>)
    ensures
        forall|x: TailnetIp|
            parsed_ips(a).contains(x) <==> exists|j: int|
                0 <= j < a.len() && #[trigger] a[j].ip == Some(x),
    decreases a.len(),
{
    if a.len() > 0 {
        let b = a.drop_last();
        lemma_parsed_ips(b);
        assert forall|x: TailnetIp|
            parsed_ips(a).contains(x) <==> exists|j: int|
                0 <= j < a.len() && #[trigger] a[j].ip == Some(x) by {
            if parsed_ips(a).contains(x) {
                if parsed_ips(b).contains(x) {
                    let j = choose|j: int| 0 <= j < b.len() && #[trigger] b[j].ip == Some(x);
                    assert(a[j] == b[j]);
                } else {
                    assert(a[a.len() - 1].ip == Some(x));
                }
            }
            if exists|j: int| 0 <= j < a.len() && #[trigger] a[j].ip == Some(x) {
                let j = choose|j: int| 0 <= j < a.len() && #[trigger] a[j].ip == Some(x);
                if j < a.len() - 1 {
                    assert(b[j] == a[j]);
                    assert(parsed_ips(b).contains(x));
                    let k = choose|k: int| 0 <= k < parsed_ips(b).len() && parsed_ips(b)[k] == x;
                    assert(parsed_ips(a)[k] == x);
                } else {
                    assert(parsed_ips(a).last() == x);
                }
            }
        }
    }
}

/// Every element of `dedup_adjacent(s)` is an element of `s`.
pub proof fn lemma_dedup_contained(s: Seq<TailnetIp>)
    ensures
        forall|x: TailnetIp| dedup_adjacent(s).contains(x) ==> s.contains(x),
    decreases s.len(),
{
    if s.len() > 1 {
        let b = s.drop_last();
        lemma_dedup_contained(b);
        assert forall|x: TailnetIp| dedup_adjacent(s).contains(x) implies s.contains(x) by {
            if x == s.last() {
                assert(s[s.len() - 1] == x);
            } else {
                assert(dedup_adjacent(b).contains(x)) by {
                    let k = choose|k: int|
                        0 <= k < dedup_adjacent(s).len() && dedup_adjacent(s)[k] == x;
                    if s.last().addr != s[s.len() - 2].addr {
                        assert(k < dedup_adjacent(b).len());
                        assert(dedup_adjacent(b)[k] == x);
                    } else {
                        assert(dedup_adjacent(b)[k] == x);
                    }
                }
                assert(b.contains(x));
                let j = choose|j: int| 0 <= j < b.len() && b[j] == x;
                assert(s[j] == b[j]);
            }
        }
    }
}

/// `dedup_adjacent` keeps a last element with the address of the last one.
pub proof fn lemma_dedup_last(s: Seq<TailnetIp>)
    requires
        s.len() > 0,
    ensures
        dedup_adjacent(s).len() > 0,
        dedup_adjacent(s).last().addr == s.last().addr,
    decreases s.len(),
{
    if s.len() > 1 {
        lemma_dedup_last(s.drop_last());
    }
}

/// Every address of `s` appears in `dedup_adjacent(s)`.
pub proof fn lemma_dedup_covers(s: Seq<TailnetIp>)
    ensures
        forall|i: int|
            0 <= i < s.len() ==> exists|k: int|
                0 <= k < dedup_adjacent(s).len() && #[trigger] dedup_adjacent(s)[k].addr
                    == #[trigger] s[i].addr,
    decreases s.len(),
{
    if s.len() > 1 {
        let b = s.drop_last();
        lemma_dedup_covers(b);
        lemma_dedup_last(b);
        let d = dedup_adjacent(s);
        let db = dedup_adjacent(b);
        assert forall|i: int| 0 <= i < s.len() implies exists|k: int|
            0 <= k < d.len() && #[trigger] d[k].addr == #[trigger] s[i].addr by {
            if i < s.len() - 1 {
                assert(s[i] == b[i]);
                let k = choose|k: int| 0 <= k < db.len() && #[trigger] db[k].addr == b[i].addr;
                assert(d[k] == db[k]);
            } else if s.last().addr == s[s.len() - 2].addr {
                assert(d[db.len() - 1] == db.last());
                assert(b.last() == s[s.len() - 2]);
            } else {
                assert(d[d.len() - 1] == s.last());
            }
        }
    } else if s.len() == 1 {
        assert(dedup_adjacent(s)[0] == s[0]);
    }
}

/// Neighbours in `dedup_adjacent(s)` have different addresses.
pub proof fn lemma_dedup_distinct_neighbours(s: Seq<TailnetIp>)
    ensures
        forall|k: int|
            0 <= k < dedup_adjacent(s).len() - 1 ==> #[trigger] dedup_adjacent(s)[k].addr
                != dedup_adjacent(s)[k + 1].addr,
    decreases s.len(),
{
    if s.len() > 1 {
        let b = s.drop_last();
        lemma_dedup_distinct_neighbours(b);
        lemma_dedup_last(b);
        let d = dedup_adjacent(s);
        let db = dedup_adjacent(b);
        if s.last().addr != s[s.len() - 2].addr {
            assert forall|k: int| 0 <= k < d.len() - 1 implies #[trigger] d[k].addr != d[k
                + 1].addr by {
                if k < db.len() - 1 {
                    assert(d[k] == db[k] && d[k + 1] == db[k + 1]);
                } else {
                    assert(d[k] == db.last());
                    assert(b.last() == s[s.len() - 2]);
                }
            }
        }
    }
}

/// `dedup_adjacent` keeps a sorted sequence sorted.
pub proof fn lemma_dedup_sorted(s: Seq<TailnetIp>)
    requires
        sorted_by_ip_key(s),
    ensures
        sorted_by_ip_key(dedup_adjacent(s)),
    decreases s.len(),
{
    if s.len() > 1 {
        let b = s.drop_last();
        assert(sorted_by_ip_key(b)) by {
            assert forall|i: int, j: int| 0 <= i < j < b.len() implies !ip_key_precedes(
                #[trigger] b[j],
                #[trigger] b[i],
            ) by {
                assert(b[i] == s[i] && b[j] == s[j]);
            }
        }
        lemma_dedup_sorted(b);
        lemma_dedup_contained(b);
        let d = dedup_adjacent(s);
        let db = dedup_adjacent(b);
        if s.last().addr != s[s.len() - 2].addr {
            assert forall|i: int, j: int| 0 <= i < j < d.len() implies !ip_key_precedes(
                #[trigger] d[j],
                #[trigger] d[i],
            ) by {
                if j < d.len() - 1 {
                    assert(d[i] == db[i] && d[j] == db[j]);
                } else {
                    assert(d[i] == db[i]);
                    assert(db.contains(db[i]));
                    assert(b.contains(db[i]));
                    let m = choose|m: int| 0 <= m < b.len() && b[m] == db[i];
                    assert(s[m] == b[m]);
                    assert(d[j] == s[s.len() - 1]);
                }
            }
        }
    }
}

/// Whether `sorted` is `s` stably sorted by key: the same elements, in key
/// order, elements with equal keys in the order they came in.
pub open spec fn is_key_sorting(sorted: Seq<TailnetIp>, s: Seq<TailnetIp>) -> bool {
    &&& sorted.to_multiset() == s.to_multiset()
    &&& sorted_by_ip_key(sorted)
    &&& forall|k: TailnetIp| #[trigger] key_class(sorted, k) == key_class(s, k)
}

/// Whether `s` lists the distinct parsed addresses of `peer` in probe order:
/// every element is a parse of a reported address, every parsed address
/// appears, neighbours differ, and the list is in key order (IPv4 first).
pub open spec fn is_probe_order(peer: TailscalePeer, s: Seq<TailnetIp>) -> bool {
    &&& forall|k: int|
        0 <= k < s.len() ==> exists|j: int|
            0 <= j < peer.addresses@.len() && #[trigger] peer.addresses@[j].ip == Some(
                #[trigger] s[k],
            )
    &&& forall|j: int|
        0 <= j < peer.addresses@.len() && (#[trigger] peer.addresses@[j]).ip is Some
            ==> exists|k: int| 0 <= k < s.len() && #[trigger] s[k].addr == peer.addresses@[j].ip->0.addr
    &&& sorted_by_ip_key(s)
    &&& forall|k: int| 0 <= k < s.len() - 1 ==> #[trigger] s[k].addr != s[k + 1].addr
}

/// The distinct parsed addresses of a peer, IPv4 before IPv6 and each family
/// in canonical-text order: every result is a parse of a reported address,
/// every parsed address appears, neighbours differ, and the list is in key
/// order.
pub fn peer_ip_addresses(peer: &TailscalePeer) -> (res: Vec<TailnetIp>)
    ensures
        is_probe_order(*peer, res@),
        exists|sorted: Seq<TailnetIp>| #[trigger] is_key_sorting(sorted, parsed_ips(peer.addresses@)) && res@ == dedup_adjacent(sorted),
{
    let mut ips: Vec<TailnetIp> = Vec::new();
    let mut i: usize = 0;
    while i < peer.addresses.len()
        invariant
            i <= peer.addresses.len(),
            ips@ == parsed_ips(peer.addresses@.take(i as int)),
        decreases peer.addresses.len() - i,
    {
        assert(peer.addresses@.take(i + 1).drop_last() == peer.addresses@.take(i as int));
        match &peer.addresses[i].ip {
            Some(t) => ips.push(copy_ip(t)),
            None => {},
        }
        i = i + 1;
    }
    assert(peer.addresses@.take(i as int) == peer.addresses@);
    let ghost parsed = ips@;
    sort_by_ip_key(&mut ips);
    let ghost sorted = ips@;
    dedup_by_address(&mut ips);
    assert(is_key_sorting(sorted, parsed_ips(peer.addresses@)));
    proof {
        broadcast use vstd::seq_lib::group_to_multiset_ensures;

        lemma_parsed_ips(peer.addresses@);
        lemma_dedup_contained(sorted);
        lemma_dedup_covers(sorted);
        lemma_dedup_sorted(sorted);
        lemma_dedup_distinct_neighbours(sorted);
        assert forall|k: int| 0 <= k < ips@.len() implies exists|j: int|
            0 <= j < peer.addresses@.len() && #[trigger] peer.addresses@[j].ip == Some(
                #[trigger] ips@[k],
            ) by {
            let x = ips@[k];
            assert(ips@.contains(x));
            assert(sorted.contains(x));
            assert(sorted.to_multiset().count(x) > 0);
            assert(parsed.contains(x));
        }
        assert forall|j: int|
            0 <= j < peer.addresses@.len() && (#[trigger] peer.addresses@[j]).ip is Some
                implies exists|k: int|
                0 <= k < ips@.len() && #[trigger] ips@[k].addr
                    == peer.addresses@[j].ip->0.addr by {
            let x = peer.addresses@[j].ip->0;
            assert(parsed.contains(x));
            assert(parsed.to_multiset().count(x) > 0);
            assert(sorted.contains(x));
            let m = choose|m: int| 0 <= m < sorted.len() && sorted[m] == x;
            let k = choose|k: int| 0 <= k < ips@.len() && #[trigger] ips@[k].addr == sorted[m].addr;
        }
    }
    ips
}

} // verus!
