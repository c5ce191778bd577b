//! Orders: the lexicographic order of texts that `str::cmp` computes, and the
//! latency-then-name order that peer lists are sorted by.

use vstd::prelude::*;
use std::cmp::Ordering;

verus! {

/// Whether character `a` has a smaller code point than `b`.
pub open spec fn char_below(a: char, b: char) -> bool {
    (a as int) < (b as int)
}

/// Strict lexicographic order on texts, character by character: a proper
/// prefix comes first.
pub open spec fn chars_precede(a: Seq<char>, b: Seq<char>) -> bool
    decreases a.len(),
{
    if a.len() == 0 {
        b.len() > 0
    } else if b.len() == 0 {
        false
    } else if a[0] == b[0] {
        chars_precede(a.drop_first(), b.drop_first())
    } else {
        char_below(a[0], b[0])
    }
}

/// `chars_precede` is irreflexive.
pub proof fn lemma_chars_precede_irreflexive(a: Seq<char>)
    ensures
        !chars_precede(a, a),
    decreases a.len(),
{
    if a.len() > 0 {
        lemma_chars_precede_irreflexive(a.drop_first());
    }
}

/// `chars_precede` is asymmetric.
pub proof fn lemma_chars_precede_asymmetric(a: Seq<char>, b: Seq<char>)
    ensures
        chars_precede(a, b) ==> !chars_precede(b, a),
    decreases a.len(),
{
    if a.len() > 0 && b.len() > 0 && a[0] == b[0] {
        lemma_chars_precede_asymmetric(a.drop_first(), b.drop_first());
    }
}

/// `chars_precede` is transitive.
pub proof fn lemma_chars_precede_transitive(a: Seq<char>, b: Seq<char>, c: Seq<char>)
    requires
        chars_precede(a, b),
        chars_precede(b, c),
    ensures
        chars_precede(a, c),
    decreases a.len(),
{
    if a.len() > 0 {
        assert(b.len() > 0 && c.len() > 0);
        if a[0] == b[0] && b[0] == c[0] {
            lemma_chars_precede_transitive(a.drop_first(), b.drop_first(), c.drop_first());
        } else if a[0] == b[0] {
            assert(char_below(b[0], c[0]));
        } else if b[0] == c[0] {
            assert(char_below(a[0], b[0]));
        } else {
            assert(char_below(a[0], b[0]) && char_below(b[0], c[0]));
        }
        assert(a[0] != c[0] ==> char_below(a[0], c[0]));
    }
}

/// Two different texts are ordered one way or the other.
pub proof fn lemma_chars_precede_total(a: Seq<char>, b: Seq<char>)
    ensures
        a == b || chars_precede(a, b) || chars_precede(b, a),
    decreases a.len(),
{
    if a.len() > 0 && b.len() > 0 && a[0] == b[0] {
        lemma_chars_precede_total(a.drop_first(), b.drop_first());
        if a.drop_first() == b.drop_first() {
            assert(a.drop_first().len() == b.drop_first().len());
            assert(a.len() == b.len());
            assert(a =~= b) by {
                assert forall|i: int| 0 <= i < a.len() implies a[i] == b[i] by {
                    if i > 0 {
                        assert(a[i] == a.drop_first()[i - 1]);
                        assert(b[i] == b.drop_first()[i - 1]);
                    }
                }
            }
        }
    } else if a.len() == 0 && b.len() == 0 {
        assert(a =~= b);
    }
}

/// `str::cmp`: strings are ordered lexicographically by their UTF-8 bytes,
/// which is the lexicographic order of their characters by code point.
#[verifier::external_body]
pub(crate) fn order_text(a: &str, b: &str) -> (res: Ordering)
    ensures
        (res == Ordering::Less) == chars_precede(a@, b@),
        (res == Ordering::Equal) == (a@ == b@),
        (res == Ordering::Greater) == chars_precede(b@, a@),
{
    a.cmp(b)
}

/// The order peers are listed in: a measured latency before none, smaller
/// latencies first, and the name deciding between equal latencies.
pub open spec fn latency_precedes(la: Option<u64>, ha: Seq<char>, lb: Option<u64>, hb: Seq<char>) -> bool {
    match (la, lb) {
        (Some(x), Some(y)) => x < y || (x == y && chars_precede(ha, hb)),
        (Some(_), None) => true,
        (None, Some(_)) => false,
        (None, None) => chars_precede(ha, hb),
    }
}

/// The latency order is a strict weak order whose ties are exactly equal
/// latency and equal name: irreflexive, transitive, and total up to ties.
pub proof fn lemma_latency_order(
    la: Option<u64>,
    ha: Seq<char>,
    lb: Option<u64>,
    hb: Seq<char>,
    lc: Option<u64>,
    hc: Seq<char>,
)
    ensures
        !latency_precedes(la, ha, la, ha),
        latency_precedes(la, ha, lb, hb) ==> !latency_precedes(lb, hb, la, ha),
        latency_precedes(la, ha, lb, hb) && latency_precedes(lb, hb, lc, hc) ==> latency_precedes(
            la,
            ha,
            lc,
            hc,
        ),
        (la == lb && ha == hb) || latency_precedes(la, ha, lb, hb) || latency_precedes(
            lb,
            hb,
            la,
            ha,
        ),
{
    lemma_chars_precede_irreflexive(ha);
    lemma_chars_precede_asymmetric(ha, hb);
    lemma_chars_precede_total(ha, hb);
    if chars_precede(ha, hb) && chars_precede(hb, hc) {
        lemma_chars_precede_transitive(ha, hb, hc);
    }
}

} // verus!

verus! {

/// A listed peer: sorted by its measured latency and its name.
pub trait LatencyListed {
    spec fn listed_latency(&self) -> Option<u64>;

    spec fn listed_name(&self) -> Seq<char>;
}

/// Whether `a` is listed strictly before `b`.
pub open spec fn listed_before<T: LatencyListed>(a: T, b: T) -> bool {
    latency_precedes(a.listed_latency(), a.listed_name(), b.listed_latency(), b.listed_name())
}

/// Whether `a` and `b` tie: same latency and same name.
pub open spec fn listed_tie<T: LatencyListed>(a: T, b: T) -> bool {
    a.listed_latency() == b.listed_latency() && a.listed_name() == b.listed_name()
}

/// Whether an element ties with `k`.
pub open spec fn ties_with<T: LatencyListed>(k: T) -> spec_fn(T) -> bool {
    |x: T| listed_tie(x, k)
}

/// The elements of `s` that tie with `k`, in order.
pub open spec fn tie_class<T: LatencyListed>(s: Seq<T>, k: T) -> Seq<T> {
    s.filter(ties_with(k))
}

/// Whether `s` is in listing order.
pub open spec fn listed_in_order<T: LatencyListed>(s: Seq<T>) -> bool {
    forall|i: int, j: int| 0 <= i < j < s.len() ==> !listed_before(#[trigger] s[j], #[trigger] s[i])
}

/// Whether `sorted` is `s` stably sorted into listing order: the same
/// elements, in order, with tying elements in the order they came in.
pub open spec fn is_stable_listing<T: LatencyListed>(sorted: Seq<T>, s: Seq<T>) -> bool {
    &&& sorted.to_multiset() == s.to_multiset()
    &&& listed_in_order(sorted)
    &&& forall|k: T| #[trigger] tie_class(sorted, k) == tie_class(s, k)
}

/// A listing is unique: two sequences with the same elements, both in
/// listing order, whose tie classes agree, are the same sequence.
pub proof fn lemma_listing_unique<T: LatencyListed>(a: Seq<T>, b: Seq<T>)
    requires
        a.to_multiset() == b.to_multiset(),
        listed_in_order(a),
        listed_in_order(b),
        forall|k: T| #[trigger] tie_class(a, k) == tie_class(b, k),
    ensures
        a == b,
    decreases a.len(),
{
    broadcast use vstd::seq_lib::group_to_multiset_ensures;

    assert(a.len() == b.len()) by {
        assert(a.to_multiset().len() == a.len());
        assert(b.to_multiset().len() == b.len());
    }
    if a.len() == 0 {
        assert(a =~= b);
        return;
    }
    let x = a[0];
    let y = b[0];
    assert(a.contains(x));
    assert(a.to_multiset().count(x) > 0);
    assert(b.contains(x));
    let j = choose|j: int| 0 <= j < b.len() && b[j] == x;
    assert(!listed_before(x, y)) by {
        if j > 0 {
            assert(!listed_before(b[j], b[0]));
        } else {
            lemma_chars_precede_irreflexive(x.listed_name());
        }
    }
    assert(b.contains(y));
    assert(b.to_multiset().count(y) > 0);
    assert(a.contains(y));
    let i = choose|i: int| 0 <= i < a.len() && a[i] == y;
    assert(!listed_before(y, x)) by {
        if i > 0 {
            assert(!listed_before(a[i], a[0]));
        } else {
            lemma_chars_precede_irreflexive(x.listed_name());
        }
    }
    lemma_latency_order(x.listed_latency(), x.listed_name(), y.listed_latency(), y.listed_name(), x.listed_latency(), x.listed_name());
    assert(listed_tie(y, x));
    let a1 = a.drop_first();
    let b1 = b.drop_first();
    assert(a == seq![x] + a1);
    assert(b == seq![y] + b1);
    a1.lemma_filter_prepend(x, ties_with(x));
    b1.lemma_filter_prepend(y, ties_with(x));
    assert(tie_class(a, x) == tie_class(b, x));
    assert(tie_class(a, x)[0] == x);
    assert(tie_class(b, x)[0] == y);
    assert(x == y);
    assert(a.remove(0) == a1);
    assert(b.remove(0) == b1);
    assert(a1.to_multiset() == b1.to_multiset());
    assert forall|k: T| #[trigger] tie_class(a1, k) == tie_class(b1, k) by {
        a1.lemma_filter_prepend(x, ties_with(k));
        b1.lemma_filter_prepend(x, ties_with(k));
        let head: Seq<T> = if ties_with(k)(x) {
            seq![x]
        } else {
            Seq::empty()
        };
        assert(tie_class(a, k) == head + tie_class(a1, k));
        assert(tie_class(b, k) == head + tie_class(b1, k));
        assert(tie_class(a1, k) == (head + tie_class(a1, k)).skip(head.len() as int));
        assert(tie_class(b1, k) == (head + tie_class(b1, k)).skip(head.len() as int));
    }
    assert(listed_in_order(a1)) by {
        assert forall|p: int, q: int| 0 <= p < q < a1.len() implies !listed_before(#[trigger] a1[q], #[trigger] a1[p]) by {
            assert(a1[q] == a[q + 1] && a1[p] == a[p + 1]);
        }
    }
    assert(listed_in_order(b1)) by {
        assert forall|p: int, q: int| 0 <= p < q < b1.len() implies !listed_before(#[trigger] b1[q], #[trigger] b1[p]) by {
            assert(b1[q] == b[q + 1] && b1[p] == b[p + 1]);
        }
    }
    lemma_listing_unique(a1, b1);
}

/// A stable listing of a sequence is unique.
pub proof fn lemma_stable_listing_unique<T: LatencyListed>(a: Seq<T>, b: Seq<T>, s: Seq<T>)
    requires
        is_stable_listing(a, s),
        is_stable_listing(b, s),
    ensures
        a == b,
{
    assert forall|k: T| #[trigger] tie_class(a, k) == tie_class(b, k) by {
        assert(tie_class(a, k) == tie_class(s, k));
        assert(tie_class(b, k) == tie_class(s, k));
    }
    lemma_listing_unique(a, b);
}

/// Whether `compare` orders listed items as the listing does: `Less` when
/// the first is listed before the second, `Equal` when they tie, `Greater`
/// when the second is listed first.
pub open spec fn orders_as_listed<T: LatencyListed, F: Fn(&T, &T) -> Ordering>(compare: F) -> bool {
    &&& forall|a: &T, b: &T| #[trigger] call_requires(compare, (a, b))
    &&& forall|a: &T, b: &T, r: Ordering| #[trigger] call_ensures(compare, (a, b), r) ==> {
        &&& (r == Ordering::Less) == listed_before(*a, *b)
        &&& (r == Ordering::Equal) == listed_tie(*a, *b)
        &&& (r == Ordering::Greater) == listed_before(*b, *a)
    }
}

/// `slice::sort_by`, a stable sort: with a comparison that orders items as
/// the listing does (a strict weak order, by `lemma_latency_order`), the
/// items end up in listing order, tying items in the order they came in.
#[verifier::external_body]
pub(crate) fn sort_listing<T: LatencyListed, F: Fn(&T, &T) -> Ordering>(items: &mut Vec<T>, compare: F)
    requires
        orders_as_listed(compare),
    ensures
        is_stable_listing(final(items)@, old(items)@),
{
    items.sort_by(compare)
}

} // verus!
