//! Offers and the sorted offer books.
//!
//! A glyph's sell-glyph offers form a sorted set of `OfferBuy` values, and
//! the buyers queued on an asset-sell offer form a sorted set of principals.
//! The total order over offers is defined explicitly (variant tag first,
//! then payload fields) so that it is portable and auditable; binary search
//! over the sorted sets yields an offer's rank directly.

use vstd::prelude::*;

verus! {

/// What a glyph seller asks in exchange: a specific amount of a fungible
/// asset, or a specific other glyph.
#[derive(Clone, Copy, Debug, PartialEq, Eq, Structural)]
pub enum OfferBuy {
    /// Asset address and amount.
    Asset(u64, i128),
    /// Glyph identifier.
    Glyph(u32),
}

/// An asset-sell offer: a buyer (owner of the funds), the asset, and the
/// amount escrowed for a glyph.
#[derive(Clone, Copy, Debug, PartialEq, Eq, Structural)]
pub struct OfferSellAsset(pub u64, pub u64, pub i128);

/// A query for asset-sell offers: an optional buyer, the asset, the amount.
#[derive(Clone, Copy, Debug, PartialEq, Eq, Structural)]
pub struct OfferSellAssetGet(pub Option<u64>, pub u64, pub i128);

/// The strict total order over offers: assets before glyphs; assets by
/// (address, amount); glyphs by identifier.
pub open spec fn offer_lt(a: OfferBuy, b: OfferBuy) -> bool {
    match (a, b) {
        (OfferBuy::Asset(sa, aa), OfferBuy::Asset(sb, ab)) => sa < sb || (sa == sb && aa < ab),
        (OfferBuy::Asset(_, _), OfferBuy::Glyph(_)) => true,
        (OfferBuy::Glyph(_), OfferBuy::Asset(_, _)) => false,
        (OfferBuy::Glyph(ga), OfferBuy::Glyph(gb)) => ga < gb,
    }
}

/// `offer_lt` relates every pair of distinct offers, one way and not both:
/// together with `lemma_offer_order_trans` it is a strict total order, so a
/// sorted offer set can hold no duplicate.
pub proof fn lemma_offer_order_total(a: OfferBuy, b: OfferBuy)
    ensures
        a == b || offer_lt(a, b) || offer_lt(b, a),
        !(offer_lt(a, b) && offer_lt(b, a)),
        offer_lt(a, b) ==> a != b,
{
}

/// Transitivity of the offer order.
pub proof fn lemma_offer_order_trans(a: OfferBuy, b: OfferBuy, c: OfferBuy)
    requires
        offer_lt(a, b),
        offer_lt(b, c),
    ensures
        offer_lt(a, c),
{
}

/// A strictly sorted offer set is determined by its members: two sorted
/// sets holding the same offers are the same sequence, so the contracts
/// that fix a result's members and order fix the result itself.
pub proof fn lemma_sorted_offers_unique(s1: Seq<OfferBuy>, s2: Seq<OfferBuy>)
    requires
        sorted_offers(s1),
        sorted_offers(s2),
        forall|y: OfferBuy| s1.contains(y) <==> s2.contains(y),
    ensures
        s1 =~= s2,
    decreases s1.len(),
{
    if s1.len() == 0 {
        if s2.len() > 0 {
            assert(s1.contains(s2[0]));
        }
    } else {
        assert(s2.contains(s1[0]));
        let j = choose|j: int| 0 <= j < s2.len() && s2[j] == s1[0];
        assert(s1.contains(s2[0]));
        let i = choose|i: int| 0 <= i < s1.len() && s1[i] == s2[0];
        // the heads agree: each head is its set's least element
        if i > 0 {
            assert(offer_lt(s1[0], s1[i]));
            if j > 0 {
                assert(offer_lt(s2[0], s2[j]));
                lemma_offer_order_trans(s1[0], s2[0], s1[0]);
                lemma_offer_order_total(s1[0], s1[0]);
            }
        }
        assert(s1[0] == s2[0]);
        let t1 = s1.drop_first();
        let t2 = s2.drop_first();
        assert forall|y: OfferBuy| t1.contains(y) implies t2.contains(y) by {
            let k = choose|k: int| 0 <= k < t1.len() && t1[k] == y;
            assert(s1[k + 1] == y);
            lemma_offer_order_total(s1[0], y);
            assert(s2.contains(y));
            let m = choose|m: int| 0 <= m < s2.len() && s2[m] == y;
            assert(m != 0);
            assert(t2[m - 1] == y);
        }
        assert forall|y: OfferBuy| t2.contains(y) implies t1.contains(y) by {
            let k = choose|k: int| 0 <= k < t2.len() && t2[k] == y;
            assert(s2[k + 1] == y);
            lemma_offer_order_total(s2[0], y);
            assert(s1.contains(y));
            let m = choose|m: int| 0 <= m < s1.len() && s1[m] == y;
            assert(m != 0);
            assert(t1[m - 1] == y);
        }
        lemma_sorted_offers_unique(t1, t2);
        assert forall|k: int| 0 <= k < s1.len() implies s1[k] == s2[k] by {
            if k > 0 {
                assert(t1[k - 1] == t2[k - 1]);
            }
        }
    }
}

/// A strictly sorted buyer queue is likewise determined by its members.
pub proof fn lemma_sorted_owners_unique(s1: Seq<u64>, s2: Seq<u64>)
    requires
        sorted_owners(s1),
        sorted_owners(s2),
        forall|y: u64| s1.contains(y) <==> s2.contains(y),
    ensures
        s1 =~= s2,
    decreases s1.len(),
{
    if s1.len() == 0 {
        if s2.len() > 0 {
            assert(s1.contains(s2[0]));
        }
    } else {
        assert(s2.contains(s1[0]));
        let j = choose|j: int| 0 <= j < s2.len() && s2[j] == s1[0];
        assert(s1.contains(s2[0]));
        let i = choose|i: int| 0 <= i < s1.len() && s1[i] == s2[0];
        assert(s1[0] == s2[0]);
        let t1 = s1.drop_first();
        let t2 = s2.drop_first();
        assert forall|y: u64| t1.contains(y) implies t2.contains(y) by {
            let k = choose|k: int| 0 <= k < t1.len() && t1[k] == y;
            assert(s1[k + 1] == y);
            assert(s2.contains(y));
            let m = choose|m: int| 0 <= m < s2.len() && s2[m] == y;
            assert(m != 0);
            assert(t2[m - 1] == y);
        }
        assert forall|y: u64| t2.contains(y) implies t1.contains(y) by {
            let k = choose|k: int| 0 <= k < t2.len() && t2[k] == y;
            assert(s2[k + 1] == y);
            assert(s1.contains(y));
            let m = choose|m: int| 0 <= m < s1.len() && s1[m] == y;
            assert(m != 0);
            assert(t1[m - 1] == y);
        }
        lemma_sorted_owners_unique(t1, t2);
        assert forall|k: int| 0 <= k < s1.len() implies s1[k] == s2[k] by {
            if k > 0 {
                assert(t1[k - 1] == t2[k - 1]);
            }
        }
    }
}

fn offer_lt_exec(a: &OfferBuy, b: &OfferBuy) -> (r: bool)
    ensures
        r == offer_lt(*a, *b),
{
    match (a, b) {
        (OfferBuy::Asset(sa, aa), OfferBuy::Asset(sb, ab)) => *sa < *sb || (*sa == *sb && *aa
            < *ab),
        (OfferBuy::Asset(_, _), OfferBuy::Glyph(_)) => true,
        (OfferBuy::Glyph(_), OfferBuy::Asset(_, _)) => false,
        (OfferBuy::Glyph(ga), OfferBuy::Glyph(gb)) => *ga < *gb,
    }
}

/// A sell-glyph offer set: strictly sorted, hence duplicate-free.
pub open spec fn sorted_offers(s: Seq<OfferBuy>) -> bool {
    forall|i: int, j: int| 0 <= i < j < s.len() ==> offer_lt(s[i], s[j])
}

/// A buyer queue: strictly sorted by principal, hence duplicate-free; its
/// head is the lowest-ordered queued buyer.
pub open spec fn sorted_owners(s: Seq<u64>) -> bool {
    forall|i: int, j: int| 0 <= i < j < s.len() ==> s[i] < s[j]
}

/// Binary search in a sorted offer set. A hit returns the offer's rank
/// (its zero-based position); a miss returns the insertion point.
pub fn offer_search(v: &Vec<OfferBuy>, x: OfferBuy) -> (r: Result<usize, usize>)
    requires
        sorted_offers(v@),
    ensures
        match r {
            Ok(i) => {
                &&& i < v@.len()
                &&& v@[i as int] == x
                &&& forall|j: int| 0 <= j < i ==> offer_lt(v@[j], x)
                &&& forall|j: int| i < j < v@.len() ==> offer_lt(x, v@[j])
            },
            Err(i) => {
                &&& i <= v@.len()
                &&& !v@.contains(x)
                &&& forall|j: int| 0 <= j < i ==> offer_lt(v@[j], x)
                &&& forall|j: int| i <= j < v@.len() ==> offer_lt(x, v@[j])
            },
        },
{
    let mut lo: usize = 0;
    let mut hi: usize = v.len();
    while lo < hi
        invariant
            lo <= hi <= v@.len(),
            sorted_offers(v@),
            forall|j: int| 0 <= j < lo ==> offer_lt(v@[j], x),
            forall|j: int| hi <= j < v@.len() ==> offer_lt(x, v@[j]),
        decreases hi - lo,
    {
        let mid = lo + (hi - lo) / 2;
        let m = v[mid];
        if m == x {
            return Ok(mid);
        } else if offer_lt_exec(&m, &x) {
            proof {
                assert forall|j: int| 0 <= j < mid + 1 implies offer_lt(v@[j], x) by {
                    if j < mid {
                        lemma_offer_order_trans(v@[j], v@[mid as int], x);
                    }
                }
            }
            lo = mid + 1;
        } else {
            proof {
                lemma_offer_order_total(m, x);
                assert forall|j: int| mid <= j < v@.len() implies offer_lt(x, v@[j]) by {
                    if j > mid {
                        lemma_offer_order_trans(x, v@[mid as int], v@[j]);
                    }
                }
            }
            hi = mid;
        }
    }
    proof {
        if v@.contains(x) {
            let k = choose|k: int| 0 <= k < v@.len() && v@[k] == x;
            lemma_offer_order_total(x, x);
        }
    }
    Err(lo)
}

/// Insert an offer into a sorted set; `None` reports a duplicate.
pub fn offer_set_insert(v: &mut Vec<OfferBuy>, x: OfferBuy) -> (r: Option<usize>)
    requires
        sorted_offers(old(v)@),
    ensures
        match r {
            None => final(v)@ == old(v)@ && old(v)@.contains(x),
            Some(i) => {
                &&& !old(v)@.contains(x)
                &&& i <= old(v)@.len()
                &&& final(v)@ == old(v)@.insert(i as int, x)
                &&& sorted_offers(final(v)@)
                &&& forall|y: OfferBuy|
                    final(v)@.contains(y) <==> old(v)@.contains(y) || y == x
            },
        },
{
    match offer_search(v, x) {
        Ok(_) => None,
        Err(i) => {
            let ghost s0 = v@;
            v.insert(i, x);
            proof {
                let s1 = v@;
                assert forall|a: int, b: int| 0 <= a < b < s1.len() implies offer_lt(
                    s1[a],
                    s1[b],
                ) by {
                    if a == i {
                    } else if b == i {
                    } else if a < i && b > i {
                        lemma_offer_order_trans(s1[a], x, s1[b]);
                    }
                }
                assert forall|y: OfferBuy| s1.contains(y) implies s0.contains(y) || y == x by {
                    let k = choose|k: int| 0 <= k < s1.len() && s1[k] == y;
                    if k < i {
                        assert(s0[k] == y);
                    } else if k > i {
                        assert(s0[k - 1] == y);
                    }
                }
                assert forall|y: OfferBuy| s0.contains(y) || y == x implies s1.contains(y) by {
                    if s0.contains(y) {
                        let k = choose|k: int| 0 <= k < s0.len() && s0[k] == y;
                        if k < i {
                            assert(s1[k] == y);
                        } else {
                            assert(s1[k + 1] == y);
                        }
                    } else {
                        assert(s1[i as int] == y);
                    }
                }
            }
            Some(i)
        },
    }
}

/// Remove an offer from a sorted set; `None` reports that it was absent.
pub fn offer_set_remove(v: &mut Vec<OfferBuy>, x: OfferBuy) -> (r: Option<usize>)
    requires
        sorted_offers(old(v)@),
    ensures
        match r {
            None => final(v)@ == old(v)@ && !old(v)@.contains(x),
            Some(i) => {
                &&& i < old(v)@.len()
                &&& old(v)@[i as int] == x
                &&& final(v)@ == old(v)@.remove(i as int)
                &&& sorted_offers(final(v)@)
                &&& forall|y: OfferBuy|
                    final(v)@.contains(y) <==> old(v)@.contains(y) && y != x
            },
        },
{
    match offer_search(v, x) {
        Ok(i) => {
            let ghost s0 = v@;
            v.remove(i);
            proof {
                let s1 = v@;
                assert forall|a: int, b: int| 0 <= a < b < s1.len() implies offer_lt(
                    s1[a],
                    s1[b],
                ) by {
                    assert(s1[a] == if a < i { s0[a] } else { s0[a + 1] });
                    assert(s1[b] == if b < i { s0[b] } else { s0[b + 1] });
                }
                // x sits only at index i: its neighbours are strictly
                // ordered around it
                assert forall|j: int| 0 <= j < s0.len() && j != i implies s0[j] != x by {
                    lemma_offer_order_total(s0[j], x);
                }
                assert forall|y: OfferBuy| s1.contains(y) implies s0.contains(y) && y != x by {
                    let k = choose|k: int| 0 <= k < s1.len() && s1[k] == y;
                    if k < i {
                        assert(s0[k] == y);
                    } else {
                        assert(s0[k + 1] == y);
                    }
                }
                assert forall|y: OfferBuy| s0.contains(y) && y != x implies s1.contains(y) by {
                    let k = choose|k: int| 0 <= k < s0.len() && s0[k] == y;
                    if k < i {
                        assert(s1[k] == y);
                    } else {
                        assert(s1[k - 1] == y);
                    }
                }
            }
            Some(i)
        },
        Err(_) => None,
    }
}

/// A fresh copy of an offer set.
pub fn copy_offers(v: &Vec<OfferBuy>) -> (r: Vec<OfferBuy>)
    ensures
        r@ == v@,
{
    let mut r: Vec<OfferBuy> = Vec::new();
    let n = v.len();
    let mut i: usize = 0;
    while i < n
        invariant
            n == v@.len(),
            i <= n,
            r@ == v@.take(i as int),
        decreases n - i,
    {
        r.push(v[i]);
        proof {
            assert(r@ =~= v@.take(i + 1));
        }
        i = i + 1;
    }
    proof {
        assert(v@.take(n as int) =~= v@);
    }
    r
}

/// A fresh copy of a buyer queue.
pub fn copy_owners(v: &Vec<u64>) -> (r: Vec<u64>)
    ensures
        r@ == v@,
{
    let mut r: Vec<u64> = Vec::new();
    let n = v.len();
    let mut i: usize = 0;
    while i < n
        invariant
            n == v@.len(),
            i <= n,
            r@ == v@.take(i as int),
        decreases n - i,
    {
        r.push(v[i]);
        proof {
            assert(r@ =~= v@.take(i + 1));
        }
        i = i + 1;
    }
    proof {
        assert(v@.take(n as int) =~= v@);
    }
    r
}

/// The queue behind its head: the remaining buyers after the head buyer
/// is serviced.
pub fn queue_tail(v: &Vec<u64>) -> (r: Vec<u64>)
    requires
        v@.len() > 0,
    ensures
        r@ == v@.drop_first(),
{
    let mut r: Vec<u64> = Vec::new();
    let n = v.len();
    let mut i: usize = 1;
    proof {
        assert(r@ =~= v@.subrange(1, 1));
    }
    while i < n
        invariant
            n == v@.len(),
            1 <= i <= n,
            r@ == v@.subrange(1, i as int),
        decreases n - i,
    {
        r.push(v[i]);
        proof {
            assert(r@ =~= v@.subrange(1, i + 1));
        }
        i = i + 1;
    }
    proof {
        assert(v@.subrange(1, n as int) =~= v@.drop_first());
    }
    r
}

/// Binary search in a sorted buyer queue; as for offers, a hit's index is
/// the buyer's rank.
pub fn owner_search(v: &Vec<u64>, x: u64) -> (r: Result<usize, usize>)
    requires
        sorted_owners(v@),
    ensures
        match r {
            Ok(i) => {
                &&& i < v@.len()
                &&& v@[i as int] == x
                &&& forall|j: int| 0 <= j < i ==> v@[j] < x
                &&& forall|j: int| i < j < v@.len() ==> x < v@[j]
            },
            Err(i) => {
                &&& i <= v@.len()
                &&& !v@.contains(x)
                &&& forall|j: int| 0 <= j < i ==> v@[j] < x
                &&& forall|j: int| i <= j < v@.len() ==> x < v@[j]
            },
        },
{
    let mut lo: usize = 0;
    let mut hi: usize = v.len();
    while lo < hi
        invariant
            lo <= hi <= v@.len(),
            sorted_owners(v@),
            forall|j: int| 0 <= j < lo ==> v@[j] < x,
            forall|j: int| hi <= j < v@.len() ==> x < v@[j],
        decreases hi - lo,
    {
        let mid = lo + (hi - lo) / 2;
        let m = v[mid];
        if m == x {
            return Ok(mid);
        } else if m < x {
            lo = mid + 1;
        } else {
            hi = mid;
        }
    }
    Err(lo)
}

/// Insert a buyer into a sorted queue; `None` reports a duplicate.
pub fn owner_queue_insert(v: &mut Vec<u64>, x: u64) -> (r: Option<usize>)
    requires
        sorted_owners(old(v)@),
    ensures
        match r {
            None => final(v)@ == old(v)@ && old(v)@.contains(x),
            Some(i) => {
                &&& !old(v)@.contains(x)
                &&& i <= old(v)@.len()
                &&& final(v)@ == old(v)@.insert(i as int, x)
                &&& sorted_owners(final(v)@)
                &&& forall|y: u64| final(v)@.contains(y) <==> old(v)@.contains(y) || y == x
            },
        },
{
    match owner_search(v, x) {
        Ok(_) => None,
        Err(i) => {
            let ghost s0 = v@;
            v.insert(i, x);
            proof {
                let s1 = v@;
                assert forall|y: u64| s1.contains(y) implies s0.contains(y) || y == x by {
                    let k = choose|k: int| 0 <= k < s1.len() && s1[k] == y;
                    if k < i {
                        assert(s0[k] == y);
                    } else if k > i {
                        assert(s0[k - 1] == y);
                    }
                }
                assert forall|y: u64| s0.contains(y) || y == x implies s1.contains(y) by {
                    if s0.contains(y) {
                        let k = choose|k: int| 0 <= k < s0.len() && s0[k] == y;
                        if k < i {
                            assert(s1[k] == y);
                        } else {
                            assert(s1[k + 1] == y);
                        }
                    } else {
                        assert(s1[i as int] == y);
                    }
                }
            }
            Some(i)
        },
    }
}

/// Remove a buyer from a sorted queue; `None` reports that it was absent.
pub fn owner_queue_remove(v: &mut Vec<u64>, x: u64) -> (r: Option<usize>)
    requires
        sorted_owners(old(v)@),
    ensures
        match r {
            None => final(v)@ == old(v)@ && !old(v)@.contains(x),
            Some(i) => {
                &&& i < old(v)@.len()
                &&& old(v)@[i as int] == x
                &&& final(v)@ == old(v)@.remove(i as int)
                &&& sorted_owners(final(v)@)
                &&& forall|y: u64| final(v)@.contains(y) <==> old(v)@.contains(y) && y != x
            },
        },
{
    match owner_search(v, x) {
        Ok(i) => {
            let ghost s0 = v@;
            v.remove(i);
            proof {
                let s1 = v@;
                assert forall|a: int, b: int| 0 <= a < b < s1.len() implies s1[a] < s1[b] by {
                    assert(s1[a] == if a < i { s0[a] } else { s0[a + 1] });
                    assert(s1[b] == if b < i { s0[b] } else { s0[b + 1] });
                }
                assert forall|y: u64| s1.contains(y) implies s0.contains(y) && y != x by {
                    let k = choose|k: int| 0 <= k < s1.len() && s1[k] == y;
                    if k < i {
                        assert(s0[k] == y);
                    } else {
                        assert(s0[k + 1] == y);
                    }
                }
                assert forall|y: u64| s0.contains(y) && y != x implies s1.contains(y) by {
                    let k = choose|k: int| 0 <= k < s0.len() && s0[k] == y;
                    if k < i {
                        assert(s1[k] == y);
                    } else {
                        assert(s1[k - 1] == y);
                    }
                }
            }
            Some(i)
        },
        Err(_) => None,
    }
}

} // verus!
