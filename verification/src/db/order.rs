//! The orders in which the catalog lists its rows: most recently updated
//! first (ties broken by the larger id), and tracks of a release by
//! position.

use vstd::prelude::*;
use crate::db::store::{ReleaseRecord, ReleaseTrackLink};
use crate::models::Track;
use crate::text::{lemma_text_lt_order, text_eq, text_less, text_lt};

verus! {

/// Row `a` (id and update time) is listed before row `b`: it was updated
/// later, or at the same time with a larger id.
pub open spec fn newer(a_id: i64, a_stamp: Seq<char>, b_id: i64, b_stamp: Seq<char>) -> bool {
    text_lt(b_stamp, a_stamp) || (a_stamp == b_stamp && a_id > b_id)
}

/// `newer` is a strict total order on rows with distinct ids.
pub proof fn lemma_newer_order(
    a_id: i64,
    a: Seq<char>,
    b_id: i64,
    b: Seq<char>,
    c_id: i64,
    c: Seq<char>,
)
    ensures
        !newer(a_id, a, a_id, a),
        newer(a_id, a, b_id, b) ==> !newer(b_id, b, a_id, a),
        a_id != b_id ==> newer(a_id, a, b_id, b) || newer(b_id, b, a_id, a),
        newer(a_id, a, b_id, b) && newer(b_id, b, c_id, c) ==> newer(a_id, a, c_id, c),
{
    lemma_text_lt_order(a, b, c);
    lemma_text_lt_order(b, a, c);
    lemma_text_lt_order(c, b, a);
    lemma_text_lt_order(a, c, b);
    lemma_text_lt_order(b, c, a);
    lemma_text_lt_order(c, a, b);
}

/// Whether row `a` is listed before row `b`.
pub fn is_newer(a_id: i64, a_stamp: &str, b_id: i64, b_stamp: &str) -> (r: bool)
    ensures
        r == newer(a_id, a_stamp@, b_id, b_stamp@),
{
    text_less(b_stamp, a_stamp) || (text_eq(a_stamp, b_stamp) && a_id > b_id)
}

/// A row that carries an id and an update time.
pub trait Dated {
    spec fn key_id(&self) -> i64;

    spec fn key_stamp(&self) -> Seq<char>;

    fn dated_id(&self) -> (r: i64)
        ensures
            r == self.key_id(),
    ;

    fn dated_stamp(&self) -> (r: &str)
        ensures
            r@ == self.key_stamp(),
    ;
}

impl Dated for Track {
    open spec fn key_id(&self) -> i64 {
        self.id
    }

    open spec fn key_stamp(&self) -> Seq<char> {
        self.updated_at@
    }

    fn dated_id(&self) -> (r: i64) {
        self.id
    }

    fn dated_stamp(&self) -> (r: &str) {
        self.updated_at.as_str()
    }
}

impl Dated for ReleaseRecord {
    open spec fn key_id(&self) -> i64 {
        self.id
    }

    open spec fn key_stamp(&self) -> Seq<char> {
        self.updated_at@
    }

    fn dated_id(&self) -> (r: i64) {
        self.id
    }

    fn dated_stamp(&self) -> (r: &str) {
        self.updated_at.as_str()
    }
}

/// Item `i` of `items` is listed before item `j`.
pub open spec fn item_newer<T: Dated>(items: Seq<T>, i: usize, j: usize) -> bool {
    newer(items[i as int].key_id(), items[i as int].key_stamp(), items[j as int].key_id(), items[j as int].key_stamp())
}

/// The positions `candidates` of `items`, rearranged newest first.
pub fn order_by_recency<T: Dated>(items: &Vec<T>, candidates: &Vec<usize>) -> (order: Vec<usize>)
    requires
        forall|a: int| 0 <= a < candidates.len() ==> #[trigger] candidates[a] < items.len(),
        forall|a: int, b: int|
            0 <= a < b < candidates.len() ==> items@[candidates[a] as int].key_id()
                != items@[candidates[b] as int].key_id(),
    ensures
        order.len() == candidates.len(),
        forall|p: int| 0 <= p < order.len() ==> candidates@.contains(#[trigger] order[p]),
        forall|a: int| 0 <= a < candidates.len() ==> order@.contains(#[trigger] candidates[a]),
        forall|p: int, q: int| 0 <= p < q < order.len() ==> item_newer(items@, order[p], order[q]),
{
    let mut order: Vec<usize> = Vec::new();
    let nc = candidates.len();
    let mut a: usize = 0;
    while a < nc
        invariant
            nc == candidates.len(),
            a <= nc,
            order.len() == a,
            forall|q: int| 0 <= q < order.len() ==> #[trigger] order[q] < items.len(),
            forall|a: int| 0 <= a < candidates.len() ==> #[trigger] candidates[a] < items.len(),
            forall|x: int, y: int|
                0 <= x < y < candidates.len() ==> items@[candidates[x] as int].key_id()
                    != items@[candidates[y] as int].key_id(),
            forall|p: int| 0 <= p < order.len() ==> candidates@.take(a as int).contains(#[trigger] order[p]),
            forall|b: int| 0 <= b < a ==> order@.contains(#[trigger] candidates[b]),
            forall|p: int, q: int| 0 <= p < q < order.len() ==> item_newer(items@, order[p], order[q]),
        decreases nc - a,
    {
        let c = candidates[a];
        let cid = items[c].dated_id();
        let cstamp = items[c].dated_stamp();
        let len = order.len();
        let mut p: usize = 0;
        while p < len && is_newer(
            items[order[p]].dated_id(),
            items[order[p]].dated_stamp(),
            cid,
            cstamp,
        )
            invariant
                len == order.len(),
                p <= len,
                a < nc,
                nc == candidates.len(),
                forall|q: int| 0 <= q < order.len() ==> #[trigger] order[q] < items.len(),
                c < items.len(),
                cid == items@[c as int].key_id(),
                cstamp@ == items@[c as int].key_stamp(),
                forall|x: int| 0 <= x < order.len() ==> candidates@.take(a as int).contains(#[trigger] order[x]),
                forall|a: int| 0 <= a < candidates.len() ==> #[trigger] candidates[a] < items.len(),
                forall|q: int| 0 <= q < p ==> item_newer(items@, order[q], c),
            decreases len - p,
        {
            p = p + 1;
        }
        proof {
            // every row already placed at or after `p` comes after the new one
            assert forall|q: int| p <= q < len implies item_newer(items@, c, order[q]) by {
                assert(candidates@.take(a as int).contains(order[p as int]));
                assert(candidates@.take(a as int).contains(order[q]));
                let b = choose|b: int| 0 <= b < a && candidates@.take(a as int)[b] == order[p as int];
                assert(candidates[b] == order[p as int]);
                let x = items@[order[p as int] as int];
                let y = items@[order[q] as int];
                let z = items@[c as int];
                lemma_newer_order(z.key_id(), z.key_stamp(), x.key_id(), x.key_stamp(), y.key_id(), y.key_stamp());
                lemma_newer_order(x.key_id(), x.key_stamp(), z.key_id(), z.key_stamp(), y.key_id(), y.key_stamp());
                assert(x.key_id() != z.key_id());
                if q > p {
                    assert(item_newer(items@, order[p as int], order[q]));
                }
            }
        }
        let ghost before = order@;
        order.insert(p, c);
        proof {
            assert forall|q: int| 0 <= q < order.len() implies order[q] == (if q < p {
                before[q]
            } else if q == p {
                c
            } else {
                before[q - 1]
            }) by {}
            assert forall|x: int| 0 <= x < order.len() implies candidates@.take(a + 1).contains(#[trigger] order[x]) by {
                if x == p {
                    assert(candidates@.take(a + 1)[a as int] == c);
                } else {
                    let y = if x < p { x } else { x - 1 };
                    assert(before[y] == order[x]);
                    assert(candidates@.take(a as int).contains(before[y]));
                    let b = choose|b: int| 0 <= b < a && candidates@.take(a as int)[b] == before[y];
                    assert(candidates@.take(a + 1)[b] == order[x]);
                }
            }
            assert forall|b: int| 0 <= b < a + 1 implies order@.contains(#[trigger] candidates[b]) by {
                if b == a {
                    assert(order[p as int] == c);
                } else {
                    assert(before.contains(candidates[b]));
                    let x = choose|x: int| 0 <= x < before.len() && before[x] == candidates[b];
                    if x < p {
                        assert(order[x] == candidates[b]);
                    } else {
                        assert(order[x + 1] == candidates[b]);
                    }
                }
            }
        }
        a = a + 1;
    }
    proof {
        assert(candidates@.take(nc as int) =~= candidates@);
    }
    order
}

/// The positions `candidates` of `links`, rearranged by increasing track
/// position.
pub fn order_by_position(links: &Vec<ReleaseTrackLink>, candidates: &Vec<usize>) -> (order: Vec<usize>)
    requires
        forall|a: int| 0 <= a < candidates.len() ==> #[trigger] candidates[a] < links.len(),
        forall|a: int, b: int|
            0 <= a < b < candidates.len() ==> links@[candidates[a] as int].track_order
                != links@[candidates[b] as int].track_order,
    ensures
        order.len() == candidates.len(),
        forall|p: int| 0 <= p < order.len() ==> candidates@.contains(#[trigger] order[p]),
        forall|a: int| 0 <= a < candidates.len() ==> order@.contains(#[trigger] candidates[a]),
        forall|p: int, q: int|
            0 <= p < q < order.len() ==> links@[order[p] as int].track_order
                < links@[order[q] as int].track_order,
{
    let mut order: Vec<usize> = Vec::new();
    let nc = candidates.len();
    let mut a: usize = 0;
    while a < nc
        invariant
            nc == candidates.len(),
            a <= nc,
            order.len() == a,
            forall|q: int| 0 <= q < order.len() ==> #[trigger] order[q] < links.len(),
            forall|a: int| 0 <= a < candidates.len() ==> #[trigger] candidates[a] < links.len(),
            forall|x: int, y: int|
                0 <= x < y < candidates.len() ==> links@[candidates[x] as int].track_order
                    != links@[candidates[y] as int].track_order,
            forall|p: int| 0 <= p < order.len() ==> candidates@.take(a as int).contains(#[trigger] order[p]),
            forall|b: int| 0 <= b < a ==> order@.contains(#[trigger] candidates[b]),
            forall|p: int, q: int|
                0 <= p < q < order.len() ==> links@[order[p] as int].track_order
                    < links@[order[q] as int].track_order,
        decreases nc - a,
    {
        let c = candidates[a];
        let key = links[c].track_order;
        let len = order.len();
        let mut p: usize = 0;
        while p < len && links[order[p]].track_order < key
            invariant
                len == order.len(),
                p <= len,
                a < nc,
                nc == candidates.len(),
                c < links.len(),
                key == links@[c as int].track_order,
                forall|q: int| 0 <= q < order.len() ==> #[trigger] order[q] < links.len(),
                forall|q: int| 0 <= q < p ==> links@[#[trigger] order[q] as int].track_order < key,
            decreases len - p,
        {
            p = p + 1;
        }
        proof {
            assert forall|q: int| p <= q < len implies key < links@[#[trigger] order[q] as int].track_order by {
                assert(candidates@.take(a as int).contains(order[p as int]));
                let b = choose|b: int| 0 <= b < a && candidates@.take(a as int)[b] == order[p as int];
                assert(candidates[b] == order[p as int]);
                assert(links@[order[p as int] as int].track_order != key);
                if q > p {
                    assert(links@[order[p as int] as int].track_order < links@[order[q] as int].track_order);
                }
            }
        }
        let ghost before = order@;
        order.insert(p, c);
        proof {
            assert forall|q: int| 0 <= q < order.len() implies order[q] == (if q < p {
                before[q]
            } else if q == p {
                c
            } else {
                before[q - 1]
            }) by {}
            assert forall|x: int| 0 <= x < order.len() implies candidates@.take(a + 1).contains(#[trigger] order[x]) by {
                if x == p {
                    assert(candidates@.take(a + 1)[a as int] == c);
                } else {
                    let y = if x < p { x } else { x - 1 };
                    assert(before[y] == order[x]);
                    assert(candidates@.take(a as int).contains(before[y]));
                    let b = choose|b: int| 0 <= b < a && candidates@.take(a as int)[b] == before[y];
                    assert(candidates@.take(a + 1)[b] == order[x]);
                }
            }
            assert forall|b: int| 0 <= b < a + 1 implies order@.contains(#[trigger] candidates[b]) by {
                if b == a {
                    assert(order[p as int] == c);
                } else {
                    assert(before.contains(candidates[b]));
                    let x = choose|x: int| 0 <= x < before.len() && before[x] == candidates[b];
                    if x < p {
                        assert(order[x] == candidates[b]);
                    } else {
                        assert(order[x + 1] == candidates[b]);
                    }
                }
            }
        }
        a = a + 1;
    }
    proof {
        assert(candidates@.take(nc as int) =~= candidates@);
    }
    order
}

} // verus!
