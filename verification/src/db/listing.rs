//! Facts about lists kept in a strict order: such a list is fixed by the
//! items it holds, keeping some of its items keeps the order, and the first
//! items of the whole list are its most recent ones.

use vstd::prelude::*;
use vstd::set_lib::lemma_len_subset;

verus! {

/// Every item of `s` comes before every later one under `rel`.
pub open spec fn sorted_by<A>(s: Seq<A>, rel: spec_fn(A, A) -> bool) -> bool {
    forall|p: int, q: int| 0 <= p < q < s.len() ==> rel(s[p], s[q])
}

/// `rel` is a strict order: irreflexive, asymmetric and transitive.
pub open spec fn strict_order<A>(rel: spec_fn(A, A) -> bool) -> bool {
    &&& forall|x: A| !(#[trigger] rel(x, x))
    &&& forall|x: A, y: A| #[trigger] rel(x, y) ==> !rel(y, x)
    &&& forall|x: A, y: A, z: A| #[trigger] rel(x, y) && #[trigger] rel(y, z) ==> rel(x, z)
}

/// The items of `s` that satisfy `keep`, in order.
pub open spec fn kept<A>(s: Seq<A>, keep: spec_fn(A) -> bool) -> Seq<A>
    decreases s.len(),
{
    if s.len() == 0 {
        s
    } else {
        let r = kept(s.drop_last(), keep);
        if keep(s.last()) {
            r.push(s.last())
        } else {
            r
        }
    }
}

pub proof fn lemma_sorted_no_duplicates<A>(s: Seq<A>, rel: spec_fn(A, A) -> bool)
    requires
        sorted_by(s, rel),
        strict_order(rel),
    ensures
        s.no_duplicates(),
{
    assert forall|i: int, j: int| 0 <= i < s.len() && 0 <= j < s.len() && i != j implies s[i]
        != s[j] by {
        if i < j {
            assert(rel(s[i], s[j]));
        } else {
            assert(rel(s[j], s[i]));
        }
    }
}

/// Two lists in the same strict order that hold the same items are equal.
pub proof fn lemma_sorted_unique<A>(a: Seq<A>, b: Seq<A>, rel: spec_fn(A, A) -> bool)
    requires
        sorted_by(a, rel),
        sorted_by(b, rel),
        strict_order(rel),
        forall|x: A| a.contains(x) <==> b.contains(x),
    ensures
        a == b,
    decreases a.len() + b.len(),
{
    if a.len() == 0 {
        if b.len() > 0 {
            assert(b.contains(b[0]));
        }
        assert(a =~= b);
    } else if b.len() == 0 {
        assert(a.contains(a[0]));
    } else {
        assert(a.contains(a[0]));
        assert(b.contains(b[0]));
        if a[0] != b[0] {
            let j = choose|j: int| 0 <= j < b.len() && b[j] == a[0];
            let i = choose|i: int| 0 <= i < a.len() && a[i] == b[0];
            assert(rel(b[0], b[j]));
            assert(rel(a[0], a[i]));
        }
        let a1 = a.drop_first();
        let b1 = b.drop_first();
        assert forall|p: int, q: int| 0 <= p < q < a1.len() implies rel(a1[p], a1[q]) by {
            assert(a1[p] == a[p + 1] && a1[q] == a[q + 1]);
        }
        assert forall|p: int, q: int| 0 <= p < q < b1.len() implies rel(b1[p], b1[q]) by {
            assert(b1[p] == b[p + 1] && b1[q] == b[q + 1]);
        }
        assert forall|x: A| a1.contains(x) <==> b1.contains(x) by {
            if a1.contains(x) {
                let p = choose|p: int| 0 <= p < a1.len() && a1[p] == x;
                assert(a[p + 1] == x);
                assert(rel(a[0], x));
                assert(a.contains(x));
                let q = choose|q: int| 0 <= q < b.len() && b[q] == x;
                assert(q != 0);
                assert(b1[q - 1] == x);
            }
            if b1.contains(x) {
                let p = choose|p: int| 0 <= p < b1.len() && b1[p] == x;
                assert(b[p + 1] == x);
                assert(rel(b[0], x));
                assert(b.contains(x));
                let q = choose|q: int| 0 <= q < a.len() && a[q] == x;
                assert(q != 0);
                assert(a1[q - 1] == x);
            }
        }
        lemma_sorted_unique(a1, b1, rel);
        assert(a =~= seq![a[0]] + a1);
        assert(b =~= seq![b[0]] + b1);
    }
}

/// An item is kept exactly when it is in the list and satisfies `keep`.
pub proof fn lemma_kept_contains<A>(s: Seq<A>, keep: spec_fn(A) -> bool)
    ensures
        forall|x: A| #[trigger] kept(s, keep).contains(x) <==> s.contains(x) && keep(x),
        kept(s, keep).len() <= s.len(),
    decreases s.len(),
{
    if s.len() > 0 {
        let d = s.drop_last();
        lemma_kept_contains(d, keep);
        let r = kept(d, keep);
        assert forall|x: A| #[trigger] kept(s, keep).contains(x) <==> s.contains(x) && keep(x) by {
            if s.contains(x) {
                let i = choose|i: int| 0 <= i < s.len() && s[i] == x;
                if i < s.len() - 1 {
                    assert(d[i] == x);
                    assert(d.contains(x));
                }
            }
            if d.contains(x) {
                let i = choose|i: int| 0 <= i < d.len() && d[i] == x;
                assert(s[i] == x);
            }
            if keep(s.last()) {
                assert(r.push(s.last())[r.len() as int] == s.last());
                if r.contains(x) {
                    let i = choose|i: int| 0 <= i < r.len() && r[i] == x;
                    assert(r.push(s.last())[i] == x);
                }
                if r.push(s.last()).contains(x) {
                    let i = choose|i: int| 0 <= i < r.len() + 1 && r.push(s.last())[i] == x;
                    if i < r.len() {
                        assert(r[i] == x);
                    }
                }
            }
        }
    }
}

/// Keeping some items of an ordered list keeps the order.
pub proof fn lemma_kept_sorted<A>(s: Seq<A>, keep: spec_fn(A) -> bool, rel: spec_fn(A, A) -> bool)
    requires
        sorted_by(s, rel),
    ensures
        sorted_by(kept(s, keep), rel),
    decreases s.len(),
{
    if s.len() > 0 {
        let d = s.drop_last();
        assert forall|p: int, q: int| 0 <= p < q < d.len() implies rel(d[p], d[q]) by {
            assert(d[p] == s[p] && d[q] == s[q]);
        }
        lemma_kept_sorted(d, keep, rel);
        lemma_kept_contains(d, keep);
        let r = kept(d, keep);
        if keep(s.last()) {
            let k = r.push(s.last());
            assert forall|p: int, q: int| 0 <= p < q < k.len() implies rel(k[p], k[q]) by {
                if q == r.len() {
                    assert(r.contains(r[p]));
                    assert(d.contains(r[p]));
                    let i = choose|i: int| 0 <= i < d.len() && d[i] == r[p];
                    assert(s[i] == r[p]);
                    assert(k[q] == s[s.len() - 1]);
                } else {
                    assert(k[p] == r[p] && k[q] == r[q]);
                }
            }
        }
    }
}

/// Keeping some items of a list without repeats gives a list without
/// repeats.
pub proof fn lemma_kept_no_duplicates<A>(s: Seq<A>, keep: spec_fn(A) -> bool)
    requires
        s.no_duplicates(),
    ensures
        kept(s, keep).no_duplicates(),
    decreases s.len(),
{
    if s.len() > 0 {
        let d = s.drop_last();
        assert forall|i: int, j: int| 0 <= i < d.len() && 0 <= j < d.len() && i != j implies d[i]
            != d[j] by {
            assert(d[i] == s[i] && d[j] == s[j]);
        }
        lemma_kept_no_duplicates(d, keep);
        lemma_kept_contains(d, keep);
        let r = kept(d, keep);
        if keep(s.last()) {
            let k = r.push(s.last());
            assert forall|i: int, j: int| 0 <= i < k.len() && 0 <= j < k.len() && i != j implies k[i]
                != k[j] by {
                if i == r.len() || j == r.len() {
                    let o = if i == r.len() { j } else { i };
                    assert(k[o] == r[o]);
                    assert(r.contains(r[o]));
                    if d.contains(s.last()) {
                        let w = choose|w: int| 0 <= w < d.len() && d[w] == s.last();
                        assert(s[w] == s[s.len() - 1]);
                    }
                } else {
                    assert(k[i] == r[i] && k[j] == r[j]);
                }
            }
        }
    }
}

/// Two lists without repeats that hold the same items are equally long.
pub proof fn lemma_same_items_same_len<A>(a: Seq<A>, b: Seq<A>)
    requires
        a.no_duplicates(),
        b.no_duplicates(),
        forall|x: A| a.contains(x) <==> b.contains(x),
    ensures
        a.len() == b.len(),
{
    a.unique_seq_to_set();
    b.unique_seq_to_set();
    assert(a.to_set() =~= b.to_set());
}

/// The first items of an ordered list of a pool are the list's most recent
/// ones: a list `top` of `min(n, pool size)` items of the pool, in order,
/// each before every item of the pool it leaves out, is the head of
/// `full`, the whole pool in order.
pub proof fn lemma_head_is_most_recent<A>(
    full: Seq<A>,
    top: Seq<A>,
    pool: Seq<A>,
    rel: spec_fn(A, A) -> bool,
)
    requires
        strict_order(rel),
        sorted_by(full, rel),
        sorted_by(top, rel),
        pool.no_duplicates(),
        forall|x: A| full.contains(x) <==> pool.contains(x),
        top.len() <= pool.len(),
        forall|p: int| 0 <= p < top.len() ==> pool.contains(#[trigger] top[p]),
        forall|i: int, p: int|
            0 <= i < pool.len() && 0 <= p < top.len() && !top.contains(pool[i]) ==> rel(
                #[trigger] top[p],
                #[trigger] pool[i],
            ),
    ensures
        top == full.take(top.len() as int),
{
    lemma_sorted_no_duplicates(full, rel);
    lemma_sorted_no_duplicates(top, rel);
    lemma_same_items_same_len(full, pool);
    let m = top.len() as int;
    let f = full.take(m);
    assert forall|p: int, q: int| 0 <= p < q < f.len() implies rel(f[p], f[q]) by {
        assert(f[p] == full[p] && f[q] == full[q]);
    }
    lemma_sorted_no_duplicates(f, rel);
    // every item of the head is among the most recent
    assert forall|i: int| 0 <= i < m implies top.contains(#[trigger] full[i]) by {
        if !top.contains(full[i]) {
            // some item of `top` stands later in `full`
            assert forall|y: A| #[trigger] top.to_set().contains(y) implies f.to_set().remove(
                full[i],
            ).contains(y) by {
                let q = choose|q: int| 0 <= q < top.len() && top[q] == y;
                assert(top.contains(y));
                assert(pool.contains(y));
                assert(full.contains(y));
                let j = choose|j: int| 0 <= j < full.len() && full[j] == y;
                assert(pool.contains(full[i]));
                let pi = choose|pi: int| 0 <= pi < pool.len() && pool[pi] == full[i];
                assert(rel(top[q], pool[pi]));
                if j >= i {
                    if j > i {
                        assert(rel(full[i], full[j]));
                    }
                }
                assert(j < i);
                assert(f[j] == y);
                assert(f.contains(y));
            }
            f.unique_seq_to_set();
            top.unique_seq_to_set();
            assert(f[i] == full[i]);
            assert(f.to_set().contains(full[i]));
            lemma_len_subset(top.to_set(), f.to_set().remove(full[i]));
        }
    }
    assert forall|x: A| f.contains(x) <==> top.contains(x) by {
        if f.contains(x) {
            let i = choose|i: int| 0 <= i < f.len() && f[i] == x;
            assert(full[i] == x);
        }
        if top.contains(x) && !f.contains(x) {
            // then the head and `x` are `m + 1` distinct items of `top`
            assert forall|y: A| #[trigger] f.to_set().insert(x).contains(y) implies top.to_set().contains(
                y,
            ) by {
                if y != x {
                    let i = choose|i: int| 0 <= i < f.len() && f[i] == y;
                    assert(full[i] == y);
                }
            }
            f.unique_seq_to_set();
            top.unique_seq_to_set();
            lemma_len_subset(f.to_set().insert(x), top.to_set());
        }
    }
    lemma_sorted_unique(f, top, rel);
}

} // verus!
