//! Stable ordering of transactions by creation time.
//!
//! A stable sort is pinned down by two facts: the output is in time order,
//! and for every timestamp the transactions created at that second appear
//! in the output exactly as they appear in the input.

use vstd::prelude::*;

use crate::creem::Transaction;

verus! {

/// The sort key: creation time, negated for newest-first order.
pub open spec fn time_key(t: Transaction, newest_first: bool) -> int {
    if newest_first {
        -(t.created_at as int)
    } else {
        t.created_at as int
    }
}

/// `s` is ordered by creation time (oldest first, or newest first).
pub open spec fn in_time_order(s: Seq<Transaction>, newest_first: bool) -> bool {
    forall|i: int, j: int|
        0 <= i < j < s.len() ==> time_key(#[trigger] s[i], newest_first) <= time_key(
            #[trigger] s[j],
            newest_first,
        )
}

/// Selects the transactions created at second `k`.
pub open spec fn created_at_second(k: i64) -> spec_fn(Transaction) -> bool {
    |t: Transaction| t.created_at == k
}

/// `output` is `input` stably sorted by creation time.
pub open spec fn stable_time_order(
    input: Seq<Transaction>,
    output: Seq<Transaction>,
    newest_first: bool,
) -> bool {
    &&& in_time_order(output, newest_first)
    &&& forall|k: i64| #[trigger]
        output.filter(created_at_second(k)) == input.filter(created_at_second(k))
}

proof fn lemma_filter_none(s: Seq<Transaction>, k: i64)
    requires
        forall|j: int| 0 <= j < s.len() ==> (#[trigger] s[j]).created_at != k,
    ensures
        s.filter(created_at_second(k)) == Seq::<Transaction>::empty(),
    decreases s.len(),
{
    reveal(Seq::filter);
    if s.len() > 0 {
        lemma_filter_none(s.drop_last(), k);
    }
}

/// Inserting `x` right after every element whose key is not above its own
/// keeps the order, and adds `x` at the end of its own timestamp class.
proof fn lemma_insert_keeps_order(r: Seq<Transaction>, p: int, x: Transaction, newest_first: bool)
    requires
        0 <= p <= r.len(),
        in_time_order(r, newest_first),
        forall|j: int| 0 <= j < p ==> time_key(#[trigger] r[j], newest_first) <= time_key(x, newest_first),
        forall|j: int| p <= j < r.len() ==> time_key(#[trigger] r[j], newest_first) > time_key(x, newest_first),
    ensures
        in_time_order(r.insert(p, x), newest_first),
        forall|k: i64| #[trigger]
            r.insert(p, x).filter(created_at_second(k)) == r.push(x).filter(created_at_second(k)),
{
    let out = r.insert(p, x);
    assert(in_time_order(out, newest_first)) by {
        assert forall|i: int, j: int| 0 <= i < j < out.len() implies time_key(
            #[trigger] out[i],
            newest_first,
        ) <= time_key(#[trigger] out[j], newest_first) by {
            if i < p && j < p {
            } else if i < p && j == p {
            } else if i < p {
                assert(out[j] == r[j - 1]);
            } else if i == p {
                assert(out[j] == r[j - 1]);
            } else {
                assert(out[i] == r[i - 1]);
                assert(out[j] == r[j - 1]);
            }
        }
    }
    assert forall|k: i64| #[trigger]
        r.insert(p, x).filter(created_at_second(k)) == r.push(x).filter(created_at_second(k)) by {
        let pre = r.take(p);
        let post = r.skip(p);
        assert(r =~= pre + post);
        assert(out =~= pre.push(x) + post);
        Seq::filter_distributes_over_add(pre.push(x), post, created_at_second(k));
        Seq::filter_distributes_over_add(pre, post, created_at_second(k));
        pre.lemma_filter_push(x, created_at_second(k));
        r.lemma_filter_push(x, created_at_second(k));
        if x.created_at == k {
            assert forall|j: int| 0 <= j < post.len() implies (#[trigger] post[j]).created_at != k by {
                assert(post[j] == r[p + j]);
            }
            lemma_filter_none(post, k);
            assert(post.filter(created_at_second(k)) == Seq::<Transaction>::empty());
            assert(out.filter(created_at_second(k)) =~= r.push(x).filter(created_at_second(k)));
        } else {
            assert(out.filter(created_at_second(k)) =~= r.push(x).filter(created_at_second(k)));
        }
    }
}

/// Only one sequence is a stable time ordering of a given input.
pub proof fn lemma_stable_time_order_unique(
    input: Seq<Transaction>,
    x: Seq<Transaction>,
    y: Seq<Transaction>,
    newest_first: bool,
)
    requires
        stable_time_order(input, x, newest_first),
        stable_time_order(input, y, newest_first),
    ensures
        x == y,
    decreases x.len(),
{
    if x.len() == 0 {
        if y.len() > 0 {
            let k = y[0].created_at;
            y.lemma_filter_contains(created_at_second(k), 0);
            assert(x.filter(created_at_second(k)) == input.filter(created_at_second(k)));
            reveal(Seq::filter);
            assert(x.filter(created_at_second(k)).len() == 0);
        }
        assert(x =~= y);
    } else {
        let tx = x.last();
        let kx = tx.created_at;
        let xs = x.drop_last();
        assert(x =~= xs.push(tx));
        xs.lemma_filter_push(tx, created_at_second(kx));
        assert(x.filter(created_at_second(kx)).contains(tx));
        assert(y.filter(created_at_second(kx)).contains(tx));
        y.lemma_filter_contains_rev(created_at_second(kx), tx);
        let iy = choose|i: int| 0 <= i < y.len() && y[i] == tx;
        assert(y.len() > 0);
        let ty = y.last();
        let ky = ty.created_at;
        let ys = y.drop_last();
        assert(y =~= ys.push(ty));
        ys.lemma_filter_push(ty, created_at_second(ky));
        assert(y.filter(created_at_second(ky)).contains(ty));
        assert(x.filter(created_at_second(ky)).contains(ty));
        x.lemma_filter_contains_rev(created_at_second(ky), ty);
        let ix = choose|i: int| 0 <= i < x.len() && x[i] == ty;
        if iy < y.len() - 1 {
            assert(time_key(y[iy], newest_first) <= time_key(y[y.len() - 1], newest_first));
        }
        if ix < x.len() - 1 {
            assert(time_key(x[ix], newest_first) <= time_key(x[x.len() - 1], newest_first));
        }
        assert(kx == ky);
        assert(x.filter(created_at_second(kx)) == y.filter(created_at_second(kx)));
        assert(tx == x.filter(created_at_second(kx)).last());
        assert(ty == y.filter(created_at_second(kx)).last());
        assert forall|k: i64| #[trigger]
            ys.filter(created_at_second(k)) == xs.filter(created_at_second(k)) by {
            xs.lemma_filter_push(tx, created_at_second(k));
            ys.lemma_filter_push(ty, created_at_second(k));
            assert(x.filter(created_at_second(k)) == y.filter(created_at_second(k)));
            if k == kx {
                assert(xs.filter(created_at_second(k)) =~= x.filter(created_at_second(k)).drop_last());
                assert(ys.filter(created_at_second(k)) =~= y.filter(created_at_second(k)).drop_last());
            }
        }
        assert(in_time_order(xs, newest_first)) by {
            assert forall|i: int, j: int| 0 <= i < j < xs.len() implies time_key(
                #[trigger] xs[i],
                newest_first,
            ) <= time_key(#[trigger] xs[j], newest_first) by {
                assert(xs[i] == x[i] && xs[j] == x[j]);
            }
        }
        assert(in_time_order(ys, newest_first)) by {
            assert forall|i: int, j: int| 0 <= i < j < ys.len() implies time_key(
                #[trigger] ys[i],
                newest_first,
            ) <= time_key(#[trigger] ys[j], newest_first) by {
                assert(ys[i] == y[i] && ys[j] == y[j]);
            }
        }
        lemma_stable_time_order_unique(xs, xs, ys, newest_first);
    }
}

proof fn lemma_last_at_second(b: Seq<Transaction>, k: i64, i0: int) -> (p: int)
    requires
        0 <= i0 < b.len(),
        b[i0].created_at == k,
    ensures
        i0 <= p < b.len(),
        b[p].created_at == k,
        forall|q: int| p < q < b.len() ==> (#[trigger] b[q]).created_at != k,
    decreases b.len() - i0,
{
    if exists|q: int| i0 < q < b.len() && (#[trigger] b[q]).created_at == k {
        let q = choose|q: int| i0 < q < b.len() && (#[trigger] b[q]).created_at == k;
        lemma_last_at_second(b, k, q)
    } else {
        i0
    }
}

/// Two sequences that agree on every timestamp class have the same length.
proof fn lemma_same_classes_same_length(a: Seq<Transaction>, b: Seq<Transaction>)
    requires
        forall|k: i64| #[trigger] b.filter(created_at_second(k)) == a.filter(created_at_second(k)),
    ensures
        a.len() == b.len(),
    decreases a.len(),
{
    if a.len() == 0 {
        if b.len() > 0 {
            let k = b[0].created_at;
            b.lemma_filter_contains(created_at_second(k), 0);
            reveal(Seq::filter);
            assert(a.filter(created_at_second(k)).len() == 0);
        }
    } else {
        let x = a.last();
        let k0 = x.created_at;
        let a1 = a.drop_last();
        assert(a =~= a1.push(x));
        a1.lemma_filter_push(x, created_at_second(k0));
        let class = b.filter(created_at_second(k0));
        assert(class.len() > 0 && class.last() == x);
        assert(class.contains(x));
        b.lemma_filter_contains_rev(created_at_second(k0), x);
        let i0 = choose|i: int| 0 <= i < b.len() && b[i] == x;
        let p = lemma_last_at_second(b, k0, i0);
        let pre = b.take(p);
        let post = b.skip(p + 1);
        let b1 = pre + post;
        assert(b =~= pre.push(b[p]) + post);
        assert forall|j: int| 0 <= j < post.len() implies (#[trigger] post[j]).created_at != k0 by {
            assert(post[j] == b[p + 1 + j]);
        }
        assert forall|k: i64| #[trigger] b1.filter(created_at_second(k)) == a1.filter(
            created_at_second(k),
        ) by {
            Seq::filter_distributes_over_add(pre.push(b[p]), post, created_at_second(k));
            Seq::filter_distributes_over_add(pre, post, created_at_second(k));
            pre.lemma_filter_push(b[p], created_at_second(k));
            a1.lemma_filter_push(x, created_at_second(k));
            if k == k0 {
                lemma_filter_none(post, k0);
                assert(b.filter(created_at_second(k)) == pre.filter(created_at_second(k)).push(b[p]));
                assert(b1.filter(created_at_second(k)) =~= b.filter(created_at_second(k)).drop_last());
                assert(a1.filter(created_at_second(k)) =~= a.filter(created_at_second(k)).drop_last());
            } else {
                assert(b1.filter(created_at_second(k)) =~= b.filter(created_at_second(k)));
            }
        }
        lemma_same_classes_same_length(a1, b1);
    }
}

/// A stable time ordering holds exactly the transactions of its input, as
/// many of them.
pub proof fn lemma_stable_time_order_same_elements(
    a: Seq<Transaction>,
    b: Seq<Transaction>,
    newest_first: bool,
)
    requires
        stable_time_order(a, b, newest_first),
    ensures
        a.len() == b.len(),
        forall|t: Transaction| a.contains(t) <==> b.contains(t),
{
    lemma_same_classes_same_length(a, b);
    assert forall|t: Transaction| a.contains(t) implies b.contains(t) by {
        let i = choose|i: int| 0 <= i < a.len() && a[i] == t;
        a.lemma_filter_contains(created_at_second(t.created_at), i);
        assert(b.filter(created_at_second(t.created_at)).contains(t));
        b.lemma_filter_contains_rev(created_at_second(t.created_at), t);
    }
    assert forall|t: Transaction| b.contains(t) implies a.contains(t) by {
        let i = choose|i: int| 0 <= i < b.len() && b[i] == t;
        b.lemma_filter_contains(created_at_second(t.created_at), i);
        assert(a.filter(created_at_second(t.created_at)).contains(t));
        a.lemma_filter_contains_rev(created_at_second(t.created_at), t);
    }
}

/// Where `x` goes in `r`: after every element whose key is not above its own.
fn insertion_point(r: &Vec<Transaction>, x: &Transaction, newest_first: bool) -> (p: usize)
    requires
        in_time_order(r@, newest_first),
    ensures
        p <= r.len(),
        forall|j: int| 0 <= j < p ==> time_key(#[trigger] r@[j], newest_first) <= time_key(*x, newest_first),
        forall|j: int| p <= j < r.len() ==> time_key(#[trigger] r@[j], newest_first) > time_key(*x, newest_first),
{
    let mut p: usize = 0;
    while p < r.len()
        invariant
            p <= r.len(),
            in_time_order(r@, newest_first),
            forall|j: int| 0 <= j < p ==> time_key(#[trigger] r@[j], newest_first) <= time_key(*x, newest_first),
        decreases r.len() - p,
    {
        let later = if newest_first {
            r[p].created_at < x.created_at
        } else {
            r[p].created_at > x.created_at
        };
        if later {
            assert forall|j: int| p <= j < r.len() implies time_key(#[trigger] r@[j], newest_first)
                > time_key(*x, newest_first) by {
                assert(time_key(r@[p as int], newest_first) <= time_key(r@[j], newest_first) || j == p);
            }
            return p;
        }
        p = p + 1;
    }
    p
}

/// Stably sorts transactions by creation time, oldest first or newest
/// first; transactions created in the same second keep their input order.
pub fn sort_by_time(input: &Vec<Transaction>, newest_first: bool) -> (r: Vec<Transaction>)
    ensures
        stable_time_order(input@, r@, newest_first),
        r@.len() == input@.len(),
        forall|t: Transaction| r@.contains(t) <==> input@.contains(t),
{
    let mut r: Vec<Transaction> = Vec::new();
    let n = input.len();
    let mut i: usize = 0;
    while i < n
        invariant
            n == input.len(),
            i <= n,
            in_time_order(r@, newest_first),
            forall|k: i64| #[trigger]
                r@.filter(created_at_second(k)) == input@.take(i as int).filter(
                    created_at_second(k),
                ),
        decreases n - i,
    {
        let x = input[i].clone();
        let p = insertion_point(&r, &x, newest_first);
        proof {
            lemma_insert_keeps_order(r@, p as int, x, newest_first);
            assert(input@.take(i + 1) =~= input@.take(i as int).push(x));
            assert forall|k: i64| #[trigger]
                r@.insert(p as int, x).filter(created_at_second(k)) == input@.take(i + 1).filter(
                    created_at_second(k),
                ) by {
                r@.lemma_filter_push(x, created_at_second(k));
                input@.take(i as int).lemma_filter_push(x, created_at_second(k));
            }
        }
        r.insert(p, x);
        i = i + 1;
    }
    assert(input@.take(n as int) =~= input@);
    proof {
        lemma_stable_time_order_same_elements(input@, r@, newest_first);
    }
    r
}

} // verus!
