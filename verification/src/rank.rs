//! The order in which scored results are reported. Each result carries an
//! integer key that orders as its score does; the best results come first,
//! ties keep the order in which the results came, and only the first few
//! are kept.

use vstd::prelude::*;

verus! {

/// Whether result `a` is reported before result `b`: the higher key first
/// (the lower one when `ascending`), and between equal keys the one that
/// came first.
pub open spec fn ranks_before(keys: Seq<u32>, ascending: bool, a: int, b: int) -> bool {
    if keys[a] == keys[b] {
        a < b
    } else if ascending {
        keys[a] < keys[b]
    } else {
        keys[a] > keys[b]
    }
}

/// The smaller of two numbers.
pub open spec fn min_nat(a: nat, b: nat) -> nat {
    if a < b {
        a
    } else {
        b
    }
}

/// `order` lists the best `min(limit, m)` of the results `0..m`, best
/// first: it is in report order, and a result reported before one it
/// holds is held too.
pub open spec fn ranks_first(keys: Seq<u32>, ascending: bool, m: nat, limit: nat, order: Seq<usize>) -> bool {
    &&& order.len() == min_nat(limit, m)
    &&& forall|q: int| 0 <= q < order.len() ==> order[q] < m
    &&& forall|q1: int, q2: int|
        0 <= q1 < q2 < order.len() ==> #[trigger] ranks_before(
            keys,
            ascending,
            order[q1] as int,
            order[q2] as int,
        )
    &&& forall|k: int, q: int|
        0 <= k < m && 0 <= q < order.len() && #[trigger] ranks_before(
            keys,
            ascending,
            k,
            order[q] as int,
        ) ==> order.contains(k as usize)
}

/// The report order of all `keys.len()` results, cut to `limit`.
pub open spec fn is_ranking(keys: Seq<u32>, ascending: bool, limit: nat, order: Seq<usize>) -> bool {
    ranks_first(keys, ascending, keys.len(), limit, order)
}

proof fn lemma_ranks_before_total(keys: Seq<u32>, ascending: bool, a: int, b: int, c: int)
    ensures
        a != b ==> ranks_before(keys, ascending, a, b) || ranks_before(keys, ascending, b, a),
        !(ranks_before(keys, ascending, a, b) && ranks_before(keys, ascending, b, a)),
        !ranks_before(keys, ascending, a, a),
        ranks_before(keys, ascending, a, b) && ranks_before(keys, ascending, b, c) ==> ranks_before(
            keys,
            ascending,
            a,
            c,
        ),
{
}

/// Where `i` goes in `order`: after every held result that ranks before
/// it, before the others; then cut to `limit`.
spec fn inserted(order: Seq<usize>, p: int, i: usize, limit: nat) -> Seq<usize> {
    let s = order.take(p) + seq![i] + order.skip(p);
    if s.len() <= limit {
        s
    } else {
        s.take(limit as int)
    }
}

proof fn lemma_inserted_ranks_first(
    keys: Seq<u32>,
    ascending: bool,
    limit: nat,
    order: Seq<usize>,
    i: usize,
    p: int,
)
    requires
        i < keys.len(),
        ranks_first(keys, ascending, i as nat, limit, order),
        i <= limit ==> forall|k: int| 0 <= k < i ==> #[trigger] order.contains(k as usize),
        0 <= p <= order.len(),
        p < limit,
        forall|q: int| 0 <= q < p ==> ranks_before(keys, ascending, order[q] as int, i as int),
        p < order.len() ==> ranks_before(keys, ascending, i as int, order[p] as int),
    ensures
        ranks_first(keys, ascending, (i + 1) as nat, limit, inserted(order, p, i, limit)),
        i + 1 <= limit ==> forall|k: int|
            0 <= k < i + 1 ==> #[trigger] inserted(order, p, i, limit).contains(k as usize),
{
    let s = order.take(p) + seq![i] + order.skip(p);
    let r = inserted(order, p, i, limit);
    let n = order.len();
    assert(s.len() == n + 1);
    assert forall|q: int| 0 <= q < s.len() implies s[q] == (if q < p {
        order[q]
    } else if q == p {
        i
    } else {
        order[q - 1]
    }) by {}
    assert forall|q: int| 0 <= q < r.len() implies r[q] == s[q] by {}
    // Every result held after `p` ranks after `i`.
    assert forall|q: int| p <= q < n implies ranks_before(keys, ascending, i as int, order[q] as int) by {
        if q > p {
            assert(ranks_before(keys, ascending, order[p] as int, order[q] as int));
            lemma_ranks_before_total(keys, ascending, i as int, order[p] as int, order[q] as int);
        }
    }
    // `s` is in report order.
    assert forall|a: int, b: int| 0 <= a < b < s.len() implies ranks_before(
        keys,
        ascending,
        s[a] as int,
        s[b] as int,
    ) by {
        if b < p {
            assert(ranks_before(keys, ascending, order[a] as int, order[b] as int));
        } else if b == p {
        } else if a < p {
            assert(ranks_before(keys, ascending, order[a] as int, i as int));
            lemma_ranks_before_total(keys, ascending, order[a] as int, i as int, order[b - 1] as int);
        } else if a == p {
        } else {
            assert(ranks_before(keys, ascending, order[a - 1] as int, order[b - 1] as int));
        }
    }
    assert forall|q: int| 0 <= q < r.len() implies r[q] < i + 1 by {}
    assert forall|q1: int, q2: int| 0 <= q1 < q2 < r.len() implies #[trigger] ranks_before(
        keys,
        ascending,
        r[q1] as int,
        r[q2] as int,
    ) by {}
    // A result held in `order` at `j` is held in `r` unless it was cut.
    assert forall|j: int| 0 <= j < n && (if j < p { j } else { j + 1 }) < r.len() implies r.contains(
        order[j],
    ) by {
        if j < p {
            assert(r[j] == order[j]);
        } else {
            assert(r[j + 1] == order[j]);
        }
    }
    assert(r.contains(i)) by {
        assert(r[p] == i);
    }
    assert forall|k: int, q: int|
        0 <= k < i + 1 && 0 <= q < r.len() && #[trigger] ranks_before(keys, ascending, k, r[q] as int)
            implies r.contains(k as usize) by {
        if k != i {
            // `k` ranks before a held result, so it was held before.
            if q == p {
                if p < n {
                    lemma_ranks_before_total(keys, ascending, k, i as int, order[p] as int);
                    assert(ranks_before(keys, ascending, k, order[p] as int));
                } else {
                    assert(n == i);
                }
            } else {
                let qo: int = if q < p { q } else { q - 1 };
                assert(r[q] == order[qo]);
                assert(ranks_before(keys, ascending, k, order[qo] as int));
            }
            assert(order.contains(k as usize));
            let j = choose|j: int| 0 <= j < n && order[j] == k as usize;
            let rq: int = if j < p { j } else { j + 1 };
            if rq >= r.len() {
                // Only the last result of `s` can be cut, and it ranks after
                // every result that stays, `r[q]` among them.
                assert(s[rq] == k as usize);
                assert(q < rq);
                assert(ranks_before(keys, ascending, s[q] as int, s[rq] as int));
                lemma_ranks_before_total(keys, ascending, k, s[q] as int, 0);
            }
        }
    }
    if i + 1 <= limit {
        assert(r == s);
        assert forall|k: int| 0 <= k < i + 1 implies #[trigger] r.contains(k as usize) by {
            if k < i {
                assert(order.contains(k as usize));
                let j = choose|j: int| 0 <= j < n && order[j] == k as usize;
            }
        }
    }
}

/// Whether result `a` is reported before result `b`.
fn reported_before(keys: &Vec<u32>, ascending: bool, a: usize, b: usize) -> (r: bool)
    requires
        a < keys.len(),
        b < keys.len(),
    ensures
        r == ranks_before(keys@, ascending, a as int, b as int),
{
    if keys[a] == keys[b] {
        a < b
    } else if ascending {
        keys[a] < keys[b]
    } else {
        keys[a] > keys[b]
    }
}

fn insert_ranked(keys: &Vec<u32>, ascending: bool, limit: usize, order: Vec<usize>, i: usize) -> (r: Vec<usize>)
    requires
        i < keys.len(),
        ranks_first(keys@, ascending, i as nat, limit as nat, order@),
        i <= limit ==> forall|k: int| 0 <= k < i ==> #[trigger] order@.contains(k as usize),
    ensures
        ranks_first(keys@, ascending, (i + 1) as nat, limit as nat, r@),
        i + 1 <= limit ==> forall|k: int| 0 <= k < i + 1 ==> #[trigger] r@.contains(k as usize),
{
    let n = order.len();
    let mut p: usize = 0;
    while p < n && !reported_before(keys, ascending, i, order[p])
        invariant
            p <= n,
            n == order.len(),
            i < keys.len(),
            forall|q: int| 0 <= q < order.len() ==> order@[q] < i,
            forall|q: int| 0 <= q < p ==> !ranks_before(keys@, ascending, i as int, order@[q] as int),
        decreases n - p,
    {
        p = p + 1;
    }
    assert forall|q: int| 0 <= q < p implies ranks_before(keys@, ascending, order@[q] as int, i as int) by {
        lemma_ranks_before_total(keys@, ascending, i as int, order@[q] as int, 0);
    }
    if p >= limit {
        // `i` ranks after all `limit` held results: nothing changes.
        assert(p == n);
        assert forall|k: int, q: int|
            0 <= k < i + 1 && 0 <= q < order@.len() && #[trigger] ranks_before(
                keys@,
                ascending,
                k,
                order@[q] as int,
            ) implies order@.contains(k as usize) by {
            if k == i {
                lemma_ranks_before_total(keys@, ascending, i as int, order@[q] as int, 0);
            }
        }
        return order;
    }
    let ghost s = order@.take(p as int) + seq![i] + order@.skip(p as int);
    let mut r: Vec<usize> = Vec::new();
    let mut q: usize = 0;
    while q < p
        invariant
            q <= p <= n,
            n == order.len(),
            r@ == order@.take(q as int),
        decreases p - q,
    {
        r.push(order[q]);
        q = q + 1;
        assert(r@ =~= order@.take(q as int));
    }
    r.push(i);
    assert(r@ =~= s.take(p + 1));
    let mut q: usize = p;
    while q < n && r.len() < limit
        invariant
            p <= q <= n,
            n == order.len(),
            s == order@.take(p as int) + seq![i] + order@.skip(p as int),
            r@ == s.take(q + 1),
            q + 1 <= limit,
            s.len() == n + 1,
        decreases n - q,
    {
        r.push(order[q]);
        q = q + 1;
        assert(r@ =~= s.take(q + 1));
    }
    proof {
        lemma_inserted_ranks_first(keys@, ascending, limit as nat, order@, i, p as int);
        if q == n {
            assert(r@ =~= s);
        }
        assert(r@ =~= inserted(order@, p as int, i, limit as nat));
    }
    r
}

/// The results to report, best first: the first `limit` of `0..keys.len()`
/// in report order (highest key first, or lowest when `ascending`; ties in
/// the order the results came).
pub fn rank_order(keys: &Vec<u32>, ascending: bool, limit: usize) -> (order: Vec<usize>)
    ensures
        is_ranking(keys@, ascending, limit as nat, order@),
{
    let mut order: Vec<usize> = Vec::new();
    let mut i: usize = 0;
    while i < keys.len()
        invariant
            i <= keys.len(),
            ranks_first(keys@, ascending, i as nat, limit as nat, order@),
            i <= limit ==> forall|k: int| 0 <= k < i ==> #[trigger] order@.contains(k as usize),
        decreases keys.len() - i,
    {
        order = insert_ranked(keys, ascending, limit, order, i);
        i = i + 1;
    }
    order
}

proof fn lemma_same_up_to(
    keys: Seq<u32>,
    ascending: bool,
    l1: nat,
    l2: nat,
    o1: Seq<usize>,
    o2: Seq<usize>,
    q: int,
)
    requires
        l1 <= l2,
        is_ranking(keys, ascending, l1, o1),
        is_ranking(keys, ascending, l2, o2),
        0 <= q < o1.len(),
    ensures
        forall|j: int| 0 <= j <= q ==> o1[j] == o2[j],
    decreases q,
{
    if q > 0 {
        lemma_same_up_to(keys, ascending, l1, l2, o1, o2, q - 1);
    }
    let a = o1[q];
    let b = o2[q];
    if a != b {
        // `a` ranks before `b`: `b` is held in `o1` after `q`, or not at all.
        if o1.contains(b) {
            let j = choose|j: int| 0 <= j < o1.len() && o1[j] == b;
            if j < q {
                assert(o2[j] == b);
                assert(ranks_before(keys, ascending, o2[j] as int, o2[q] as int));
            }
            assert(ranks_before(keys, ascending, o1[q] as int, o1[j] as int));
        } else {
            lemma_ranks_before_total(keys, ascending, a as int, b as int, 0);
            if ranks_before(keys, ascending, b as int, a as int) {
                assert(ranks_before(keys, ascending, b as int, o1[q] as int));
            }
        }
        assert(ranks_before(keys, ascending, a as int, b as int));
        // so `a` is held in `o2`, after `q`: `b` ranks before `a`.
        assert(ranks_before(keys, ascending, a as int, o2[q] as int));
        assert(o2.contains(a));
        let j = choose|j: int| 0 <= j < o2.len() && o2[j] == a;
        if j < q {
            assert(o1[j] == a);
            assert(ranks_before(keys, ascending, o1[j] as int, o1[q] as int));
        }
        assert(ranks_before(keys, ascending, o2[q] as int, o2[j] as int));
        lemma_ranks_before_total(keys, ascending, a as int, b as int, 0);
    }
}

/// The report order is fixed by the keys: two rankings of the same results
/// cut to the same limit are the same, and a ranking cut to a smaller limit
/// is the start of one cut to a larger limit (so cutting a ranking again
/// keeps its best results).
pub proof fn lemma_ranking_prefix(
    keys: Seq<u32>,
    ascending: bool,
    l1: nat,
    l2: nat,
    o1: Seq<usize>,
    o2: Seq<usize>,
)
    requires
        l1 <= l2,
        is_ranking(keys, ascending, l1, o1),
        is_ranking(keys, ascending, l2, o2),
    ensures
        o1 == o2.take(o1.len() as int),
        l1 == l2 ==> o1 == o2,
{
    if o1.len() > 0 {
        lemma_same_up_to(keys, ascending, l1, l2, o1, o2, o1.len() - 1);
    }
    assert(o1 =~= o2.take(o1.len() as int));
    if l1 == l2 {
        assert(o2 =~= o2.take(o1.len() as int));
    }
}

/// The first result reported ranks before every other result: with the
/// highest key (the lowest when `ascending`), and the first to come among
/// those with that key.
pub proof fn lemma_ranking_first_is_best(keys: Seq<u32>, ascending: bool, limit: nat, order: Seq<usize>, k: usize)
    requires
        is_ranking(keys, ascending, limit, order),
        order.len() > 0,
        0 <= k < keys.len(),
        k != order[0],
    ensures
        ranks_before(keys, ascending, order[0] as int, k as int),
{
    lemma_ranks_before_total(keys, ascending, order[0] as int, k as int, 0);
    if ranks_before(keys, ascending, k as int, order[0] as int) {
        assert(order.contains(k));
        let j = choose|j: int| 0 <= j < order.len() && order[j] == k;
        assert(ranks_before(keys, ascending, order[0] as int, order[j] as int));
    }
}

} // verus!
