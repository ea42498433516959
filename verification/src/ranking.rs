//! The order in which scored entries are returned: greater score first, and
//! among equal scores the entry that was inserted first.

use vstd::prelude::*;

verus! {

/// Entry `i` is returned before entry `j`.
pub open spec fn precedes(sims: Seq<u128>, i: int, j: int) -> bool {
    sims[i] > sims[j] || (sims[i] == sims[j] && i < j)
}

/// `order` with `x` put behind every entry that is at least as similar.
pub open spec fn insert_ranked(order: Seq<int>, sims: Seq<u128>, x: int) -> Seq<int>
    decreases order.len(),
{
    if order.len() == 0 {
        seq![x]
    } else if sims[order.last()] >= sims[x] {
        order.push(x)
    } else {
        insert_ranked(order.drop_last(), sims, x).push(order.last())
    }
}

/// The first `n` entries in the order in which they are returned.
pub open spec fn ranking_of_first(sims: Seq<u128>, n: int) -> Seq<int>
    decreases n,
{
    if n <= 0 {
        seq![]
    } else {
        insert_ranked(ranking_of_first(sims, n - 1), sims, n - 1)
    }
}

/// All entries in the order in which they are returned.
pub open spec fn ranking(sims: Seq<u128>) -> Seq<int> {
    ranking_of_first(sims, sims.len() as int)
}

/// `order` lists entries below `n`, each before those that it precedes.
pub open spec fn ranked(sims: Seq<u128>, order: Seq<int>, n: int) -> bool {
    &&& forall|i: int| 0 <= i < order.len() ==> 0 <= #[trigger] order[i] < n
    &&& forall|i: int, j: int|
        0 <= i < j < order.len() ==> precedes(sims, #[trigger] order[i], #[trigger] order[j])
}

proof fn lemma_insert_ranked(order: Seq<int>, sims: Seq<u128>, x: int)
    requires
        0 <= x < sims.len(),
        ranked(sims, order, x),
    ensures
        ranked(sims, insert_ranked(order, sims, x), x + 1),
        insert_ranked(order, sims, x).len() == order.len() + 1,
        insert_ranked(order, sims, x).contains(x),
        forall|y: int| order.contains(y) ==> insert_ranked(order, sims, x).contains(y),
    decreases order.len(),
{
    let out = insert_ranked(order, sims, x);
    if order.len() == 0 {
        assert(out[0] == x);
    } else if sims[order.last()] >= sims[x] {
        assert(out.last() == x);
        assert forall|i: int, j: int| 0 <= i < j < out.len() implies precedes(
            sims,
            #[trigger] out[i],
            #[trigger] out[j],
        ) by {
            if j == out.len() - 1 {
                if i < order.len() - 1 {
                    assert(precedes(sims, order[i], order[order.len() - 1]));
                }
            } else {
                assert(precedes(sims, order[i], order[j]));
            }
        }
        assert forall|y: int| order.contains(y) implies out.contains(y) by {
            let k = choose|k: int| 0 <= k < order.len() && order[k] == y;
            assert(out[k] == y);
        }
    } else {
        let front = order.drop_last();
        assert(ranked(sims, front, x)) by {
            assert forall|i: int, j: int| 0 <= i < j < front.len() implies precedes(
                sims,
                #[trigger] front[i],
                #[trigger] front[j],
            ) by {
                assert(precedes(sims, order[i], order[j]));
            }
        }
        lemma_insert_ranked(front, sims, x);
        let inner = insert_ranked(front, sims, x);
        assert forall|i: int| 0 <= i < out.len() implies 0 <= #[trigger] out[i] < x + 1 by {
            if i < inner.len() {
                assert(out[i] == inner[i]);
            }
        }
        assert forall|i: int, j: int| 0 <= i < j < out.len() implies precedes(
            sims,
            #[trigger] out[i],
            #[trigger] out[j],
        ) by {
            if j == out.len() - 1 {
                // `inner[i]` is `x`, which the last entry does not reach, or an
                // entry of `front`, which precedes the last entry of `order`.
                assert(out[i] == inner[i]);
                if inner[i] != x {
                    lemma_insert_ranked_source(front, sims, x, i);
                    let k = choose|k: int| 0 <= k < front.len() && front[k] == inner[i];
                    assert(precedes(sims, order[k], order[order.len() - 1]));
                }
            } else {
                assert(precedes(sims, inner[i], inner[j]));
            }
        }
        let k = choose|k: int| 0 <= k < inner.len() && inner[k] == x;
        assert(out[k] == x);
        assert forall|y: int| order.contains(y) implies out.contains(y) by {
            let k = choose|k: int| 0 <= k < order.len() && order[k] == y;
            if k == order.len() - 1 {
                assert(out.last() == y);
            } else {
                assert(front[k] == y);
                assert(front.contains(y));
                assert(inner.contains(y));
                let m = choose|m: int| 0 <= m < inner.len() && inner[m] == y;
                assert(out[m] == y);
            }
        }
    }
}

/// Each entry of `insert_ranked(order, sims, x)` is `x` or one of `order`.
proof fn lemma_insert_ranked_source(order: Seq<int>, sims: Seq<u128>, x: int, i: int)
    requires
        0 <= i < insert_ranked(order, sims, x).len(),
    ensures
        insert_ranked(order, sims, x)[i] == x || order.contains(insert_ranked(order, sims, x)[i]),
    decreases order.len(),
{
    let out = insert_ranked(order, sims, x);
    if order.len() == 0 {
    } else if sims[order.last()] >= sims[x] {
        if i < order.len() {
            assert(order[i] == out[i]);
        }
    } else {
        let front = order.drop_last();
        let inner = insert_ranked(front, sims, x);
        if i < inner.len() {
            lemma_insert_ranked_source(front, sims, x, i);
            if inner[i] != x {
                let k = choose|k: int| 0 <= k < front.len() && front[k] == inner[i];
                assert(order[k] == inner[i]);
            }
        } else {
            assert(out[i] == order.last());
            assert(order[order.len() - 1] == out[i]);
        }
    }
}

/// The order of the first `n` entries lists each of them once, each before
/// those that it precedes.
pub proof fn lemma_ranking_of_first(sims: Seq<u128>, n: int)
    requires
        0 <= n <= sims.len(),
    ensures
        ranking_of_first(sims, n).len() == n,
        ranked(sims, ranking_of_first(sims, n), n),
        forall|x: int| 0 <= x < n ==> ranking_of_first(sims, n).contains(x),
    decreases n,
{
    if n > 0 {
        let before = ranking_of_first(sims, n - 1);
        lemma_ranking_of_first(sims, n - 1);
        lemma_insert_ranked(before, sims, n - 1);
        assert forall|x: int| 0 <= x < n implies ranking_of_first(sims, n).contains(x) by {
            if x < n - 1 {
                assert(before.contains(x));
            }
        }
    }
}

/// The order in which entries are returned lists every entry once; similarity
/// never rises along it, and equally similar entries keep their insertion
/// order.
pub proof fn lemma_ranking(sims: Seq<u128>)
    ensures
        ranking(sims).len() == sims.len(),
        forall|i: int| 0 <= i < sims.len() ==> 0 <= #[trigger] ranking(sims)[i] < sims.len(),
        forall|x: int| 0 <= x < sims.len() ==> ranking(sims).contains(x),
        forall|i: int, j: int|
            0 <= i < j < sims.len() ==> sims[#[trigger] ranking(sims)[i]] >= sims[#[trigger] ranking(
                sims,
            )[j]],
        forall|i: int, j: int|
            0 <= i < j < sims.len() && sims[#[trigger] ranking(sims)[i]] == sims[#[trigger] ranking(
                sims,
            )[j]] ==> ranking(sims)[i] < ranking(sims)[j],
{
    lemma_ranking_of_first(sims, sims.len() as int);
    let order = ranking(sims);
    assert forall|i: int, j: int| 0 <= i < j < sims.len() implies sims[#[trigger] order[i]]
        >= sims[#[trigger] order[j]] by {
        assert(precedes(sims, order[i], order[j]));
    }
    assert forall|i: int, j: int|
        0 <= i < j < sims.len() && sims[#[trigger] order[i]] == sims[#[trigger] order[j]] implies order[i]
        < order[j] by {
        assert(precedes(sims, order[i], order[j]));
    }
}

/// Behind entries that are all at least as similar, the new entry goes last.
proof fn lemma_insert_behind(order: Seq<int>, sims: Seq<u128>, x: int)
    requires
        forall|i: int| 0 <= i < order.len() ==> sims[#[trigger] order[i]] >= sims[x],
    ensures
        insert_ranked(order, sims, x) == order.push(x),
{
    if order.len() > 0 {
        assert(sims[order[order.len() - 1]] >= sims[x]);
    }
}

/// Keeping only the first `k` entries before an insertion does not change the
/// first `k` entries after it.
pub proof fn lemma_insert_then_take(order: Seq<int>, sims: Seq<u128>, x: int, n: int, k: int)
    requires
        ranked(sims, order, n),
        0 <= k <= order.len(),
    ensures
        insert_ranked(order, sims, x).len() == order.len() + 1,
        insert_ranked(order.take(k), sims, x).len() == k + 1,
        insert_ranked(order, sims, x).take(k) == insert_ranked(order.take(k), sims, x).take(k),
    decreases order.len(),
{
    let out = insert_ranked(order, sims, x);
    if k == order.len() {
        assert(order.take(k) == order);
        lemma_insert_len(order, sims, x);
    } else if sims[order.last()] >= sims[x] {
        let head = order.take(k);
        assert forall|i: int| 0 <= i < head.len() implies sims[#[trigger] head[i]] >= sims[x] by {
            assert(precedes(sims, order[i], order[order.len() - 1]));
        }
        lemma_insert_behind(head, sims, x);
        assert(out.take(k) == head);
        assert(head.push(x).take(k) == head);
    } else {
        let front = order.drop_last();
        assert(ranked(sims, front, n)) by {
            assert forall|i: int, j: int| 0 <= i < j < front.len() implies precedes(
                sims,
                #[trigger] front[i],
                #[trigger] front[j],
            ) by {
                assert(precedes(sims, order[i], order[j]));
            }
            assert forall|i: int| 0 <= i < front.len() implies 0 <= #[trigger] front[i] < n by {
                assert(front[i] == order[i]);
            }
        }
        lemma_insert_then_take(front, sims, x, n, k);
        assert(front.take(k) == order.take(k));
        assert(out.take(k) == insert_ranked(front, sims, x).take(k));
    }
}

proof fn lemma_insert_len(order: Seq<int>, sims: Seq<u128>, x: int)
    ensures
        insert_ranked(order, sims, x).len() == order.len() + 1,
    decreases order.len(),
{
    if order.len() > 0 && sims[order.last()] < sims[x] {
        lemma_insert_len(order.drop_last(), sims, x);
    }
}

/// The indices that a vector of positions holds.
pub open spec fn positions(v: Seq<usize>) -> Seq<int> {
    Seq::new(v.len(), |i: int| v[i] as int)
}

/// Putting `x` behind every entry that is at least as similar is inserting it
/// at the place behind which all entries are less similar.
proof fn lemma_insert_at(order: Seq<int>, sims: Seq<u128>, x: int, at: int)
    requires
        0 <= at <= order.len(),
        forall|i: int| at <= i < order.len() ==> sims[#[trigger] order[i]] < sims[x],
        at > 0 ==> sims[order[at - 1]] >= sims[x],
    ensures
        insert_ranked(order, sims, x) == order.insert(at, x),
    decreases order.len() - at,
{
    if at == order.len() {
        assert(insert_ranked(order, sims, x) =~= order.insert(at, x));
    } else {
        let front = order.drop_last();
        assert(sims[order[order.len() - 1]] < sims[x]);
        assert forall|i: int| at <= i < front.len() implies sims[#[trigger] front[i]] < sims[x] by {
            assert(front[i] == order[i]);
        }
        lemma_insert_at(front, sims, x, at);
        assert(front.insert(at, x).push(order.last()) =~= order.insert(at, x));
    }
}

/// The first `k` entries of the order in which entries are returned, or all
/// of them where there are fewer.
pub fn top_ranked(sims: &Vec<u128>, k: usize) -> (best: Vec<usize>)
    ensures
        best.len() == if k < sims.len() {
            k
        } else {
            sims.len()
        },
        positions(best@) == ranking(sims@).take(best.len() as int),
        forall|i: int| 0 <= i < best.len() ==> (#[trigger] best[i]) < sims.len(),
{
    let n = sims.len();
    let mut best: Vec<usize> = Vec::new();
    if k == 0 {
        assert(positions(best@) =~= ranking(sims@).take(0));
        return best;
    }
    let mut x: usize = 0;
    assert(positions(best@) =~= ranking_of_first(sims@, 0));
    while x < n
        invariant
            x <= n == sims.len(),
            0 < k,
            best.len() == if k < x {
                k
            } else {
                x
            },
            positions(best@) == ranking_of_first(sims@, x as int).take(best.len() as int),
            forall|i: int| 0 <= i < best.len() ==> (#[trigger] best[i]) < x,
        decreases n - x,
    {
        let ghost full = ranking_of_first(sims@, x as int);
        let ghost held = positions(best@);
        proof {
            lemma_ranking_of_first(sims@, x as int);
            lemma_insert_then_take(full, sims@, x as int, x as int, held.len() as int);
            assert(ranked(sims@, held, x as int)) by {
                assert forall|i: int, j: int| 0 <= i < j < held.len() implies precedes(
                    sims@,
                    #[trigger] held[i],
                    #[trigger] held[j],
                ) by {
                    assert(held[i] == full[i] && held[j] == full[j]);
                }
            }
        }
        let mut at: usize = best.len();
        while at > 0 && sims[best[at - 1]] < sims[x]
            invariant
                at <= best.len(),
                x < n == sims.len(),
                held == positions(best@),
                forall|i: int| 0 <= i < best.len() ==> (#[trigger] best[i]) < x,
                forall|i: int| at <= i < held.len() ==> sims@[#[trigger] held[i]] < sims@[x as int],
            decreases at,
        {
            at -= 1;
        }
        proof {
            if at > 0 {
                assert(held[at - 1] == best[at - 1]);
            }
            lemma_insert_at(held, sims@, x as int, at as int);
        }
        best.insert(at, x);
        assert(positions(best@) =~= held.insert(at as int, x as int));
        if best.len() > k {
            best.pop();
            assert(positions(best@) =~= held.insert(at as int, x as int).take(k as int));
        } else {
            assert(held == full);
            assert(positions(best@).take(best.len() as int) == positions(best@));
        }
        x += 1;
    }
    best
}

} // verus!
