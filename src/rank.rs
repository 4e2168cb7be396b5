use vstd::prelude::*;

verus! {

/// How many anomalous records the summary shows unless configured otherwise.
pub const DEFAULT_TOP_K: usize = 10;

/// The order key of an optional score: an absent score ranks below every
/// present one.
pub open spec fn score_key(s: Option<u64>) -> int {
    match s {
        Some(v) => v as int,
        None => -1,
    }
}

/// Record `a` comes before record `b`: a higher score first, and on equal
/// scores the lower index first.
pub open spec fn precedes(scores: Seq<Option<u64>>, a: int, b: int) -> bool {
    score_key(scores[a]) > score_key(scores[b]) || (score_key(scores[a]) == score_key(scores[b])
        && a < b)
}

/// `r` lists record indices by descending score, ties by ascending index.
pub open spec fn in_rank_order(scores: Seq<Option<u64>>, r: Seq<usize>) -> bool {
    forall|i: int, j: int|
        0 <= i < j < r.len() ==> precedes(scores, #[trigger] r[i] as int, #[trigger] r[j] as int)
}

/// A record is anomalous when it has a score above the threshold.
pub open spec fn is_anomalous(s: Option<u64>, threshold: u64) -> bool {
    s matches Some(v) && v > threshold
}

pub open spec fn is_selected(s: Option<u64>, all: bool, threshold: u64) -> bool {
    all || is_anomalous(s, threshold)
}

fn key_less(a: Option<u64>, b: Option<u64>) -> (r: bool)
    ensures
        r == (score_key(a) < score_key(b)),
{
    match (a, b) {
        (_, None) => false,
        (None, Some(_)) => true,
        (Some(x), Some(y)) => x < y,
    }
}

/// Inserts `k`, larger than every index already in `r`, at its place in rank order.
fn insert_ranked(r: &mut Vec<usize>, scores: &Vec<Option<u64>>, k: usize)
    requires
        k < scores@.len(),
        in_rank_order(scores@, old(r)@),
        forall|i: int| 0 <= i < old(r)@.len() ==> #[trigger] old(r)@[i] < k,
    ensures
        in_rank_order(scores@, final(r)@),
        final(r)@.len() == old(r)@.len() + 1,
        final(r)@.contains(k),
        forall|x: usize| old(r)@.contains(x) ==> #[trigger] final(r)@.contains(x),
        forall|i: int|
            0 <= i < final(r)@.len() ==> #[trigger] final(r)@[i] == k || old(r)@.contains(
                final(r)@[i],
            ),
{
    let ghost before = r@;
    let mut p: usize = 0;
    while p < r.len() && !key_less(scores[r[p]], scores[k])
        invariant
            r@ == before,
            k < scores@.len(),
            p <= r@.len(),
            forall|i: int| 0 <= i < r@.len() ==> #[trigger] r@[i] < k,
            forall|i: int| 0 <= i < p ==> precedes(scores@, #[trigger] r@[i] as int, k as int),
        decreases r@.len() - p,
    {
        p = p + 1;
    }
    proof {
        if p < before.len() {
            assert forall|q: int| p <= q < before.len() implies precedes(
                scores@,
                k as int,
                #[trigger] before[q] as int,
            ) by {
                if q > p {
                    assert(precedes(scores@, before[p as int] as int, before[q] as int));
                }
            }
        }
    }
    r.insert(p, k);
    proof {
        before.insert_ensures(p as int, k);
        let after = r@;
        assert(after[p as int] == k);
        assert forall|i: int, j: int| 0 <= i < j < after.len() implies precedes(
            scores@,
            #[trigger] after[i] as int,
            #[trigger] after[j] as int,
        ) by {
            if j < p {
            } else if j == p {
            } else if i < p {
                assert(after[j] == before[j - 1]);
                assert(precedes(scores@, before[i] as int, k as int));
                assert(precedes(scores@, k as int, before[j - 1] as int));
            } else if i == p {
                assert(after[j] == before[j - 1]);
            } else {
                assert(after[i] == before[i - 1]);
                assert(after[j] == before[j - 1]);
            }
        }
        assert forall|x: usize| before.contains(x) implies #[trigger] after.contains(x) by {
            let m = choose|m: int| 0 <= m < before.len() && before[m] == x;
            if m < p {
                assert(after[m] == x);
            } else {
                assert(after[m + 1] == x);
            }
        }
        assert forall|i: int| 0 <= i < after.len() implies #[trigger] after[i] == k
            || before.contains(after[i]) by {
            if i < p {
                assert(before[i] == after[i]);
            } else if i > p {
                assert(before[i - 1] == after[i]);
            }
        }
    }
}

fn rank_selected(scores: &Vec<Option<u64>>, all: bool, threshold: u64) -> (r: Vec<usize>)
    ensures
        in_rank_order(scores@, r@),
        forall|i: int|
            0 <= i < r@.len() ==> #[trigger] r@[i] < scores@.len() && is_selected(
                scores@[r@[i] as int],
                all,
                threshold,
            ),
        forall|k: int|
            0 <= k < scores@.len() && is_selected(#[trigger] scores@[k], all, threshold)
                ==> r@.contains(k as usize),
{
    let mut r: Vec<usize> = Vec::new();
    let mut k: usize = 0;
    while k < scores.len()
        invariant
            k <= scores@.len(),
            in_rank_order(scores@, r@),
            forall|i: int|
                0 <= i < r@.len() ==> #[trigger] r@[i] < k && is_selected(
                    scores@[r@[i] as int],
                    all,
                    threshold,
                ),
            forall|j: int|
                0 <= j < k && is_selected(#[trigger] scores@[j], all, threshold) ==> r@.contains(
                    j as usize,
                ),
        decreases scores@.len() - k,
    {
        let chosen = all || match scores[k] {
            Some(v) => v > threshold,
            None => false,
        };
        if chosen {
            let ghost before = r@;
            insert_ranked(&mut r, scores, k);
            assert forall|i: int|
                0 <= i < r@.len() implies #[trigger] r@[i] < k + 1 && is_selected(
                scores@[r@[i] as int],
                all,
                threshold,
            ) by {
                if r@[i] != k {
                    let m = choose|m: int| 0 <= m < before.len() && before[m] == r@[i];
                    assert(before[m] < k);
                }
            }
            assert forall|j: int|
                0 <= j < k + 1 && is_selected(#[trigger] scores@[j], all, threshold)
                    implies r@.contains(j as usize) by {
                if j < k {
                    assert(before.contains(j as usize));
                }
            }
        }
        k = k + 1;
    }
    r
}

/// The anomalous records, those with a score above `threshold`, by
/// descending score and, on equal scores, ascending index.
pub fn rank_anomalies(scores: &Vec<Option<u64>>, threshold: u64) -> (r: Vec<usize>)
    ensures
        in_rank_order(scores@, r@),
        forall|i: int|
            0 <= i < r@.len() ==> #[trigger] r@[i] < scores@.len() && is_anomalous(
                scores@[r@[i] as int],
                threshold,
            ),
        forall|k: int|
            0 <= k < scores@.len() && is_anomalous(#[trigger] scores@[k], threshold)
                ==> r@.contains(k as usize),
{
    rank_selected(scores, false, threshold)
}

/// Every record index, by descending score with absent scores last, and on
/// equal scores by ascending index: the order of the output document.
pub fn output_order(scores: &Vec<Option<u64>>) -> (r: Vec<usize>)
    ensures
        in_rank_order(scores@, r@),
        forall|i: int| 0 <= i < r@.len() ==> #[trigger] r@[i] < scores@.len(),
        forall|k: usize| k < scores@.len() ==> #[trigger] r@.contains(k),
{
    let r = rank_selected(scores, true, 0);
    assert forall|k: usize| k < scores@.len() implies #[trigger] r@.contains(k) by {
        assert(is_selected(scores@[k as int], true, 0));
    }
    r
}

/// The first `k` entries of a ranking, or all of them when there are fewer.
pub fn top_k(ranked: &Vec<usize>, k: usize) -> (r: Vec<usize>)
    ensures
        r@ == ranked@.subrange(0, if k < ranked@.len() { k as int } else { ranked@.len() as int }),
{
    let n = if k < ranked.len() { k } else { ranked.len() };
    let mut r: Vec<usize> = Vec::new();
    let mut i: usize = 0;
    while i < n
        invariant
            n <= ranked@.len(),
            i <= n,
            r@ == ranked@.subrange(0, i as int),
        decreases n - i,
    {
        r.push(ranked[i]);
        i = i + 1;
        assert(r@ =~= ranked@.subrange(0, i as int));
    }
    r
}

} // verus!
