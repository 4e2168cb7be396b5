use vstd::prelude::*;

verus! {

/// How many journeys name a station.
pub struct StationCount {
    pub name: String,
    pub count: u64,
}

/// Number of entries of `names` equal to `name`.
pub open spec fn occurrences(names: Seq<String>, name: Seq<char>) -> nat
    decreases names.len(),
{
    if names.len() == 0 {
        0
    } else {
        occurrences(names.drop_last(), name) + if names.last()@ == name {
            1nat
        } else {
            0nat
        }
    }
}

/// `counts` holds one entry per distinct name of `names`, each with its
/// number of occurrences.
pub open spec fn counts_of(names: Seq<String>, counts: Seq<StationCount>) -> bool {
    &&& forall|i: int, j: int|
        0 <= i < j < counts.len() ==> (#[trigger] counts[i]).name@ != (#[trigger] counts[j]).name@
    &&& forall|i: int|
        0 <= i < counts.len() ==> (#[trigger] counts[i]).count == occurrences(names, counts[i].name@)
            && occurrences(names, counts[i].name@) > 0
    &&& forall|k: int|
        0 <= k < names.len() ==> exists|i: int|
            0 <= i < counts.len() && (#[trigger] counts[i]).name@ == (#[trigger] names[k])@
}

proof fn lemma_occurrences_le(names: Seq<String>, name: Seq<char>)
    ensures
        occurrences(names, name) <= names.len(),
    decreases names.len(),
{
    if names.len() > 0 {
        lemma_occurrences_le(names.drop_last(), name);
    }
}

proof fn lemma_occurrences_absent(names: Seq<String>, name: Seq<char>)
    requires
        forall|k: int| 0 <= k < names.len() ==> (#[trigger] names[k])@ != name,
    ensures
        occurrences(names, name) == 0,
    decreases names.len(),
{
    if names.len() > 0 {
        assert(names.last() == names[names.len() - 1]);
        lemma_occurrences_absent(names.drop_last(), name);
    }
}

/// Counts the journeys per station in one pass over `names`.
pub fn station_counts(names: &Vec<String>) -> (r: Vec<StationCount>)
    ensures
        counts_of(names@, r@),
{
    let mut r: Vec<StationCount> = Vec::new();
    let mut p: usize = 0;
    while p < names.len()
        invariant
            p <= names@.len(),
            counts_of(names@.subrange(0, p as int), r@),
        decreases names@.len() - p,
    {
        let ghost pre = names@.subrange(0, p as int);
        let ghost post = names@.subrange(0, p + 1);
        let ghost added = names@[p as int]@;
        assert(post.drop_last() =~= pre);
        assert(post.last() == names@[p as int]);
        let ghost before = r@;
        let mut i: usize = 0;
        while i < r.len() && r[i].name != names[p]
            invariant
                r@ == before,
                p < names@.len(),
                i <= r@.len(),
                forall|j: int| 0 <= j < i ==> (#[trigger] r@[j]).name@ != names@[p as int]@,
            decreases r@.len() - i,
        {
            i = i + 1;
        }
        if i < r.len() {
            proof {
                lemma_occurrences_le(pre, added);
            }
            let c = r[i].count + 1;
            let name = r[i].name.clone();
            r.set(i, StationCount { name, count: c });
        } else {
            r.push(StationCount { name: names[p].clone(), count: 1 });
        }
        assert forall|j: int| 0 <= j < r@.len() implies (#[trigger] r@[j]).count == occurrences(
            post,
            r@[j].name@,
        ) && occurrences(post, r@[j].name@) > 0 by {
            assert(occurrences(post, r@[j].name@) == occurrences(pre, r@[j].name@) + if added
                == r@[j].name@ {
                1nat
            } else {
                0nat
            });
            if j != i {
                assert(r@[j] == before[j]);
            } else if i == before.len() {
                assert forall|k: int| 0 <= k < pre.len() implies (#[trigger] pre[k])@ != added by {
                    let jj = choose|jj: int|
                        0 <= jj < before.len() && (#[trigger] before[jj]).name@ == pre[k]@;
                }
                lemma_occurrences_absent(pre, added);
            }
        }
        assert forall|a: int, b: int| 0 <= a < b < r@.len() implies (#[trigger] r@[a]).name@
            != (#[trigger] r@[b]).name@ by {
            if b == i && i == before.len() {
                assert(r@[a] == before[a]);
            } else if a != i && b != i {
                assert(r@[a] == before[a]);
                assert(r@[b] == before[b]);
            } else if a == i {
                assert(r@[b] == before[b]);
            } else {
                assert(r@[a] == before[a]);
            }
        }
        assert forall|k: int| 0 <= k < post.len() implies exists|j: int|
            0 <= j < r@.len() && (#[trigger] r@[j]).name@ == (#[trigger] post[k])@ by {
            if k < p {
                assert(pre[k] == post[k]);
                let j = choose|j: int|
                    0 <= j < before.len() && (#[trigger] before[j]).name@ == pre[k]@;
                assert(r@[j].name@ == post[k]@);
            } else {
                assert(r@[i as int].name@ == post[k]@);
            }
        }
        p = p + 1;
    }
    assert(names@.subrange(0, p as int) =~= names@);
    r
}

/// The first station with the highest count.
pub fn most_common(counts: &Vec<StationCount>) -> (r: Option<usize>)
    ensures
        r is None <==> counts@.len() == 0,
        r matches Some(m) ==> m < counts@.len() && (forall|j: int|
            0 <= j < counts@.len() ==> (#[trigger] counts@[j]).count <= counts@[m as int].count)
            && (forall|j: int| 0 <= j < m ==> (#[trigger] counts@[j]).count < counts@[m as int].count),
{
    if counts.len() == 0 {
        return None;
    }
    let mut m: usize = 0;
    let mut i: usize = 1;
    while i < counts.len()
        invariant
            1 <= i <= counts@.len(),
            m < i,
            forall|j: int| 0 <= j < i ==> (#[trigger] counts@[j]).count <= counts@[m as int].count,
            forall|j: int| 0 <= j < m ==> (#[trigger] counts@[j]).count < counts@[m as int].count,
        decreases counts@.len() - i,
    {
        if counts[i].count > counts[m].count {
            m = i;
        }
        i = i + 1;
    }
    Some(m)
}

/// The first station with the lowest count.
pub fn least_common(counts: &Vec<StationCount>) -> (r: Option<usize>)
    ensures
        r is None <==> counts@.len() == 0,
        r matches Some(m) ==> m < counts@.len() && (forall|j: int|
            0 <= j < counts@.len() ==> (#[trigger] counts@[j]).count >= counts@[m as int].count)
            && (forall|j: int| 0 <= j < m ==> (#[trigger] counts@[j]).count > counts@[m as int].count),
{
    if counts.len() == 0 {
        return None;
    }
    let mut m: usize = 0;
    let mut i: usize = 1;
    while i < counts.len()
        invariant
            1 <= i <= counts@.len(),
            m < i,
            forall|j: int| 0 <= j < i ==> (#[trigger] counts@[j]).count >= counts@[m as int].count,
            forall|j: int| 0 <= j < m ==> (#[trigger] counts@[j]).count > counts@[m as int].count,
        decreases counts@.len() - i,
    {
        if counts[i].count < counts[m].count {
            m = i;
        }
        i = i + 1;
    }
    Some(m)
}

/// The first journey with the shortest duration.
pub fn shortest_journey(seconds: &Vec<u64>) -> (r: Option<usize>)
    ensures
        r is None <==> seconds@.len() == 0,
        r matches Some(m) ==> m < seconds@.len() && (forall|j: int|
            0 <= j < seconds@.len() ==> seconds@[m as int] <= #[trigger] seconds@[j]) && (forall|j: int|
            0 <= j < m ==> seconds@[m as int] < #[trigger] seconds@[j]),
{
    if seconds.len() == 0 {
        return None;
    }
    let mut m: usize = 0;
    let mut i: usize = 1;
    while i < seconds.len()
        invariant
            1 <= i <= seconds@.len(),
            m < i,
            forall|j: int| 0 <= j < i ==> seconds@[m as int] <= #[trigger] seconds@[j],
            forall|j: int| 0 <= j < m ==> seconds@[m as int] < #[trigger] seconds@[j],
        decreases seconds@.len() - i,
    {
        if seconds[i] < seconds[m] {
            m = i;
        }
        i = i + 1;
    }
    Some(m)
}

/// The last journey with the longest duration.
pub fn longest_journey(seconds: &Vec<u64>) -> (r: Option<usize>)
    ensures
        r is None <==> seconds@.len() == 0,
        r matches Some(m) ==> m < seconds@.len() && (forall|j: int|
            0 <= j < seconds@.len() ==> seconds@[m as int] >= #[trigger] seconds@[j]) && (forall|j: int|
            m < j < seconds@.len() ==> seconds@[m as int] > #[trigger] seconds@[j]),
{
    if seconds.len() == 0 {
        return None;
    }
    let mut m: usize = 0;
    let mut i: usize = 1;
    while i < seconds.len()
        invariant
            1 <= i <= seconds@.len(),
            m < i,
            forall|j: int| 0 <= j < i ==> seconds@[m as int] >= #[trigger] seconds@[j],
            forall|j: int| m < j < i ==> seconds@[m as int] > #[trigger] seconds@[j],
        decreases seconds@.len() - i,
    {
        if seconds[i] >= seconds[m] {
            m = i;
        }
        i = i + 1;
    }
    Some(m)
}

} // verus!
