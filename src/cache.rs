use vstd::prelude::*;

verus! {

/// `entries` names each station at most once.
pub open spec fn names_unique<C>(entries: Seq<(String, C)>) -> bool {
    forall|i: int, j: int|
        0 <= i < j < entries.len() ==> (#[trigger] entries[i]).0@ != (#[trigger] entries[j]).0@
}

/// `entries` lists the mapping `m` exactly: one entry per name, each with its coordinate.
pub open spec fn lists<C>(entries: Seq<(String, C)>, m: Map<Seq<char>, C>) -> bool {
    &&& names_unique(entries)
    &&& forall|i: int|
        0 <= i < entries.len() ==> m.contains_key((#[trigger] entries[i]).0@) && m[entries[i].0@]
            == entries[i].1
    &&& forall|k: Seq<char>|
        #[trigger] m.contains_key(k) ==> exists|i: int| 0 <= i < entries.len() && entries[i].0@ == k
}

/// `m` is what loading `entries` in order gives: every listed name is present,
/// and a name listed more than once keeps its last coordinate.
pub open spec fn loads_as<C>(entries: Seq<(String, C)>, m: Map<Seq<char>, C>) -> bool {
    &&& forall|k: Seq<char>|
        #[trigger] m.contains_key(k) <==> exists|i: int| 0 <= i < entries.len() && entries[i].0@ == k
    &&& forall|i: int|
        0 <= i < entries.len() && (forall|j: int|
            i < j < entries.len() ==> (#[trigger] entries[j]).0@ != entries[i].0@) ==> m[(
        #[trigger] entries[i]).0@] == entries[i].1
}

/// Loading the entries that a cache persisted gives back the cache's mapping.
pub proof fn lemma_persist_then_load<C>(
    entries: Seq<(String, C)>,
    m: Map<Seq<char>, C>,
    loaded: Map<Seq<char>, C>,
)
    requires
        lists(entries, m),
        loads_as(entries, loaded),
    ensures
        loaded == m,
{
    assert forall|k: Seq<char>| #[trigger] loaded.contains_key(k) implies m.contains_key(k)
        && loaded[k] == m[k] by {
        let i = choose|i: int| 0 <= i < entries.len() && entries[i].0@ == k;
        assert forall|j: int| i < j < entries.len() implies (#[trigger] entries[j]).0@
            != entries[i].0@ by {
            assert(entries[i].0@ != entries[j].0@);
        }
    }
    assert(loaded =~= m);
}

/// A mapping from station name (exact, case- and whitespace-sensitive) to a
/// coordinate, with at most one entry per name.
pub struct CoordinateCache<C> {
    entries: Vec<(String, C)>,
    model: Ghost<Map<Seq<char>, C>>,
}

impl<C: Copy> View for CoordinateCache<C> {
    type V = Map<Seq<char>, C>;

    closed spec fn view(&self) -> Map<Seq<char>, C> {
        self.model@
    }
}

impl<C: Copy> CoordinateCache<C> {
    pub closed spec fn wf(&self) -> bool {
        lists(self.entries@, self.model@)
    }

    /// An empty cache, as on a first run with no persisted state.
    pub fn new() -> (r: Self)
        ensures
            r.wf(),
            r@ == Map::<Seq<char>, C>::empty(),
    {
        CoordinateCache { entries: Vec::new(), model: Ghost(Map::empty()) }
    }

    fn position(&self, name: &String) -> (r: Option<usize>)
        requires
            self.wf(),
        ensures
            match r {
                Some(p) => p < self.entries@.len() && self.entries@[p as int].0@ == name@,
                None => !self@.contains_key(name@),
            },
    {
        let mut i: usize = 0;
        while i < self.entries.len()
            invariant
                self.wf(),
                i <= self.entries@.len(),
                forall|j: int| 0 <= j < i ==> (#[trigger] self.entries@[j]).0@ != name@,
            decreases self.entries@.len() - i,
        {
            if self.entries[i].0 == *name {
                return Some(i);
            }
            i = i + 1;
        }
        None
    }

    /// The cached coordinate of `name`, if any.
    pub fn get(&self, name: &String) -> (r: Option<C>)
        requires
            self.wf(),
        ensures
            r == (if self@.contains_key(name@) {
                Some(self@[name@])
            } else {
                None
            }),
    {
        match self.position(name) {
            Some(p) => Some(self.entries[p].1),
            None => None,
        }
    }

    /// Inserts `name` with `coord`, replacing any coordinate it had.
    pub fn put(&mut self, name: String, coord: C)
        requires
            old(self).wf(),
        ensures
            final(self).wf(),
            final(self)@ == old(self)@.insert(name@, coord),
    {
        let ghost key = name@;
        let ghost m = self.model@.insert(key, coord);
        let ghost old_entries = self.entries@;
        let ghost old_model = self.model@;
        match self.position(&name) {
            Some(p) => {
                self.entries.set(p, (name, coord));
                self.model = Ghost(m);
                assert forall|k: Seq<char>| #[trigger] m.contains_key(k) implies exists|i: int|
                    0 <= i < self.entries@.len() && self.entries@[i].0@ == k by {
                    if k == key {
                        assert(self.entries@[p as int].0@ == k);
                    } else {
                        assert(old_model.contains_key(k));
                        let i = choose|i: int| 0 <= i < old_entries.len() && old_entries[i].0@ == k;
                        assert(self.entries@[i].0@ == k);
                    }
                }
            },
            None => {
                self.entries.push((name, coord));
                self.model = Ghost(m);
                let ghost last = self.entries@.len() - 1;
                assert forall|k: Seq<char>| #[trigger] m.contains_key(k) implies exists|i: int|
                    0 <= i < self.entries@.len() && self.entries@[i].0@ == k by {
                    if k == key {
                        assert(self.entries@[last].0@ == k);
                    } else {
                        assert(old_model.contains_key(k));
                        let i = choose|i: int| 0 <= i < old_entries.len() && old_entries[i].0@ == k;
                        assert(self.entries@[i].0@ == k);
                    }
                }
            },
        }
    }

    /// Every entry of the cache, one per name: what is persisted.
    pub fn entries(&self) -> (r: Vec<(String, C)>)
        requires
            self.wf(),
        ensures
            lists(r@, self@),
    {
        let mut r: Vec<(String, C)> = Vec::new();
        let mut i: usize = 0;
        while i < self.entries.len()
            invariant
                self.wf(),
                i <= self.entries@.len(),
                r@.len() == i,
                forall|j: int|
                    0 <= j < i ==> (#[trigger] r@[j]).0@ == self.entries@[j].0@ && r@[j].1
                        == self.entries@[j].1,
            decreases self.entries@.len() - i,
        {
            let name = self.entries[i].0.clone();
            r.push((name, self.entries[i].1));
            i = i + 1;
        }
        assert forall|k: Seq<char>| #[trigger] self@.contains_key(k) implies exists|j: int|
            0 <= j < r@.len() && r@[j].0@ == k by {
            let j = choose|j: int| 0 <= j < self.entries@.len() && self.entries@[j].0@ == k;
            assert(r@[j].0@ == k);
        }
        r
    }

    /// The cache that loading `entries` in order builds; a repeated name keeps
    /// its last coordinate.
    pub fn from_entries(entries: &Vec<(String, C)>) -> (r: Self)
        ensures
            r.wf(),
            loads_as(entries@, r@),
    {
        let mut r = Self::new();
        let mut i: usize = 0;
        while i < entries.len()
            invariant
                r.wf(),
                i <= entries@.len(),
                loads_as(entries@.subrange(0, i as int), r@),
            decreases entries@.len() - i,
        {
            let ghost before = r@;
            let ghost pre = entries@.subrange(0, i as int);
            let ghost post = entries@.subrange(0, i + 1);
            r.put(entries[i].0.clone(), entries[i].1);
            let ghost key = entries@[i as int].0@;
            assert forall|k: Seq<char>| #[trigger] r@.contains_key(k) <==> exists|j: int|
                0 <= j < post.len() && post[j].0@ == k by {
                if k == key {
                    assert(post[i as int].0@ == k);
                } else if before.contains_key(k) {
                    let j = choose|j: int| 0 <= j < pre.len() && pre[j].0@ == k;
                    assert(post[j].0@ == k);
                } else if exists|j: int| 0 <= j < post.len() && post[j].0@ == k {
                    let j = choose|j: int| 0 <= j < post.len() && post[j].0@ == k;
                    assert(pre[j].0@ == k);
                }
            }
            assert forall|j: int|
                0 <= j < post.len() && (forall|l: int|
                    j < l < post.len() ==> (#[trigger] post[l]).0@ != post[j].0@) implies r@[(
            #[trigger] post[j]).0@] == post[j].1 by {
                if j < i {
                    assert(post[i as int].0@ != post[j].0@);
                    assert forall|l: int| j < l < pre.len() implies (#[trigger] pre[l]).0@
                        != pre[j].0@ by {
                        assert(post[l] == pre[l]);
                    }
                    assert(pre[j] == post[j]);
                }
            }
            i = i + 1;
        }
        assert(entries@.subrange(0, i as int) =~= entries@);
        r
    }
}

} // verus!
