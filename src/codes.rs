use crate::cache::CoordinateCache;
use vstd::prelude::*;

verus! {

/// Numbers stations in order of first appearance: 0, 1, 2, ...
pub struct StationCodes {
    codes: CoordinateCache<u64>,
    next: u64,
}

impl View for StationCodes {
    type V = Map<Seq<char>, u64>;

    closed spec fn view(&self) -> Map<Seq<char>, u64> {
        self.codes@
    }
}

impl StationCodes {
    /// The code the next new station receives.
    pub closed spec fn next_code(&self) -> u64 {
        self.next
    }

    /// Codes are below the next one and no two stations share one.
    pub closed spec fn wf(&self) -> bool {
        &&& self.codes.wf()
        &&& forall|k: Seq<char>| #[trigger] self@.contains_key(k) ==> self@[k] < self.next
        &&& forall|a: Seq<char>, b: Seq<char>|
            #[trigger] self@.contains_key(a) && #[trigger] self@.contains_key(b) && a != b
                ==> self@[a] != self@[b]
    }

    pub fn new() -> (r: Self)
        ensures
            r.wf(),
            r@ == Map::<Seq<char>, u64>::empty(),
            r.next_code() == 0,
    {
        StationCodes { codes: CoordinateCache::new(), next: 0 }
    }

    /// The code of `name`, giving it the next code when it is new.
    pub fn code_of(&mut self, name: &String) -> (r: u64)
        requires
            old(self).wf(),
            old(self).next_code() < u64::MAX,
        ensures
            final(self).wf(),
            old(self)@.contains_key(name@) ==> r == old(self)@[name@] && final(self)@ == old(
                self,
            )@ && final(self).next_code() == old(self).next_code(),
            !old(self)@.contains_key(name@) ==> r == old(self).next_code() && final(self)@ == old(
                self,
            )@.insert(name@, r) && final(self).next_code() == old(self).next_code() + 1,
    {
        match self.codes.get(name) {
            Some(c) => c,
            None => {
                let ghost before = self@;
                let c = self.next;
                self.codes.put(name.clone(), c);
                self.next = c + 1;
                assert forall|a: Seq<char>, b: Seq<char>|
                    #[trigger] self@.contains_key(a) && #[trigger] self@.contains_key(b) && a != b
                        implies self@[a] != self@[b] by {
                    if a != name@ && b != name@ {
                        assert(before.contains_key(a) && before.contains_key(b));
                    } else if a == name@ {
                        assert(before.contains_key(b));
                    } else {
                        assert(before.contains_key(a));
                    }
                }
                c
            },
        }
    }
}

} // verus!
