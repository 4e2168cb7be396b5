use crate::cache::CoordinateCache;
use vstd::prelude::*;
use vstd::string::*;

verus! {

/// One entry of the reference feed: a known station and its coordinate.
pub struct Station<C> {
    pub name: String,
    pub coord: C,
}

/// The geocoding query for a station returned no candidate, or could not be made.
#[derive(Debug, Clone, Copy, PartialEq, Eq, Structural)]
pub struct ResolutionError;

/// What resolving a station without the geocoder gave.
#[derive(Debug, PartialEq, Eq)]
pub enum Lookup<C> {
    /// The cache held it; nothing else was consulted.
    Cached(C),
    /// The reference feed held it; it is now cached.
    Reference(C),
    /// Neither held it: the caller must geocode the name and hand the
    /// candidates to `accept_geocoding`.
    NeedsGeocoding,
}

/// The coordinate of the first feed entry from position `i` on named `name`.
pub open spec fn feed_lookup_from<C>(feed: Seq<Station<C>>, name: Seq<char>, i: int) -> Option<C>
    decreases feed.len() - i,
{
    if i < 0 || i >= feed.len() {
        None
    } else if feed[i].name@ == name {
        Some(feed[i].coord)
    } else {
        feed_lookup_from(feed, name, i + 1)
    }
}

/// The coordinate of the first feed entry named `name`.
pub open spec fn feed_lookup<C>(feed: Seq<Station<C>>, name: Seq<char>) -> Option<C> {
    feed_lookup_from(feed, name, 0)
}

/// Resolution of `name` against the cache `m` and the feed: the outcome and
/// the cache afterwards.
pub open spec fn lookup_outcome<C>(m: Map<Seq<char>, C>, feed: Seq<Station<C>>, name: Seq<char>) -> (
    Lookup<C>,
    Map<Seq<char>, C>,
) {
    if m.contains_key(name) {
        (Lookup::Cached(m[name]), m)
    } else {
        match feed_lookup(feed, name) {
            Some(c) => (Lookup::Reference(c), m.insert(name, c)),
            None => (Lookup::NeedsGeocoding, m),
        }
    }
}

/// What the geocoder's candidates for `name` give: the first candidate, now
/// cached, or an error when there is none.
pub open spec fn geocoding_outcome<C>(m: Map<Seq<char>, C>, name: Seq<char>, candidates: Seq<C>) -> (
    Result<C, ResolutionError>,
    Map<Seq<char>, C>,
) {
    if candidates.len() == 0 {
        (Err(ResolutionError), m)
    } else {
        (Ok(candidates[0]), m.insert(name, candidates[0]))
    }
}

/// Once a name has been resolved, by the feed or by the geocoder, resolving it
/// again is a cache hit with the same coordinate: neither the feed nor the
/// geocoder is consulted a second time.
pub proof fn lemma_resolution_is_memoized<C>(
    m: Map<Seq<char>, C>,
    feed: Seq<Station<C>>,
    name: Seq<char>,
    candidates: Seq<C>,
)
    ensures
        ({
            let (first, after) = lookup_outcome(m, feed, name);
            match first {
                Lookup::Cached(c) => lookup_outcome(after, feed, name) == (Lookup::Cached(c), after),
                Lookup::Reference(c) => lookup_outcome(after, feed, name) == (
                    Lookup::Cached(c),
                    after,
                ),
                Lookup::NeedsGeocoding => {
                    let (g, after_geo) = geocoding_outcome(after, name, candidates);
                    match g {
                        Ok(c) => lookup_outcome(after_geo, feed, name) == (
                            Lookup::Cached(c),
                            after_geo,
                        ),
                        Err(_) => after_geo == m,
                    }
                },
            }
        }),
{
}

/// For a name not yet cached, the feed is consulted first: a name the feed
/// holds needs no geocoding, and a name it lacks needs exactly one geocoding
/// query, whose first candidate is cached.
pub proof fn lemma_feed_before_geocoding<C>(
    m: Map<Seq<char>, C>,
    feed: Seq<Station<C>>,
    name: Seq<char>,
    candidates: Seq<C>,
)
    requires
        !m.contains_key(name),
    ensures
        feed_lookup(feed, name) is Some ==> lookup_outcome(m, feed, name).0 == Lookup::Reference(
            feed_lookup(feed, name).unwrap(),
        ),
        feed_lookup(feed, name) is None ==> lookup_outcome(m, feed, name).0
            == Lookup::<C>::NeedsGeocoding,
        feed_lookup(feed, name) is None && candidates.len() > 0 ==> ({
            let (g, after) = geocoding_outcome(lookup_outcome(m, feed, name).1, name, candidates);
            &&& g == Ok::<C, ResolutionError>(candidates[0])
            &&& after.contains_key(name)
            &&& after[name] == candidates[0]
        }),
{
}

/// The free-text geocoding query for a station: its name followed by the
/// locality the stations lie in.
pub fn geocoding_query(name: &String) -> (r: String)
    ensures
        r@ == name@ + ", London, UK"@,
{
    name.clone().concat(", London, UK")
}

/// Resolves station names to coordinates: the cache first, then the
/// reference feed, and the geocoder, through the caller, last. Every new
/// resolution is written to the cache.
pub struct StationResolver<C> {
    pub cache: CoordinateCache<C>,
    pub feed: Vec<Station<C>>,
}

impl<C: Copy> StationResolver<C> {
    pub open spec fn wf(&self) -> bool {
        self.cache.wf()
    }

    pub fn new(cache: CoordinateCache<C>, feed: Vec<Station<C>>) -> (r: Self)
        ensures
            r.cache == cache,
            r.feed == feed,
    {
        StationResolver { cache, feed }
    }

    fn find_in_feed(&self, name: &String) -> (r: Option<C>)
        ensures
            r == feed_lookup(self.feed@, name@),
    {
        let mut i: usize = 0;
        while i < self.feed.len()
            invariant
                i <= self.feed@.len(),
                feed_lookup(self.feed@, name@) == feed_lookup_from(self.feed@, name@, i as int),
            decreases self.feed@.len() - i,
        {
            if self.feed[i].name == *name {
                return Some(self.feed[i].coord);
            }
            i = i + 1;
        }
        None
    }

    /// Resolves `name` from the cache or, failing that, from the reference feed.
    pub fn resolve_local(&mut self, name: &String) -> (r: Lookup<C>)
        requires
            old(self).wf(),
        ensures
            final(self).wf(),
            final(self).feed == old(self).feed,
            (r, final(self).cache@) == lookup_outcome(old(self).cache@, old(self).feed@, name@),
    {
        match self.cache.get(name) {
            Some(c) => Lookup::Cached(c),
            None => match self.find_in_feed(name) {
                Some(c) => {
                    self.cache.put(name.clone(), c);
                    Lookup::Reference(c)
                },
                None => Lookup::NeedsGeocoding,
            },
        }
    }

    /// Takes the geocoder's candidates for `name`: the first one is cached and
    /// returned; no candidate is a resolution error.
    pub fn accept_geocoding(&mut self, name: &String, candidates: &Vec<C>) -> (r: Result<
        C,
        ResolutionError,
    >)
        requires
            old(self).wf(),
        ensures
            final(self).wf(),
            final(self).feed == old(self).feed,
            (r, final(self).cache@) == geocoding_outcome(old(self).cache@, name@, candidates@),
    {
        if candidates.len() == 0 {
            Err(ResolutionError)
        } else {
            let c = candidates[0];
            self.cache.put(name.clone(), c);
            Ok(c)
        }
    }
}

} // verus!
