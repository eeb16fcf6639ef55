//! The version cache shared by all diagnostic passes: package name to the versions
//! the registry listed for it, oldest first.
use vstd::prelude::*;
use vstd::hash_map::StringHashMap;
use crate::registry::views;

verus! {

/// The versions that a resolution hands back for `name`: the cached list, or an
/// empty one where the name has none.
pub open spec fn cached_versions(c: Map<Seq<char>, Seq<Seq<char>>>, name: Seq<char>) -> Seq<Seq<char>> {
    if c.contains_key(name) {
        c[name]
    } else {
        Seq::empty()
    }
}

/// The cache after a fetch of `name` came back with `outcome`; a failed fetch
/// (`None`) leaves it as it was.
pub open spec fn after_fetch(
    c: Map<Seq<char>, Seq<Seq<char>>>,
    name: Seq<char>,
    outcome: Option<Seq<Seq<char>>>,
) -> Map<Seq<char>, Seq<Seq<char>>> {
    match outcome {
        Some(v) => c.insert(name, v),
        None => c,
    }
}

/// Package name to published versions; entries are added, never dropped.
pub struct VersionCache {
    entries: StringHashMap<Vec<String>>,
}

impl View for VersionCache {
    type V = Map<Seq<char>, Seq<Seq<char>>>;

    closed spec fn view(&self) -> Map<Seq<char>, Seq<Seq<char>>> {
        self.entries@.map_values(|v: Vec<String>| views(v@))
    }
}

/// A copy of `v`.
pub fn copy_strings(v: &Vec<String>) -> (r: Vec<String>)
    ensures
        views(r@) == views(v@),
{
    let mut r: Vec<String> = Vec::new();
    let mut i: usize = 0;
    while i < v.len()
        invariant
            i <= v@.len(),
            views(r@) == views(v@.subrange(0, i as int)),
        decreases v@.len() - i,
    {
        let ghost before = views(r@);
        r.push(v[i].clone());
        assert(views(r@) =~= before.push(v@[i as int]@));
        assert(views(v@.subrange(0, i as int + 1)) =~= views(v@.subrange(0, i as int)).push(v@[i as int]@));
        i = i + 1;
    }
    assert(v@.subrange(0, v@.len() as int) =~= v@);
    r
}

/// Pushing `x` adds exactly `x` to what a sequence contains.
proof fn lemma_push_contains(s: Seq<Seq<char>>, x: Seq<char>)
    ensures
        forall|n: Seq<char>| s.push(x).contains(n) <==> (s.contains(n) || n == x),
{
    assert forall|n: Seq<char>| s.push(x).contains(n) <==> (s.contains(n) || n == x) by {
        if s.push(x).contains(n) {
            let k = choose|k: int| 0 <= k < s.push(x).len() && s.push(x)[k] == n;
            if k < s.len() {
                assert(s[k] == n);
            }
        }
        if s.contains(n) {
            let k = choose|k: int| 0 <= k < s.len() && s[k] == n;
            assert(s.push(x)[k] == n);
        }
        if n == x {
            assert(s.push(x)[s.len() as int] == n);
        }
    }
}

/// Whether `name` is among `v`.
pub fn contains_name(v: &Vec<String>, name: &String) -> (r: bool)
    ensures
        r == views(v@).contains(name@),
{
    let mut i: usize = 0;
    while i < v.len()
        invariant
            i <= v@.len(),
            forall|j: int| 0 <= j < i ==> v@[j]@ != name@,
        decreases v@.len() - i,
    {
        if v[i] == *name {
            assert(views(v@)[i as int] == name@);
            return true;
        }
        i = i + 1;
    }
    assert forall|j: int| 0 <= j < views(v@).len() implies views(v@)[j] != name@ by {
        assert(views(v@)[j] == v@[j]@);
    }
    false
}

impl VersionCache {
    /// An empty cache.
    pub fn new() -> (r: Self)
        ensures
            r@ == Map::<Seq<char>, Seq<Seq<char>>>::empty(),
    {
        let r = VersionCache { entries: StringHashMap::new() };
        assert(r@ =~= Map::<Seq<char>, Seq<Seq<char>>>::empty());
        r
    }

    /// The names among `names` that the cache lacks, each once: the names that a
    /// resolution has to fetch.
    pub fn misses(&self, names: &Vec<String>) -> (r: Vec<String>)
        ensures
            views(r@).no_duplicates(),
            forall|n: Seq<char>|
                views(r@).contains(n) <==> (views(names@).contains(n) && !self@.contains_key(n)),
    {
        let mut r: Vec<String> = Vec::new();
        let mut i: usize = 0;
        while i < names.len()
            invariant
                i <= names@.len(),
                views(r@).no_duplicates(),
                forall|n: Seq<char>|
                    views(r@).contains(n) <==> (views(names@.subrange(0, i as int)).contains(n)
                        && !self@.contains_key(n)),
            decreases names@.len() - i,
        {
            let ghost before = views(r@);
            let name = &names[i];
            assert(views(names@.subrange(0, i as int + 1)) =~= views(names@.subrange(0, i as int)).push(name@));
            proof {
                lemma_push_contains(views(names@.subrange(0, i as int)), name@);
                lemma_push_contains(before, name@);
            }
            let cached = self.entries.contains_key(name.as_str());
            assert(cached == self@.contains_key(name@));
            if !cached {
                let present = contains_name(&r, name);
                if !present {
                    r.push(name.clone());
                    assert(views(r@) =~= before.push(name@));
                    assert(views(r@).no_duplicates());
                }
            }
            assert forall|n: Seq<char>|
                views(r@).contains(n) <==> (views(names@.subrange(0, i as int + 1)).contains(n)
                    && !self@.contains_key(n)) by {
                if n != name@ {
                    assert(views(r@).contains(n) == before.contains(n));
                }
            }
            i = i + 1;
        }
        assert(names@.subrange(0, names@.len() as int) =~= names@);
        r
    }

    /// Takes in what a fetch of `name` gave: the versions where it succeeded; a failed
    /// fetch is not remembered, so that a later resolution tries again.
    pub fn record(&mut self, name: String, outcome: Option<Vec<String>>)
        ensures
            final(self)@ == after_fetch(
                old(self)@,
                name@,
                match outcome {
                    Some(v) => Some(views(v@)),
                    None => None,
                },
            ),
    {
        match outcome {
            Some(v) => {
                let ghost vv = views(v@);
                self.entries.insert(name, v);
                assert(self@ =~= old(self)@.insert(name@, vv));
            },
            None => {},
        }
    }

    /// The cached versions of `name`, oldest first; empty where none are cached.
    pub fn versions_of(&self, name: &str) -> (r: Vec<String>)
        ensures
            views(r@) == cached_versions(self@, name@),
    {
        match self.entries.get(name) {
            Some(v) => copy_strings(v),
            None => Vec::new(),
        }
    }
}

/// Resolving a name a second time asks the registry nothing and gives what the first
/// resolution gave: once `name` was cached, or fetched with success, it is no longer
/// a miss, and fetches of other names keep its versions.
pub proof fn lemma_resolution_is_cached(
    c: Map<Seq<char>, Seq<Seq<char>>>,
    name: Seq<char>,
    outcome: Option<Seq<Seq<char>>>,
    other: Seq<char>,
    other_outcome: Option<Seq<Seq<char>>>,
)
    requires
        c.contains_key(name) || outcome is Some,
        other != name,
    ensures
        ({
            let first = if c.contains_key(name) { c } else { after_fetch(c, name, outcome) };
            let later = after_fetch(first, other, other_outcome);
            &&& first.contains_key(name)
            &&& later.contains_key(name)
            &&& cached_versions(later, name) == cached_versions(first, name)
        }),
{
}

} // verus!
