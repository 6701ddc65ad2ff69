//! A map keyed by bundle path that remembers the order in which paths were
//! first filed, so that walking it is reproducible.

use vstd::prelude::*;

verus! {

/// What a [`PathMap`] holds: the paths in walking order, and the value filed
/// under each.
#[verifier::ext_equal]
pub struct Listing<T> {
    pub paths: Seq<Seq<char>>,
    pub map: Map<Seq<char>, T>,
}

impl<T> Listing<T> {
    /// No path is listed twice, and the listed paths are the map's keys.
    pub open spec fn valid(self) -> bool {
        &&& self.paths.no_duplicates()
        &&& self.map.dom() == self.paths.to_set()
    }

    /// The listing without entries.
    pub open spec fn empty() -> Self {
        Listing { paths: Seq::empty(), map: Map::empty() }
    }

    /// Files `item` under `path`: a new path goes last, a known one keeps its
    /// place.
    pub open spec fn insert(self, path: Seq<char>, item: T) -> Self {
        Listing {
            paths: if self.map.contains_key(path) {
                self.paths
            } else {
                self.paths.push(path)
            },
            map: self.map.insert(path, item),
        }
    }

    /// Drops `path`; the other paths keep their order.
    pub open spec fn remove(self, path: Seq<char>) -> Self {
        Listing {
            paths: if self.map.contains_key(path) {
                self.paths.remove(self.paths.index_of(path))
            } else {
                self.paths
            },
            map: self.map.remove(path),
        }
    }

    /// Filing keeps a listing valid.
    pub proof fn lemma_insert_valid(self, path: Seq<char>, item: T)
        requires
            self.valid(),
        ensures
            self.insert(path, item).valid(),
    {
        let after = self.insert(path, item);
        if self.map.contains_key(path) {
            assert(after.map.dom() =~= self.map.dom());
        } else {
            assert forall|q: Seq<char>| after.paths.contains(q) <==> (q == path
                || self.paths.contains(q)) by {
                if self.paths.contains(q) {
                    assert(after.paths[self.paths.index_of(q)] == q);
                }
                if q == path {
                    assert(after.paths[self.paths.len() as int] == q);
                }
            }
            assert(after.map.dom() =~= after.paths.to_set());
        }
    }

    /// Dropping a path keeps a listing valid, and the path is gone.
    pub proof fn lemma_remove_valid(self, path: Seq<char>)
        requires
            self.valid(),
        ensures
            self.remove(path).valid(),
            !self.remove(path).paths.contains(path),
            forall|q: Seq<char>|
                self.remove(path).paths.contains(q) <==> (q != path && self.paths.contains(q)),
    {
        let after = self.remove(path);
        if self.map.contains_key(path) {
            let i = self.paths.index_of(path);
            assert forall|q: Seq<char>| after.paths.contains(q) <==> (q != path
                && self.paths.contains(q)) by {
                if q != path && self.paths.contains(q) {
                    let j = self.paths.index_of(q);
                    assert(after.paths[if j < i {
                        j
                    } else {
                        j - 1
                    }] == q);
                }
            }
            assert(after.map.dom() =~= after.paths.to_set());
        } else {
            assert(after.map.dom() =~= self.map.dom());
        }
    }
}

/// Values filed under bundle paths, walked in the order of first filing.
#[derive(Debug)]
pub struct PathMap<V> {
    keys: Vec<String>,
    values: Vec<V>,
}

impl<V> PathMap<V> {
    /// Each path has its value, and no path is filed twice. Holds of every
    /// map.
    #[verifier::type_invariant]
    pub closed spec fn well_formed(&self) -> bool {
        &&& self.keys.len() == self.values.len()
        &&& self.keys.deep_view().no_duplicates()
    }
}

impl<V: View> View for PathMap<V> {
    type V = Listing<V::V>;

    closed spec fn view(&self) -> Listing<V::V> {
        Listing {
            paths: self.keys.deep_view(),
            map: Map::new(
                |p: Seq<char>| self.keys.deep_view().contains(p),
                |p: Seq<char>| self.values@[self.keys.deep_view().index_of(p)]@,
            ),
        }
    }
}

impl<V: View> PathMap<V> {
    /// A well-formed map holds a valid listing.
    pub proof fn lemma_well_formed(&self)
        requires
            self.well_formed(),
        ensures
            self@.valid(),
    {
    }

    /// An empty map.
    pub fn new() -> (m: Self)
        ensures
            m@ == Listing::<V::V>::empty(),
            m@.valid(),
    {
        PathMap { keys: Vec::new(), values: Vec::new() }
    }

    /// The number of entries. No path is filed twice.
    pub fn len(&self) -> (n: usize)
        ensures
            n == self@.paths.len(),
            self@.valid(),
    {
        proof {
            use_type_invariant(self);
        }
        self.keys.len()
    }

    /// Whether the map holds no entry.
    pub fn is_empty(&self) -> (b: bool)
        ensures
            b == (self@.paths.len() == 0),
            self@.valid(),
    {
        proof {
            use_type_invariant(self);
        }
        self.keys.len() == 0
    }

    /// The `i`-th entry in walking order, if there are that many.
    pub fn entry(&self, i: usize) -> (e: Option<(&String, &V)>)
        ensures
            self@.valid(),
            e is Some == (i < self@.paths.len()),
            match e {
                Some((path, value)) => {
                    &&& path@ == self@.paths[i as int]
                    &&& self@.map.contains_key(path@)
                    &&& self@.map[path@] == value@
                },
                None => true,
            },
    {
        proof {
            use_type_invariant(self);
        }
        if i < self.keys.len() {
            Some((&self.keys[i], &self.values[i]))
        } else {
            None
        }
    }

    fn position(&self, path: &String) -> (at: Option<usize>)
        ensures
            match at {
                Some(i) => i < self.keys.len() && self.keys.deep_view()[i as int] == path@,
                None => !self.keys.deep_view().contains(path@),
            },
    {
        let mut i: usize = 0;
        while i < self.keys.len()
            invariant
                i <= self.keys.len(),
                forall|k: int| 0 <= k < i ==> self.keys.deep_view()[k] != path@,
            decreases self.keys.len() - i,
        {
            if self.keys[i] == *path {
                return Some(i);
            }
            i += 1;
        }
        None
    }

    /// Whether a value is filed under `path`.
    pub fn contains_key(&self, path: &String) -> (b: bool)
        ensures
            b == self@.map.contains_key(path@),
    {
        self.position(path).is_some()
    }

    /// The value filed under `path`, if any.
    pub fn get(&self, path: &String) -> (v: Option<&V>)
        ensures
            v is Some == self@.map.contains_key(path@),
            v is Some ==> v->0@ == self@.map[path@],
    {
        proof {
            use_type_invariant(self);
        }
        match self.position(path) {
            Some(i) => Some(&self.values[i]),
            None => None,
        }
    }

    /// Files `value` under `path`. A path that is new is walked last; one that
    /// was there keeps its place and hands back the value it had.
    pub fn insert(&mut self, path: String, value: V) -> (previous: Option<V>)
        ensures
            final(self)@ == old(self)@.insert(path@, value@),
            final(self)@.valid(),
            previous is Some == old(self)@.map.contains_key(path@),
            previous is Some ==> previous->0@ == old(self)@.map[path@],
    {
        proof {
            use_type_invariant(&*self);
            self@.lemma_insert_valid(path@, value@);
        }
        let at = self.position(&path);
        let ghost before = *self;
        let mut taken = PathMap { keys: Vec::new(), values: Vec::new() };
        std::mem::swap(self, &mut taken);
        let PathMap { mut keys, mut values } = taken;
        let previous = match at {
            Some(i) => {
                let mut held = value;
                std::mem::swap(&mut held, &mut values[i]);
                Some(held)
            },
            None => {
                keys.push(path);
                values.push(value);
                None
            },
        };
        proof {
            if at is None {
                assert(before@.insert(path@, value@).paths == keys.deep_view());
            }
        }
        *self = PathMap { keys, values };
        previous
    }

    /// Drops what is filed under `path` and hands it back. The other paths keep
    /// their order.
    pub fn remove(&mut self, path: &String) -> (previous: Option<V>)
        ensures
            final(self)@ == old(self)@.remove(path@),
            final(self)@.valid(),
            previous is Some == old(self)@.map.contains_key(path@),
            previous is Some ==> previous->0@ == old(self)@.map[path@],
    {
        proof {
            use_type_invariant(&*self);
            self@.lemma_remove_valid(path@);
        }
        let at = self.position(path);
        let ghost before = *self;
        match at {
            Some(i) => {
                let mut taken = PathMap { keys: Vec::new(), values: Vec::new() };
                std::mem::swap(self, &mut taken);
                let PathMap { mut keys, mut values } = taken;
                keys.remove(i);
                let held = values.remove(i);
                proof {
                    assert(keys.deep_view() =~= before.keys.deep_view().remove(i as int));
                }
                *self = PathMap { keys, values };
                Some(held)
            },
            None => None,
        }
    }
}

} // verus!
