//! The registry of known seeds, keyed by kind, namespace and name.
use vstd::prelude::*;

use crate::kind::SproutKind;
use crate::object::ObjectMeta;

verus! {

/// Identity of a seed as a mathematical value: kind, namespace, name.
pub type SeedKey = (SproutKind, Seq<char>, Seq<char>);

/// Identity of a seed: kind, namespace and name.
#[derive(Clone, Debug, Eq, Hash)]
pub struct Seed {
    name: String,
    namespace: String,
    resource_type: SproutKind,
}

impl View for Seed {
    type V = SeedKey;

    closed spec fn view(&self) -> SeedKey {
        (self.resource_type, self.namespace@, self.name@)
    }
}

impl PartialEq for Seed {
    fn eq(&self, other: &Seed) -> (r: bool) {
        self.resource_type == other.resource_type && self.name == other.name && self.namespace == other.namespace
    }
}

impl vstd::std_specs::cmp::PartialEqSpecImpl for Seed {
    open spec fn obeys_eq_spec() -> bool {
        true
    }

    open spec fn eq_spec(&self, other: &Seed) -> bool {
        self@ == other@
    }
}

/// The registry key of an object of kind `kind` with metadata `meta`.
pub open spec fn key_of(kind: SproutKind, meta: ObjectMeta) -> SeedKey {
    (kind, meta.namespace@, meta.name@)
}

impl Seed {
    pub fn new(resource_type: SproutKind, namespace: String, name: String) -> (s: Seed)
        ensures
            s@ == (resource_type, namespace@, name@),
    {
        Seed { name, namespace, resource_type }
    }

    /// The identity of an object of kind `kind`.
    pub fn of(kind: SproutKind, meta: &ObjectMeta) -> (s: Seed)
        ensures
            s@ == key_of(kind, *meta),
    {
        Seed { name: meta.name.clone(), namespace: meta.namespace.clone(), resource_type: kind }
    }

    pub fn name(&self) -> (r: &String)
        ensures
            r@ == self@.2,
    {
        &self.name
    }

    pub fn namespace(&self) -> (r: &String)
        ensures
            r@ == self@.1,
    {
        &self.namespace
    }

    pub fn resource_type(&self) -> (r: SproutKind)
        ensures
            r == self@.0,
    {
        self.resource_type
    }

    /// A copy with the same identity.
    pub fn copy(&self) -> (s: Seed)
        ensures
            s@ == self@,
    {
        Seed { name: self.name.clone(), namespace: self.namespace.clone(), resource_type: self.resource_type }
    }
}

/// Keys of a sequence of seeds.
pub open spec fn keys_view(s: Seq<Seed>) -> Seq<SeedKey> {
    s.map_values(|x: Seed| x@)
}

/// The set of seeds that the controller currently knows.
pub struct SeedRegistry {
    seeds: Vec<Seed>,
}

impl View for SeedRegistry {
    type V = Set<SeedKey>;

    closed spec fn view(&self) -> Set<SeedKey> {
        keys_view(self.seeds@).to_set()
    }
}

impl SeedRegistry {
    /// No seed is held twice.
    pub closed spec fn wf(&self) -> bool {
        keys_view(self.seeds@).no_duplicates()
    }

    /// The empty registry.
    pub fn new() -> (r: SeedRegistry)
        ensures
            r.wf(),
            r@ == Set::<SeedKey>::empty(),
    {
        let r = SeedRegistry { seeds: Vec::new() };
        assert(keys_view(r.seeds@) =~= Seq::empty());
        assert(r@ =~= Set::empty());
        r
    }

    /// Position of `seed`, if held.
    fn find(&self, seed: &Seed) -> (r: Option<usize>)
        requires
            self.wf(),
        ensures
            r.is_none() <==> !self@.contains(seed@),
            r matches Some(i) ==> i < self.seeds@.len() && self.seeds@[i as int]@ == seed@,
    {
        let ghost k = keys_view(self.seeds@);
        let mut i: usize = 0;
        while i < self.seeds.len()
            invariant
                0 <= i <= self.seeds@.len(),
                k == keys_view(self.seeds@),
                forall|j: int| 0 <= j < i ==> k[j] != seed@,
            decreases self.seeds@.len() - i,
        {
            if self.seeds[i] == *seed {
                assert(k[i as int] == seed@);
                assert(k.contains(seed@));
                return Some(i);
            }
            i = i + 1;
        }
        assert(!k.contains(seed@));
        None
    }

    /// Whether `seed` is known.
    pub fn contains(&self, seed: &Seed) -> (r: bool)
        requires
            self.wf(),
        ensures
            r == self@.contains(seed@),
    {
        self.find(seed).is_some()
    }

    /// Adds `seed`; true iff it was not known before.
    pub fn insert(&mut self, seed: Seed) -> (r: bool)
        requires
            old(self).wf(),
        ensures
            final(self).wf(),
            final(self)@ == old(self)@.insert(seed@),
            r == !old(self)@.contains(seed@),
    {
        if self.find(&seed).is_some() {
            assert(self@.insert(seed@) =~= self@);
            return false;
        }
        let ghost k = keys_view(self.seeds@);
        let ghost key = seed@;
        self.seeds.push(seed);
        proof {
            let k2 = keys_view(self.seeds@);
            assert(k2 =~= k.push(key));
            assert(k2.to_set() =~= k.to_set().insert(key)) by {
                assert forall|x: SeedKey| k2.to_set().contains(x) <==> k.to_set().insert(key).contains(x) by {
                    if k2.contains(x) && x != key {
                        let j = choose|j: int| 0 <= j < k2.len() && k2[j] == x;
                        assert(k[j] == x);
                    }
                    if k.contains(x) {
                        let j = choose|j: int| 0 <= j < k.len() && k[j] == x;
                        assert(k2[j] == x);
                    }
                    if x == key {
                        assert(k2[k.len() as int] == x);
                    }
                }
            }
        }
        true
    }

    /// Drops `seed`; true iff it was known.
    pub fn remove(&mut self, seed: &Seed) -> (r: bool)
        requires
            old(self).wf(),
        ensures
            final(self).wf(),
            final(self)@ == old(self)@.remove(seed@),
            r == old(self)@.contains(seed@),
    {
        match self.find(seed) {
            None => {
                assert(self@.remove(seed@) =~= self@);
                false
            },
            Some(i) => {
                let ghost k = keys_view(self.seeds@);
                let ghost key = seed@;
                assert(k[i as int] == key);
                self.seeds.remove(i);
                proof {
                    let k2 = keys_view(self.seeds@);
                    assert(k2 =~= k.remove(i as int));
                    assert(k2.to_set() =~= k.to_set().remove(key)) by {
                        assert forall|x: SeedKey| k2.to_set().contains(x) <==> k.to_set().remove(key).contains(x) by {
                            if k2.contains(x) {
                                let j = choose|j: int| 0 <= j < k2.len() && k2[j] == x;
                                if j < i {
                                    assert(k[j] == x);
                                    assert(k[j] != k[i as int]);
                                } else {
                                    assert(k[j + 1] == x);
                                    assert(k[j + 1] != k[i as int]);
                                }
                            }
                            if k.contains(x) && x != key {
                                let j = choose|j: int| 0 <= j < k.len() && k[j] == x;
                                if j < i {
                                    assert(k2[j] == x);
                                } else {
                                    assert(j != i);
                                    assert(k2[j - 1] == x);
                                }
                            }
                        }
                    }
                }
                true
            },
        }
    }

    /// The number of known seeds.
    pub fn len(&self) -> (n: usize)
        requires
            self.wf(),
        ensures
            n == self@.len(),
    {
        proof {
            keys_view(self.seeds@).unique_seq_to_set();
        }
        self.seeds.len()
    }

    /// The known seeds that live outside `namespace`: those to sprout into it.
    pub fn seeds_outside(&self, namespace: &String) -> (r: Vec<Seed>)
        requires
            self.wf(),
        ensures
            keys_view(r@).no_duplicates(),
            keys_view(r@).to_set() == self@.filter(|k: SeedKey| k.1 != namespace@),
    {
        let ghost k = keys_view(self.seeds@);
        let mut out: Vec<Seed> = Vec::new();
        let mut i: usize = 0;
        while i < self.seeds.len()
            invariant
                0 <= i <= self.seeds@.len(),
                k == keys_view(self.seeds@),
                k.no_duplicates(),
                keys_view(out@).no_duplicates(),
                forall|x: SeedKey| keys_view(out@).contains(x) <==> (exists|j: int| 0 <= j < i && k[j] == x && x.1 != namespace@),
            decreases self.seeds@.len() - i,
        {
            if !crate::text::str_eq(self.seeds[i].namespace.as_str(), namespace.as_str()) {
                let ghost o = keys_view(out@);
                let s = self.seeds[i].copy();
                out.push(s);
                proof {
                    let o2 = keys_view(out@);
                    assert(o2 =~= o.push(k[i as int]));
                    assert forall|x: SeedKey| o2.contains(x) <==> (exists|j: int| 0 <= j < i + 1 && k[j] == x && x.1 != namespace@) by {
                        if o2.contains(x) {
                            let j = choose|j: int| 0 <= j < o2.len() && o2[j] == x;
                            if j < o.len() {
                                assert(o.contains(x));
                            } else {
                                assert(k[i as int] == x);
                            }
                        }
                        if exists|j: int| 0 <= j < i + 1 && k[j] == x && x.1 != namespace@ {
                            let j = choose|j: int| 0 <= j < i + 1 && k[j] == x && x.1 != namespace@;
                            if j < i {
                                assert(o.contains(x));
                                let m = choose|m: int| 0 <= m < o.len() && o[m] == x;
                                assert(o2[m] == x);
                            } else {
                                assert(o2[o.len() as int] == x);
                            }
                        }
                    }
                    assert forall|a: int, b: int| 0 <= a < b < o2.len() implies o2[a] != o2[b] by {
                        if b == o.len() {
                            assert(o.contains(o2[a]));
                            if o2[a] == o2[b] {
                                let j = choose|j: int| 0 <= j < i && k[j] == o2[a] && o2[a].1 != namespace@;
                                assert(k[j] == k[i as int]);
                            }
                        }
                    }
                }
            } else {
                proof {
                    assert forall|x: SeedKey| keys_view(out@).contains(x) <==> (exists|j: int| 0 <= j < i + 1 && k[j] == x && x.1 != namespace@) by {
                        if exists|j: int| 0 <= j < i + 1 && k[j] == x && x.1 != namespace@ {
                            let j = choose|j: int| 0 <= j < i + 1 && k[j] == x && x.1 != namespace@;
                            if j == i {
                                assert(k[i as int].1 == namespace@);
                            }
                        }
                    }
                }
            }
            i = i + 1;
        }
        proof {
            assert(keys_view(out@).to_set() =~= self@.filter(|x: SeedKey| x.1 != namespace@)) by {
                assert forall|x: SeedKey| keys_view(out@).to_set().contains(x) <==> self@.filter(|x: SeedKey| x.1 != namespace@).contains(x) by {
                    if k.contains(x) && x.1 != namespace@ {
                        let j = choose|j: int| 0 <= j < k.len() && k[j] == x;
                        assert(exists|j: int| 0 <= j < i && k[j] == x && x.1 != namespace@);
                    }
                }
            }
        }
        out
    }
}

} // verus!
