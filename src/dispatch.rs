//! Routing of watch events: which applied or deleted objects start a grow or
//! a sweep, and which new namespaces are to receive every known seed.
use vstd::prelude::*;

use crate::grower::names_view;
use crate::kind::SproutKind;
use crate::object::ObjectMeta;
use crate::registry::{Seed, SeedKey, SeedRegistry, key_of};
use crate::text::str_eq;
use crate::utils::{is_seed, seed_marked};

verus! {

/// What an event on a ConfigMap or Secret leads to.
#[derive(Debug, Clone, Copy, PartialEq, Eq, Structural)]
pub enum Dispatch {
    /// The object is a seed: it is registered and its sprouts are grown.
    Grow,
    /// A known seed was demoted or deleted: it is dropped and its sprouts are swept.
    Sweep,
    /// Nothing to do.
    Ignore,
}

/// Routing of an applied object, from whether it is a known seed and whether
/// it is marked as a seed now.
pub open spec fn apply_dispatch(known: bool, seed: bool) -> Dispatch {
    if seed {
        Dispatch::Grow
    } else if known {
        Dispatch::Sweep
    } else {
        Dispatch::Ignore
    }
}

/// Routing of a deleted object, from whether it is marked as a seed.
pub open spec fn delete_dispatch(seed: bool) -> Dispatch {
    if seed {
        Dispatch::Sweep
    } else {
        Dispatch::Ignore
    }
}

/// The registry once a routing decision on `key` is recorded.
pub open spec fn registry_after(reg: Set<SeedKey>, key: SeedKey, d: Dispatch) -> Set<SeedKey> {
    match d {
        Dispatch::Grow => reg.insert(key),
        Dispatch::Sweep => reg.remove(key),
        Dispatch::Ignore => reg,
    }
}

impl SeedRegistry {
    /// Whether the object of kind `kind` is a known seed.
    pub fn is_known_seed(&self, kind: SproutKind, meta: &ObjectMeta) -> (r: bool)
        requires
            self.wf(),
        ensures
            r == self@.contains(key_of(kind, *meta)),
    {
        self.contains(&Seed::of(kind, meta))
    }

    /// Routes an applied object of kind `kind` and records the decision: a
    /// seed is registered, a known seed that lost its marker is dropped.
    pub fn on_apply(&mut self, kind: SproutKind, meta: &ObjectMeta) -> (d: Dispatch)
        requires
            old(self).wf(),
        ensures
            final(self).wf(),
            d == apply_dispatch(old(self)@.contains(key_of(kind, *meta)), seed_marked(meta.annotation_map())),
            final(self)@ == registry_after(old(self)@, key_of(kind, *meta), d),
    {
        let seed = Seed::of(kind, meta);
        let known = self.contains(&seed);
        if is_seed(meta) {
            self.insert(seed);
            Dispatch::Grow
        } else if known {
            self.remove(&seed);
            Dispatch::Sweep
        } else {
            Dispatch::Ignore
        }
    }

    /// Routes a deleted object of kind `kind` and records the decision: a
    /// deleted seed is dropped.
    pub fn on_delete(&mut self, kind: SproutKind, meta: &ObjectMeta) -> (d: Dispatch)
        requires
            old(self).wf(),
        ensures
            final(self).wf(),
            d == delete_dispatch(seed_marked(meta.annotation_map())),
            final(self)@ == registry_after(old(self)@, key_of(kind, *meta), d),
    {
        if is_seed(meta) {
            self.remove(&Seed::of(kind, meta));
            Dispatch::Sweep
        } else {
            Dispatch::Ignore
        }
    }
}

/// A known seed applied without its marker is dropped from the registry and
/// its sprouts are swept.
pub proof fn lemma_demoted_seed_is_swept(reg: Set<SeedKey>, key: SeedKey, annotations: Map<Seq<char>, Seq<char>>)
    requires
        reg.contains(key),
        !seed_marked(annotations),
    ensures
        apply_dispatch(reg.contains(key), seed_marked(annotations)) == Dispatch::Sweep,
        !registry_after(reg, key, Dispatch::Sweep).contains(key),
{
}

/// A seed applied with its marker is registered and grown, whether known or not.
pub proof fn lemma_marked_seed_is_grown(reg: Set<SeedKey>, key: SeedKey, annotations: Map<Seq<char>, Seq<char>>)
    requires
        seed_marked(annotations),
    ensures
        apply_dispatch(reg.contains(key), seed_marked(annotations)) == Dispatch::Grow,
        registry_after(reg, key, Dispatch::Grow).contains(key),
{
}

/// The namespaces already seen active, so that repeated events on an active
/// namespace fan out only once.
pub struct NamespaceTracker {
    seen: Vec<String>,
}

impl View for NamespaceTracker {
    type V = Set<Seq<char>>;

    closed spec fn view(&self) -> Set<Seq<char>> {
        names_view(self.seen@).to_set()
    }
}

/// The phase in which a namespace receives sprouts.
pub open spec fn is_active(phase: Option<Seq<char>>) -> bool {
    phase == Some("Active"@)
}

impl NamespaceTracker {
    pub fn new() -> (t: NamespaceTracker)
        ensures
            t@ == Set::<Seq<char>>::empty(),
    {
        let t = NamespaceTracker { seen: Vec::new() };
        assert(names_view(t.seen@) =~= Seq::empty());
        assert(t@ =~= Set::empty());
        t
    }

    /// Whether `name` was seen active and not deleted since.
    pub fn has_seen(&self, name: &str) -> (r: bool)
        ensures
            r == self@.contains(name@),
    {
        let ghost v = names_view(self.seen@);
        let mut i: usize = 0;
        while i < self.seen.len()
            invariant
                0 <= i <= self.seen@.len(),
                v == names_view(self.seen@),
                forall|j: int| 0 <= j < i ==> v[j] != name@,
            decreases self.seen@.len() - i,
        {
            if str_eq(self.seen[i].as_str(), name) {
                assert(v[i as int] == name@);
                assert(v.contains(name@));
                return true;
            }
            i = i + 1;
        }
        assert(!v.contains(name@));
        false
    }

    /// An applied namespace in phase `phase`: true iff it is active and was not
    /// seen active before, in which case every known seed is to be sprouted into it.
    pub fn on_apply(&mut self, name: String, phase: &Option<String>) -> (fan_out: bool)
        ensures
            fan_out == (is_active(crate::utils::opt_view(*phase)) && !old(self)@.contains(name@)),
            final(self)@ == if fan_out {
                old(self)@.insert(name@)
            } else {
                old(self)@
            },
    {
        let active = match phase {
            Some(p) => {
                let a = "Active";
                str_eq(p.as_str(), a)
            },
            None => false,
        };
        if !active || self.has_seen(name.as_str()) {
            return false;
        }
        let ghost v = names_view(self.seen@);
        let ghost n = name@;
        self.seen.push(name);
        proof {
            let v2 = names_view(self.seen@);
            assert(v2 =~= v.push(n));
            assert(v2.to_set() =~= v.to_set().insert(n)) by {
                assert forall|x: Seq<char>| v2.to_set().contains(x) <==> v.to_set().insert(n).contains(x) by {
                    if v2.contains(x) && x != n {
                        let j = choose|j: int| 0 <= j < v2.len() && v2[j] == x;
                        assert(v[j] == x);
                    }
                    if v.contains(x) {
                        let j = choose|j: int| 0 <= j < v.len() && v[j] == x;
                        assert(v2[j] == x);
                    }
                    if x == n {
                        assert(v2[v.len() as int] == x);
                    }
                }
            }
        }
        true
    }

    /// A deleted namespace is forgotten, so that it fans out again if it returns.
    pub fn on_delete(&mut self, name: &str)
        ensures
            final(self)@ == old(self)@.remove(name@),
    {
        let ghost v = names_view(self.seen@);
        let mut kept: Vec<String> = Vec::new();
        let mut i: usize = 0;
        while i < self.seen.len()
            invariant
                0 <= i <= self.seen@.len(),
                v == names_view(self.seen@),
                forall|x: Seq<char>| #[trigger] names_view(kept@).contains(x) <==> (exists|j: int| 0 <= j < i && v[j] == x && x != name@),
            decreases self.seen@.len() - i,
        {
            let ghost k = names_view(kept@);
            if !str_eq(self.seen[i].as_str(), name) {
                kept.push(self.seen[i].clone());
                proof {
                    let k2 = names_view(kept@);
                    assert(k2 =~= k.push(v[i as int]));
                    assert forall|x: Seq<char>| k2.contains(x) <==> (exists|j: int| 0 <= j < i + 1 && v[j] == x && x != name@) by {
                        if k2.contains(x) {
                            let j = choose|j: int| 0 <= j < k2.len() && k2[j] == x;
                            if j < k.len() {
                                assert(k.contains(x));
                            } else {
                                assert(v[i as int] == x);
                            }
                        }
                        if exists|j: int| 0 <= j < i + 1 && v[j] == x && x != name@ {
                            let j = choose|j: int| 0 <= j < i + 1 && v[j] == x && x != name@;
                            if j < i {
                                assert(k.contains(x));
                                let m = choose|m: int| 0 <= m < k.len() && k[m] == x;
                                assert(k2[m] == x);
                            } else {
                                assert(k2[k.len() as int] == x);
                            }
                        }
                    }
                }
            } else {
                proof {
                    assert forall|x: Seq<char>| k.contains(x) <==> (exists|j: int| 0 <= j < i + 1 && v[j] == x && x != name@) by {
                        if exists|j: int| 0 <= j < i + 1 && v[j] == x && x != name@ {
                            let j = choose|j: int| 0 <= j < i + 1 && v[j] == x && x != name@;
                            if j == i {
                                assert(v[i as int] == name@);
                            }
                        }
                    }
                }
            }
            i = i + 1;
        }
        proof {
            let k = names_view(kept@);
            assert(k.to_set() =~= v.to_set().remove(name@)) by {
                assert forall|x: Seq<char>| k.to_set().contains(x) <==> v.to_set().remove(name@).contains(x) by {
                    if v.contains(x) && x != name@ {
                        let j = choose|j: int| 0 <= j < v.len() && v[j] == x;
                        assert(exists|j: int| 0 <= j < i && v[j] == x && x != name@);
                    }
                }
            }
        }
        self.seen = kept;
    }
}

} // verus!
