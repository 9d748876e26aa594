//! The reconciliation engine: what to do in each target namespace when a seed
//! is applied (grow) or goes away (sweep).
//!
//! A plan is built from the seed and the namespaces that the cluster lists.
//! The caller asks the plan for the next target, fetches the object with the
//! seed's name there, and hands it back; the plan answers with the action to
//! perform and keeps the tally.
use vstd::prelude::*;

use crate::object::ObjectMeta;
use crate::text::str_eq;
use crate::utils::{
    SPROUT_KEY, create_sprout, hash_matches, is_sprout, is_sprout_recent, lemma_sprout_annotations,
    opt_view, seed_marked, sprout_annotations, sprout_marked, sprout_ref,
};

verus! {

/// Names seen as character sequences.
pub open spec fn names_view(v: Seq<String>) -> Seq<Seq<char>> {
    v.map_values(|s: String| s@)
}

/// The listed namespaces other than `src`, in their listed order.
pub open spec fn other_namespaces(ns: Seq<Seq<char>>, src: Seq<char>) -> Seq<Seq<char>>
    decreases ns.len(),
{
    if ns.len() == 0 {
        Seq::empty()
    } else {
        let r = other_namespaces(ns.drop_last(), src);
        if ns.last() == src {
            r
        } else {
            r.push(ns.last())
        }
    }
}

/// The annotations of an optional object.
pub open spec fn found_view(found: Option<ObjectMeta>) -> Option<Map<Seq<char>, Seq<char>>> {
    match found {
        Some(m) => Some(m.annotation_map()),
        None => None,
    }
}

/// What a grow does in one target namespace.
#[derive(Debug, Clone, Copy, PartialEq, Eq, Structural)]
pub enum GrowAction {
    /// Nothing is there: create the sprout.
    Create,
    /// A sprout with another seed hash is there: replace it.
    Update,
    /// A sprout with the current seed hash is there: leave it.
    Validate,
    /// An object that is no sprout is there: leave it.
    Ignore,
}

/// The classification of a grow target, from the annotations of the object
/// found there, if any, and the seed's current hash.
pub open spec fn grow_action(found: Option<Map<Seq<char>, Seq<char>>>, hash: Option<Seq<char>>) -> GrowAction {
    match found {
        None => GrowAction::Create,
        Some(a) => if !sprout_marked(a) {
            GrowAction::Ignore
        } else if hash_matches(a, hash) {
            GrowAction::Validate
        } else {
            GrowAction::Update
        },
    }
}

/// The annotations at a grow target once the action is performed: a create or
/// an update writes the sprout, the other actions write nothing.
pub open spec fn after_grow(
    found: Option<Map<Seq<char>, Seq<char>>>,
    action: GrowAction,
    sprout: Map<Seq<char>, Seq<char>>,
) -> Option<Map<Seq<char>, Seq<char>>> {
    match action {
        GrowAction::Create | GrowAction::Update => Some(sprout),
        _ => found,
    }
}

/// How many times `a` occurs in `log`.
pub open spec fn count_of<A>(log: Seq<A>, a: A) -> nat
    decreases log.len(),
{
    if log.len() == 0 {
        0
    } else {
        count_of(log.drop_last(), a) + if log.last() == a {
            1nat
        } else {
            0nat
        }
    }
}

/// Counts of the actions of a grow.
#[derive(Debug, Clone, Copy, PartialEq, Eq, Structural)]
pub struct GrowTally {
    pub created: usize,
    pub updated: usize,
    pub validated: usize,
    pub ignored: usize,
}

/// The sprouts of one seed, planned target by target.
pub struct GrowPlan {
    name: String,
    src_namespace: String,
    hash: Option<String>,
    sprout: ObjectMeta,
    targets: Vec<String>,
    pos: usize,
    tally: GrowTally,
    seed_annotations: Ghost<Map<Seq<char>, Seq<char>>>,
    observed: Ghost<Seq<Option<Map<Seq<char>, Seq<char>>>>>,
    actions: Ghost<Seq<GrowAction>>,
}

impl GrowPlan {
    /// The seed's name.
    pub closed spec fn name(&self) -> Seq<char> {
        self.name@
    }

    /// The seed's namespace.
    pub closed spec fn src_namespace(&self) -> Seq<char> {
        self.src_namespace@
    }

    /// The seed's content hash.
    pub closed spec fn hash(&self) -> Option<Seq<char>> {
        opt_view(self.hash)
    }

    /// The seed's annotations.
    pub closed spec fn seed_annotations(&self) -> Map<Seq<char>, Seq<char>> {
        self.seed_annotations@
    }

    /// The metadata of the sprout to write.
    pub closed spec fn sprout_spec(&self) -> ObjectMeta {
        self.sprout
    }

    /// The namespaces to visit, in order.
    pub closed spec fn targets(&self) -> Seq<Seq<char>> {
        names_view(self.targets@)
    }

    /// What was found in each target visited so far.
    pub closed spec fn observed(&self) -> Seq<Option<Map<Seq<char>, Seq<char>>>> {
        self.observed@
    }

    /// The action chosen for each target visited so far.
    pub closed spec fn actions(&self) -> Seq<GrowAction> {
        self.actions@
    }

    pub closed spec fn wf(&self) -> bool {
        &&& self.pos == self.observed@.len()
        &&& self.pos == self.actions@.len()
        &&& self.pos <= self.targets@.len()
        &&& forall|i: int| 0 <= i < self.pos ==> #[trigger] self.actions@[i] == grow_action(self.observed@[i], opt_view(self.hash))
        &&& self.tally.created == count_of(self.actions@, GrowAction::Create)
        &&& self.tally.updated == count_of(self.actions@, GrowAction::Update)
        &&& self.tally.validated == count_of(self.actions@, GrowAction::Validate)
        &&& self.tally.ignored == count_of(self.actions@, GrowAction::Ignore)
        &&& self.tally.created + self.tally.updated + self.tally.validated + self.tally.ignored == self.pos
    }

    /// The plan for the seed `seed` with content hash `hash`, over the listed
    /// namespaces: every namespace but the seed's own, in listed order.
    pub fn new(seed: &ObjectMeta, hash: &Option<String>, namespaces: &Vec<String>) -> (p: GrowPlan)
        ensures
            p.wf(),
            p.name() == seed.name@,
            p.src_namespace() == seed.namespace@,
            p.hash() == opt_view(*hash),
            p.seed_annotations() == seed.annotation_map(),
            p.targets() == other_namespaces(names_view(namespaces@), seed.namespace@),
            p.sprout_spec().name@ == seed.name@,
            p.sprout_spec().namespace@ == seed.namespace@,
            p.sprout_spec().annotation_map() == sprout_annotations(seed.annotation_map(), seed.namespace@, seed.name@, opt_view(*hash)),
            p.actions().len() == 0,
    {
        let targets = other_names(namespaces, &seed.namespace);
        let sprout = create_sprout(seed.clone_meta(), hash);
        GrowPlan {
            name: seed.name.clone(),
            src_namespace: seed.namespace.clone(),
            hash: clone_opt(hash),
            sprout,
            targets,
            pos: 0,
            tally: GrowTally { created: 0, updated: 0, validated: 0, ignored: 0 },
            seed_annotations: Ghost(seed.annotation_map()),
            observed: Ghost(Seq::empty()),
            actions: Ghost(Seq::empty()),
        }
    }

    /// The metadata of the sprout that a create or an update writes.
    pub fn sprout(&self) -> (r: &ObjectMeta)
        ensures
            *r == self.sprout_spec(),
    {
        &self.sprout
    }

    /// The next namespace to visit, or `None` when every target was visited.
    pub fn next_target(&self) -> (r: Option<&String>)
        requires
            self.wf(),
        ensures
            r.is_none() <==> self.actions().len() == self.targets().len(),
            r matches Some(t) ==> self.actions().len() < self.targets().len()
                && t@ == self.targets()[self.actions().len() as int],
    {
        if self.pos < self.targets.len() {
            Some(&self.targets[self.pos])
        } else {
            None
        }
    }

    /// Classifies what was found in the current target and counts it.
    pub fn record(&mut self, found: &Option<ObjectMeta>) -> (a: GrowAction)
        requires
            old(self).wf(),
            old(self).actions().len() < old(self).targets().len(),
        ensures
            final(self).wf(),
            a == grow_action(found_view(*found), old(self).hash()),
            final(self).actions() == old(self).actions().push(a),
            final(self).observed() == old(self).observed().push(found_view(*found)),
            final(self).name() == old(self).name(),
            final(self).src_namespace() == old(self).src_namespace(),
            final(self).hash() == old(self).hash(),
            final(self).seed_annotations() == old(self).seed_annotations(),
            final(self).targets() == old(self).targets(),
            final(self).sprout_spec() == old(self).sprout_spec(),
    {
        let a = match found {
            None => GrowAction::Create,
            Some(m) => if !is_sprout(m) {
                GrowAction::Ignore
            } else if is_sprout_recent(m, &self.hash) {
                GrowAction::Validate
            } else {
                GrowAction::Update
            },
        };
        let n = self.targets.len();
        assert(self.pos < n);
        let ghost old_actions = self.actions@;
        proof {
            self.observed@ = self.observed@.push(found_view(*found));
            self.actions@ = self.actions@.push(a);
            assert(self.actions@.drop_last() =~= old_actions);
        }
        match a {
            GrowAction::Create => self.tally.created = self.tally.created + 1,
            GrowAction::Update => self.tally.updated = self.tally.updated + 1,
            GrowAction::Validate => self.tally.validated = self.tally.validated + 1,
            GrowAction::Ignore => self.tally.ignored = self.tally.ignored + 1,
        }
        self.pos = self.pos + 1;
        a
    }

    /// The counts of the actions chosen so far.
    pub fn tally(&self) -> (t: GrowTally)
        requires
            self.wf(),
        ensures
            t.created == count_of(self.actions(), GrowAction::Create),
            t.updated == count_of(self.actions(), GrowAction::Update),
            t.validated == count_of(self.actions(), GrowAction::Validate),
            t.ignored == count_of(self.actions(), GrowAction::Ignore),
    {
        self.tally
    }
}

/// A copy of an optional string.
fn clone_opt(o: &Option<String>) -> (r: Option<String>)
    ensures
        opt_view(r) == opt_view(*o),
{
    match o {
        Some(s) => Some(s.clone()),
        None => None,
    }
}

/// The names in `names` other than `src`, in order.
pub fn other_names(names: &Vec<String>, src: &String) -> (r: Vec<String>)
    ensures
        names_view(r@) == other_namespaces(names_view(names@), src@),
{
    let mut out: Vec<String> = Vec::new();
    let mut i: usize = 0;
    while i < names.len()
        invariant
            0 <= i <= names@.len(),
            names_view(out@) == other_namespaces(names_view(names@.subrange(0, i as int)), src@),
        decreases names@.len() - i,
    {
        let ghost pre = names_view(names@.subrange(0, i as int));
        assert(names_view(names@.subrange(0, i + 1)).drop_last() =~= pre);
        if !str_eq(names[i].as_str(), src.as_str()) {
            let ghost o = out@;
            out.push(names[i].clone());
            assert(names_view(out@) =~= names_view(o).push(names@[i as int]@));
        }
        i = i + 1;
    }
    assert(names@.subrange(0, names@.len() as int) =~= names@);
    out
}

/// What a sweep does in one target namespace.
#[derive(Debug, Clone, Copy, PartialEq, Eq, Structural)]
pub enum SweepAction {
    /// A sprout is there: delete it.
    Delete,
    /// An object that is no sprout is there: leave it.
    Ignore,
    /// Nothing is there.
    Skip,
}

/// The classification of a sweep target.
pub open spec fn sweep_action(found: Option<Map<Seq<char>, Seq<char>>>) -> SweepAction {
    match found {
        None => SweepAction::Skip,
        Some(a) => if sprout_marked(a) {
            SweepAction::Delete
        } else {
            SweepAction::Ignore
        },
    }
}

/// The annotations at a sweep target once the action is performed.
pub open spec fn after_sweep(
    found: Option<Map<Seq<char>, Seq<char>>>,
    action: SweepAction,
) -> Option<Map<Seq<char>, Seq<char>>> {
    match action {
        SweepAction::Delete => None,
        _ => found,
    }
}

/// Counts of the actions of a sweep.
#[derive(Debug, Clone, Copy, PartialEq, Eq, Structural)]
pub struct SweepTally {
    pub deleted: usize,
    pub ignored: usize,
}

/// The removal of one seed's sprouts, planned target by target.
pub struct SweepPlan {
    name: String,
    src_namespace: String,
    targets: Vec<String>,
    pos: usize,
    tally: SweepTally,
    observed: Ghost<Seq<Option<Map<Seq<char>, Seq<char>>>>>,
    actions: Ghost<Seq<SweepAction>>,
}

impl SweepPlan {
    /// The seed's name.
    pub closed spec fn name(&self) -> Seq<char> {
        self.name@
    }

    /// The seed's namespace.
    pub closed spec fn src_namespace(&self) -> Seq<char> {
        self.src_namespace@
    }

    /// The namespaces to visit, in order.
    pub closed spec fn targets(&self) -> Seq<Seq<char>> {
        names_view(self.targets@)
    }

    /// What was found in each target visited so far.
    pub closed spec fn observed(&self) -> Seq<Option<Map<Seq<char>, Seq<char>>>> {
        self.observed@
    }

    /// The action chosen for each target visited so far.
    pub closed spec fn actions(&self) -> Seq<SweepAction> {
        self.actions@
    }

    pub closed spec fn wf(&self) -> bool {
        &&& self.pos == self.observed@.len()
        &&& self.pos == self.actions@.len()
        &&& self.pos <= self.targets@.len()
        &&& forall|i: int| 0 <= i < self.pos ==> #[trigger] self.actions@[i] == sweep_action(self.observed@[i])
        &&& self.tally.deleted == count_of(self.actions@, SweepAction::Delete)
        &&& self.tally.ignored == count_of(self.actions@, SweepAction::Ignore)
        &&& self.tally.deleted + self.tally.ignored <= self.pos
    }

    /// The plan for the seed `seed` over the listed namespaces: every
    /// namespace but the seed's own, in listed order.
    pub fn new(seed: &ObjectMeta, namespaces: &Vec<String>) -> (p: SweepPlan)
        ensures
            p.wf(),
            p.name() == seed.name@,
            p.src_namespace() == seed.namespace@,
            p.targets() == other_namespaces(names_view(namespaces@), seed.namespace@),
            p.actions().len() == 0,
    {
        SweepPlan {
            name: seed.name.clone(),
            src_namespace: seed.namespace.clone(),
            targets: other_names(namespaces, &seed.namespace),
            pos: 0,
            tally: SweepTally { deleted: 0, ignored: 0 },
            observed: Ghost(Seq::empty()),
            actions: Ghost(Seq::empty()),
        }
    }

    /// The next namespace to visit, or `None` when every target was visited.
    pub fn next_target(&self) -> (r: Option<&String>)
        requires
            self.wf(),
        ensures
            r.is_none() <==> self.actions().len() == self.targets().len(),
            r matches Some(t) ==> self.actions().len() < self.targets().len()
                && t@ == self.targets()[self.actions().len() as int],
    {
        if self.pos < self.targets.len() {
            Some(&self.targets[self.pos])
        } else {
            None
        }
    }

    /// Classifies what was found in the current target and counts it.
    pub fn record(&mut self, found: &Option<ObjectMeta>) -> (a: SweepAction)
        requires
            old(self).wf(),
            old(self).actions().len() < old(self).targets().len(),
        ensures
            final(self).wf(),
            a == sweep_action(found_view(*found)),
            final(self).actions() == old(self).actions().push(a),
            final(self).observed() == old(self).observed().push(found_view(*found)),
            final(self).name() == old(self).name(),
            final(self).src_namespace() == old(self).src_namespace(),
            final(self).targets() == old(self).targets(),
    {
        let a = match found {
            None => SweepAction::Skip,
            Some(m) => if is_sprout(m) {
                SweepAction::Delete
            } else {
                SweepAction::Ignore
            },
        };
        let n = self.targets.len();
        assert(self.pos < n);
        let ghost old_actions = self.actions@;
        proof {
            self.observed@ = self.observed@.push(found_view(*found));
            self.actions@ = self.actions@.push(a);
            assert(self.actions@.drop_last() =~= old_actions);
        }
        match a {
            SweepAction::Delete => self.tally.deleted = self.tally.deleted + 1,
            SweepAction::Ignore => self.tally.ignored = self.tally.ignored + 1,
            SweepAction::Skip => {},
        }
        self.pos = self.pos + 1;
        a
    }

    /// The counts of the actions chosen so far.
    pub fn tally(&self) -> (t: SweepTally)
        requires
            self.wf(),
        ensures
            t.deleted == count_of(self.actions(), SweepAction::Delete),
            t.ignored == count_of(self.actions(), SweepAction::Ignore),
    {
        self.tally
    }
}

/// Any sprout among the found annotations refers to the seed `namespace/name`.
pub open spec fn sprout_of_seed_or_none(
    found: Option<Map<Seq<char>, Seq<char>>>,
    namespace: Seq<char>,
    name: Seq<char>,
) -> bool {
    match found {
        Some(m) => sprout_marked(m) ==> m[SPROUT_KEY@] == sprout_ref(namespace, name),
        None => true,
    }
}

/// After a grow step, the target holds a sprout of the seed with the seed's
/// current hash, unless an object that is no sprout was there before, which is
/// then left as it was. Stated for targets where any sprout found already
/// belongs to this seed.
pub proof fn lemma_grow_leaves_sprout_or_alien(
    found: Option<Map<Seq<char>, Seq<char>>>,
    seed: Map<Seq<char>, Seq<char>>,
    namespace: Seq<char>,
    name: Seq<char>,
    hash: Option<Seq<char>>,
)
    requires
        sprout_of_seed_or_none(found, namespace, name),
    ensures
        ({
            let after = after_grow(found, grow_action(found, hash), sprout_annotations(seed, namespace, name, hash));
            ||| (after matches Some(m) && sprout_marked(m) && m[SPROUT_KEY@] == sprout_ref(namespace, name)
                && hash_matches(m, hash))
            ||| (found matches Some(m) && !sprout_marked(m) && after == found)
        }),
{
    lemma_sprout_annotations(seed, namespace, name, hash);
}

/// A finished grow plan leaves, in every target namespace, a sprout of the
/// seed with its current hash, or the object that is no sprout found there.
/// Stated for runs where any sprout found already belongs to this seed.
pub proof fn lemma_grow_plan_outcome(p: &GrowPlan)
    requires
        p.wf(),
        p.sprout_spec().annotation_map() == sprout_annotations(p.seed_annotations(), p.src_namespace(), p.name(), p.hash()),
        forall|i: int| 0 <= i < p.observed().len() ==>
            sprout_of_seed_or_none(#[trigger] p.observed()[i], p.src_namespace(), p.name()),
    ensures
        p.observed().len() == p.actions().len(),
        forall|i: int| 0 <= i < p.actions().len() ==> {
            let after = #[trigger] after_grow(p.observed()[i], p.actions()[i], p.sprout_spec().annotation_map());
            ||| (after matches Some(m) && sprout_marked(m) && m[SPROUT_KEY@] == sprout_ref(p.src_namespace(), p.name())
                && hash_matches(m, p.hash()))
            ||| (p.observed()[i] matches Some(m) && !sprout_marked(m) && after == p.observed()[i])
        },
{
    assert forall|i: int| 0 <= i < p.actions().len() implies {
        let after = #[trigger] after_grow(p.observed()[i], p.actions()[i], p.sprout_spec().annotation_map());
        ||| (after matches Some(m) && sprout_marked(m) && m[SPROUT_KEY@] == sprout_ref(p.src_namespace(), p.name())
            && hash_matches(m, p.hash()))
        ||| (p.observed()[i] matches Some(m) && !sprout_marked(m) && after == p.observed()[i])
    } by {
        lemma_grow_leaves_sprout_or_alien(p.observed()[i], p.seed_annotations(), p.src_namespace(), p.name(), p.hash());
    }
}

/// Growing is idempotent: on what a grow step left behind, a second grow with
/// the same seed hash writes nothing.
pub proof fn lemma_grow_idempotent(
    found: Option<Map<Seq<char>, Seq<char>>>,
    seed: Map<Seq<char>, Seq<char>>,
    namespace: Seq<char>,
    name: Seq<char>,
    hash: Option<Seq<char>>,
)
    ensures
        ({
            let sprout = sprout_annotations(seed, namespace, name, hash);
            let after = after_grow(found, grow_action(found, hash), sprout);
            let again = grow_action(after, hash);
            &&& (again == GrowAction::Validate || again == GrowAction::Ignore)
            &&& after_grow(after, again, sprout) == after
        }),
{
    lemma_sprout_annotations(seed, namespace, name, hash);
}

/// A second grow of the same seed, run on what a first grow left in each
/// target, writes nothing: every target is validated or ignored.
pub proof fn lemma_second_grow_writes_nothing(first: &GrowPlan, second: &GrowPlan)
    requires
        first.wf(),
        second.wf(),
        second.hash() == first.hash(),
        first.sprout_spec().annotation_map() == sprout_annotations(
            first.seed_annotations(),
            first.src_namespace(),
            first.name(),
            first.hash(),
        ),
        second.observed().len() <= first.observed().len(),
        forall|i: int| 0 <= i < second.observed().len() ==> #[trigger] second.observed()[i] == after_grow(
            first.observed()[i],
            first.actions()[i],
            first.sprout_spec().annotation_map(),
        ),
    ensures
        forall|i: int| 0 <= i < second.actions().len() ==> #[trigger] second.actions()[i] == GrowAction::Validate
            || second.actions()[i] == GrowAction::Ignore,
{
    assert forall|i: int| 0 <= i < second.actions().len() implies #[trigger] second.actions()[i] == GrowAction::Validate
        || second.actions()[i] == GrowAction::Ignore by {
        assert(second.observed()[i] == after_grow(first.observed()[i], first.actions()[i], first.sprout_spec().annotation_map()));
        lemma_grow_idempotent(first.observed()[i], first.seed_annotations(), first.src_namespace(), first.name(), first.hash());
    }
}

/// An object that is no sprout is never written by a grow or a sweep.
pub proof fn lemma_alien_untouched(
    found: Option<Map<Seq<char>, Seq<char>>>,
    sprout: Map<Seq<char>, Seq<char>>,
    hash: Option<Seq<char>>,
)
    requires
        found matches Some(m) && !sprout_marked(m),
    ensures
        grow_action(found, hash) == GrowAction::Ignore,
        after_grow(found, grow_action(found, hash), sprout) == found,
        sweep_action(found) == SweepAction::Ignore,
        after_sweep(found, sweep_action(found)) == found,
{
}

/// After a sweep step no sprout is left in the target.
pub proof fn lemma_sweep_leaves_no_sprout(found: Option<Map<Seq<char>, Seq<char>>>)
    ensures
        after_sweep(found, sweep_action(found)) matches Some(m) ==> !sprout_marked(m),
{
}

/// A finished sweep plan leaves no sprout in any target namespace.
pub proof fn lemma_sweep_plan_outcome(p: &SweepPlan)
    requires
        p.wf(),
    ensures
        p.observed().len() == p.actions().len(),
        forall|i: int| 0 <= i < p.actions().len() ==>
            (#[trigger] after_sweep(p.observed()[i], p.actions()[i]) matches Some(m) ==> !sprout_marked(m)),
{
}

} // verus!
