use sprouter::grower::{GrowAction, GrowPlan, GrowTally, SweepAction, SweepPlan, SweepTally};
use sprouter::object::{ConfigMap, ObjectMeta};
use sprouter::kind::AsSproutKind;
use sprouter::utils::{create_sprout, is_seed, is_sprout, is_sprout_recent, ANNOTATION_KEY, SEED_HASH_KEY, SPROUT_KEY};

fn names(v: &[&str]) -> Vec<String> {
    v.iter().map(|s| s.to_string()).collect()
}

fn seed_cm(ns: &str, name: &str, value: &str) -> ConfigMap {
    let mut cm = ConfigMap::default();
    cm.metadata.name = name.to_string();
    cm.metadata.namespace = ns.to_string();
    cm.metadata.annotations = vec![(ANNOTATION_KEY.to_string(), "true".to_string())];
    cm.data = vec![("k".to_string(), value.to_string())];
    cm
}

fn annotation(m: &ObjectMeta, key: &str) -> Option<String> {
    m.annotation(key).cloned()
}

/// Runs a grow plan against an in-memory view of the targets, as a caller
/// would against the cluster, and returns the visited targets with actions.
fn run_grow(plan: &mut GrowPlan, cluster: &mut Vec<(String, ObjectMeta)>) -> Vec<(String, GrowAction)> {
    let mut out = Vec::new();
    while let Some(ns) = plan.next_target().cloned() {
        let found = cluster.iter().find(|(n, _)| *n == ns).map(|(_, m)| m.clone());
        let a = plan.record(&found);
        match a {
            GrowAction::Create | GrowAction::Update => {
                let mut s = plan.sprout().clone();
                s.namespace = ns.clone();
                cluster.retain(|(n, _)| *n != ns);
                cluster.push((ns.clone(), s));
            }
            _ => {}
        }
        out.push((ns, a));
    }
    out
}

#[test]
fn create_sprout_sets_back_reference_and_hash() {
    let cm = seed_cm("a", "cfg", "v");
    let h = cm.hash();
    let s = create_sprout(cm.metadata.clone(), &h);
    assert_eq!(s.name, "cfg");
    assert_eq!(s.namespace, "a");
    assert!(!is_seed(&s));
    assert!(is_sprout(&s));
    assert_eq!(annotation(&s, SPROUT_KEY), Some("a/cfg".to_string()));
    assert_eq!(annotation(&s, SEED_HASH_KEY), h);
    assert_eq!(annotation(&s, ANNOTATION_KEY), None);
    assert!(is_sprout_recent(&s, &h));
}

#[test]
fn create_sprout_without_hash_drops_hash_record() {
    let mut m = ObjectMeta::default();
    m.name = "cfg".to_string();
    m.namespace = "a".to_string();
    m.annotations = vec![(SEED_HASH_KEY.to_string(), "old".to_string()), ("keep".to_string(), "me".to_string())];
    let s = create_sprout(m, &None);
    assert_eq!(annotation(&s, SEED_HASH_KEY), None);
    assert_eq!(annotation(&s, "keep"), Some("me".to_string()));
    assert!(is_sprout_recent(&s, &None));
}

#[test]
fn grow_creates_in_other_namespaces_then_is_idempotent() {
    let cm = seed_cm("a", "cfg", "v");
    let h = cm.hash();
    let mut cluster = Vec::new();
    let ns = names(&["a", "b", "c"]);
    let mut plan = GrowPlan::new(cm.meta(), &h, &ns);
    let acts = run_grow(&mut plan, &mut cluster);
    assert_eq!(acts, vec![("b".to_string(), GrowAction::Create), ("c".to_string(), GrowAction::Create)]);
    assert_eq!(plan.tally(), GrowTally { created: 2, updated: 0, validated: 0, ignored: 0 });
    for (_, m) in cluster.iter() {
        assert_eq!(annotation(m, SPROUT_KEY), Some("a/cfg".to_string()));
        assert_eq!(annotation(m, SEED_HASH_KEY), h);
        assert!(!is_seed(m));
    }
    let mut again = GrowPlan::new(cm.meta(), &h, &ns);
    let acts = run_grow(&mut again, &mut cluster);
    assert!(acts.iter().all(|(_, a)| *a == GrowAction::Validate));
    assert_eq!(again.tally(), GrowTally { created: 0, updated: 0, validated: 2, ignored: 0 });
}

#[test]
fn grow_updates_sprouts_when_data_changes() {
    let cm = seed_cm("a", "cfg", "v");
    let mut cluster = Vec::new();
    let ns = names(&["a", "b", "c"]);
    run_grow(&mut GrowPlan::new(cm.meta(), &cm.hash(), &ns), &mut cluster);
    let changed = seed_cm("a", "cfg", "w");
    let h2 = changed.hash();
    let mut plan = GrowPlan::new(changed.meta(), &h2, &ns);
    let acts = run_grow(&mut plan, &mut cluster);
    assert_eq!(acts, vec![("b".to_string(), GrowAction::Update), ("c".to_string(), GrowAction::Update)]);
    for (_, m) in cluster.iter() {
        assert_eq!(annotation(m, SEED_HASH_KEY), h2);
        assert_eq!(annotation(m, ANNOTATION_KEY), None);
    }
}

#[test]
fn grow_leaves_alien_untouched() {
    let cm = seed_cm("a", "cfg", "v");
    let mut alien = ObjectMeta::default();
    alien.name = "cfg".to_string();
    alien.namespace = "b".to_string();
    alien.annotations = vec![("owner".to_string(), "someone".to_string())];
    let mut cluster = vec![("b".to_string(), alien.clone())];
    let mut plan = GrowPlan::new(cm.meta(), &cm.hash(), &names(&["a", "b", "c"]));
    let acts = run_grow(&mut plan, &mut cluster);
    assert_eq!(acts, vec![("b".to_string(), GrowAction::Ignore), ("c".to_string(), GrowAction::Create)]);
    assert_eq!(plan.tally(), GrowTally { created: 1, updated: 0, validated: 0, ignored: 1 });
    let b = &cluster.iter().find(|(n, _)| n == "b").unwrap().1;
    assert_eq!(annotation(b, "owner"), Some("someone".to_string()));
    assert!(!is_sprout(b));
}

#[test]
fn grow_with_no_other_namespace_does_nothing() {
    let cm = seed_cm("a", "cfg", "v");
    let plan = GrowPlan::new(cm.meta(), &cm.hash(), &names(&["a"]));
    assert!(plan.next_target().is_none());
    assert_eq!(plan.tally(), GrowTally { created: 0, updated: 0, validated: 0, ignored: 0 });
}

#[test]
fn sweep_deletes_sprouts_and_spares_aliens() {
    let cm = seed_cm("a", "cfg", "v");
    let mut alien = ObjectMeta::default();
    alien.name = "cfg".to_string();
    alien.namespace = "b".to_string();
    let sprout = create_sprout(cm.metadata.clone(), &cm.hash());
    let mut plan = SweepPlan::new(cm.meta(), &names(&["a", "b", "c", "d"]));
    let mut acts = Vec::new();
    while let Some(ns) = plan.next_target().cloned() {
        let found = match ns.as_str() {
            "b" => Some(alien.clone()),
            "c" => Some(sprout.clone()),
            _ => None,
        };
        acts.push((ns, plan.record(&found)));
    }
    assert_eq!(
        acts,
        vec![
            ("b".to_string(), SweepAction::Ignore),
            ("c".to_string(), SweepAction::Delete),
            ("d".to_string(), SweepAction::Skip),
        ]
    );
    assert_eq!(plan.tally(), SweepTally { deleted: 1, ignored: 1 });
}

#[test]
fn delete_sprouts_removes_from_other_namespaces() {
    let cm = seed_cm("ns-a", "to-delete", "v");
    let sprout = create_sprout(cm.metadata.clone(), &cm.hash());
    let mut plan = SweepPlan::new(cm.meta(), &names(&["ns-a", "ns-b"]));
    let ns = plan.next_target().cloned();
    assert_eq!(ns, Some("ns-b".to_string()));
    assert_eq!(plan.record(&Some(sprout)), SweepAction::Delete);
    assert!(plan.next_target().is_none());
}
