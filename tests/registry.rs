use sprouter::dispatch::{Dispatch, NamespaceTracker};
use sprouter::kind::{infer_kind, kind_of, SproutKind};
use sprouter::object::{ConfigMap, ObjectMeta, Secret};
use sprouter::registry::{Seed, SeedRegistry};
use sprouter::utils::ANNOTATION_KEY;

fn meta(ns: &str, name: &str, seed: bool) -> ObjectMeta {
    let mut m = ObjectMeta::default();
    m.name = name.to_string();
    m.namespace = ns.to_string();
    if seed {
        m.annotations = vec![(ANNOTATION_KEY.to_string(), "true".to_string())];
    }
    m
}

#[test]
fn kinds_and_names() {
    assert_eq!(infer_kind::<ConfigMap>(), SproutKind::ConfigMap);
    assert_eq!(infer_kind::<Secret>(), SproutKind::Secret);
    assert_eq!(kind_of(&Secret::default()), SproutKind::Secret);
    assert_eq!(kind_of(&ConfigMap::default()), SproutKind::ConfigMap);
    assert_eq!(SproutKind::ConfigMap.to_string(), "ConfigMap");
    assert_eq!(SproutKind::Secret.to_string(), "Secret");
}

#[test]
fn registry_insert_remove_contains() {
    let mut r = SeedRegistry::new();
    let s = Seed::new(SproutKind::ConfigMap, "a".to_string(), "cfg".to_string());
    assert!(!r.contains(&s));
    assert!(r.insert(s.copy()));
    assert!(!r.insert(s.copy()));
    assert_eq!(r.len(), 1);
    assert!(r.contains(&s));
    let other_kind = Seed::new(SproutKind::Secret, "a".to_string(), "cfg".to_string());
    assert!(!r.contains(&other_kind));
    assert!(r.remove(&s));
    assert!(!r.remove(&s));
    assert_eq!(r.len(), 0);
}

#[test]
fn new_seed_is_registered_and_grown() {
    let mut r = SeedRegistry::new();
    let m = meta("a", "cfg", true);
    assert!(!r.is_known_seed(SproutKind::ConfigMap, &m));
    assert_eq!(r.on_apply(SproutKind::ConfigMap, &m), Dispatch::Grow);
    assert!(r.is_known_seed(SproutKind::ConfigMap, &m));
    assert_eq!(r.on_apply(SproutKind::ConfigMap, &m), Dispatch::Grow);
    assert_eq!(r.len(), 1);
}

#[test]
fn demoted_seed_is_dropped_and_swept() {
    let mut r = SeedRegistry::new();
    assert_eq!(r.on_apply(SproutKind::ConfigMap, &meta("a", "cfg", true)), Dispatch::Grow);
    let demoted = meta("a", "cfg", false);
    assert!(r.is_known_seed(SproutKind::ConfigMap, &demoted));
    assert_eq!(r.on_apply(SproutKind::ConfigMap, &demoted), Dispatch::Sweep);
    assert!(!r.is_known_seed(SproutKind::ConfigMap, &demoted));
    assert_eq!(r.on_apply(SproutKind::ConfigMap, &demoted), Dispatch::Ignore);
}

#[test]
fn stranger_apply_and_delete_are_ignored() {
    let mut r = SeedRegistry::new();
    assert_eq!(r.on_apply(SproutKind::Secret, &meta("a", "x", false)), Dispatch::Ignore);
    assert_eq!(r.on_delete(SproutKind::Secret, &meta("a", "x", false)), Dispatch::Ignore);
    assert_eq!(r.len(), 0);
}

#[test]
fn deleted_seed_is_dropped() {
    let mut r = SeedRegistry::new();
    r.on_apply(SproutKind::Secret, &meta("x", "sec", true));
    assert_eq!(r.on_delete(SproutKind::Secret, &meta("x", "sec", true)), Dispatch::Sweep);
    assert!(!r.is_known_seed(SproutKind::Secret, &meta("x", "sec", true)));
}

#[test]
fn new_namespace_receives_seeds_from_elsewhere() {
    let mut r = SeedRegistry::new();
    r.on_apply(SproutKind::ConfigMap, &meta("a", "cfg", true));
    r.on_apply(SproutKind::Secret, &meta("x", "sec", true));
    r.on_apply(SproutKind::ConfigMap, &meta("d", "local", true));
    let mut out: Vec<(SproutKind, String, String)> = r
        .seeds_outside(&"d".to_string())
        .iter()
        .map(|s| (s.resource_type(), s.namespace().clone(), s.name().clone()))
        .collect();
    out.sort_by(|a, b| a.2.cmp(&b.2));
    assert_eq!(
        out,
        vec![
            (SproutKind::ConfigMap, "a".to_string(), "cfg".to_string()),
            (SproutKind::Secret, "x".to_string(), "sec".to_string()),
        ]
    );
}

#[test]
fn active_namespace_fans_out_once() {
    let mut t = NamespaceTracker::new();
    let active = Some("Active".to_string());
    assert!(t.on_apply("d".to_string(), &active));
    assert!(!t.on_apply("d".to_string(), &active));
    assert!(t.has_seen("d"));
    assert!(!t.on_apply("e".to_string(), &Some("Terminating".to_string())));
    assert!(!t.on_apply("e".to_string(), &None));
    assert!(!t.has_seen("e"));
    t.on_delete("d");
    assert!(!t.has_seen("d"));
    assert!(t.on_apply("d".to_string(), &active));
}
