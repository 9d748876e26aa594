use sprouter::object::ConfigMap;
use sprouter::utils::{is_seed, is_sprout, is_sprout_recent, ANNOTATION_KEY, SEED_HASH_KEY, SPROUT_KEY};

#[test]
fn test_is_seed_true() {
    let mut cm = ConfigMap::default();
    cm.metadata.annotations = vec![(ANNOTATION_KEY.to_string(), "true".to_string())];
    assert!(is_seed(cm.meta()));
}

#[test]
fn test_is_seed_false_missing_annotation() {
    let cm = ConfigMap::default();
    assert!(!is_seed(cm.meta()));
}

#[test]
fn test_is_seed_false_wrong_value() {
    let mut cm = ConfigMap::default();
    cm.metadata.annotations = vec![(ANNOTATION_KEY.to_string(), "false".to_string())];
    assert!(!is_seed(cm.meta()));
}

#[test]
fn test_is_sprout_true() {
    let mut cm = ConfigMap::default();
    cm.metadata.annotations = vec![(SPROUT_KEY.to_string(), "true".to_string())];
    assert!(is_sprout(cm.meta()));
}

#[test]
fn test_is_sprout_false() {
    let cm = ConfigMap::default();
    assert!(!is_sprout(cm.meta()));
}

#[test]
fn test_is_sprout_recent_true() {
    let mut cm = ConfigMap::default();
    cm.metadata.annotations = vec![
        (SPROUT_KEY.to_string(), "true".to_string()),
        (SEED_HASH_KEY.to_string(), "abc123".to_string()),
    ];
    assert!(is_sprout_recent(cm.meta(), &Some("abc123".to_string())));
}

#[test]
fn test_is_sprout_recent_false_different_hash() {
    let mut cm = ConfigMap::default();
    cm.metadata.annotations = vec![
        (SPROUT_KEY.to_string(), "true".to_string()),
        (SEED_HASH_KEY.to_string(), "abc123".to_string()),
    ];
    assert!(!is_sprout_recent(cm.meta(), &Some("xyz456".to_string())));
}

// An absent record and an absent hash are equal: a sprout of a seed without
// data stays validated.
#[test]
fn test_is_sprout_recent_false_no_annotation() {
    let cm = ConfigMap::default();
    assert!(is_sprout_recent(cm.meta(), &None));
    assert!(!is_sprout_recent(cm.meta(), &Some("abc123".to_string())));
}

#[test]
fn is_sprout_recent_rejects_record_without_hash() {
    let mut cm = ConfigMap::default();
    cm.metadata.annotations = vec![(SEED_HASH_KEY.to_string(), "abc123".to_string())];
    assert!(!is_sprout_recent(cm.meta(), &None));
}

#[test]
fn later_annotation_pair_wins() {
    let mut cm = ConfigMap::default();
    cm.metadata.annotations = vec![
        (ANNOTATION_KEY.to_string(), "false".to_string()),
        (ANNOTATION_KEY.to_string(), "true".to_string()),
    ];
    assert!(is_seed(cm.meta()));
}
