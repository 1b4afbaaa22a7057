use crashlab_core::signature_comparison::{
    compare_signatures, ComparisonError, SignatureInfo, SignatureSnapshot,
};
use crashlab_core::str_map::StrMap;

#[test]
fn test_snapshot_creation() {
    let snapshot = SignatureSnapshot::new("snap-001", "v1.0 baseline");
    assert_eq!(snapshot.id, "snap-001");
    assert_eq!(snapshot.label, "v1.0 baseline");
}

#[test]
fn test_add_signature() {
    let mut snapshot = SignatureSnapshot::new("snap-001", "test");
    assert!(snapshot.add_signature("sig-abc123", "panic", 5).is_ok());
    assert_eq!(snapshot.signatures.len(), 1);

    let sig = snapshot.get_signature("sig-abc123").unwrap();
    assert_eq!(sig.category, "panic");
    assert_eq!(sig.occurrence_count, 5);
}

#[test]
fn test_empty_hash_validation() {
    let mut snapshot = SignatureSnapshot::new("snap-001", "test");
    assert!(snapshot.add_signature("", "panic", 1).is_err());
}

#[test]
fn test_snapshot_validation() {
    let valid = SignatureSnapshot::new("snap-001", "test");
    assert!(valid.validate().is_ok());

    let invalid_id = SignatureSnapshot::new("", "test");
    assert!(invalid_id.validate().is_err());
}

fn info(hash: &str, category: &str, count: usize) -> SignatureInfo {
    SignatureInfo {
        hash: hash.to_string(),
        category: category.to_string(),
        occurrence_count: count,
        first_seen: None,
        last_seen: None,
    }
}

#[test]
fn test_signature_comparison() {
    let mut baseline = SignatureSnapshot::new("snap-001", "baseline");
    baseline.add_signature("sig-a", "panic", 1).unwrap();
    baseline.add_signature("sig-b", "assertion", 2).unwrap();
    baseline.add_signature("sig-c", "oom", 1).unwrap();

    let mut current = StrMap::new();
    current.insert("sig-b".to_string(), info("sig-b", "assertion", 2));
    current.insert("sig-c".to_string(), info("sig-c", "oom", 1));
    current.insert("sig-d".to_string(), info("sig-d", "segfault", 1));

    let result = compare_signatures(&baseline, &current);

    assert_eq!(result.new_signatures, vec!["sig-d"]);
    assert_eq!(result.fixed_signatures, vec!["sig-a"]);
    assert_eq!(result.recurring_signatures.len(), 2);
    assert!(result.metrics.has_regressions);
}

// Further cases.

#[test]
fn comparison_metrics_exact() {
    let mut baseline = SignatureSnapshot::new("s", "b");
    baseline.add_signature("x", "panic", 1).unwrap();
    baseline.add_signature("y", "panic", 1).unwrap();
    let mut current = StrMap::new();
    current.insert("y".to_string(), info("y", "panic", 3));
    current.insert("z".to_string(), info("z", "oom", 1));
    current.insert("w".to_string(), info("w", "oom", 1));
    let r = compare_signatures(&baseline, &current);
    assert_eq!(r.new_signatures, vec!["z", "w"]);
    assert_eq!(r.fixed_signatures, vec!["x"]);
    assert_eq!(r.recurring_signatures, vec!["y"]);
    assert_eq!(r.metrics.baseline_total, 2);
    assert_eq!(r.metrics.current_total, 3);
    assert_eq!(r.metrics.new_count, 2);
    assert_eq!(r.metrics.fixed_count, 1);
    assert_eq!(r.metrics.recurring_count, 1);
    assert_eq!(r.metrics.new_count + r.metrics.recurring_count, r.metrics.current_total);
    assert_eq!(r.metrics.fixed_count + r.metrics.recurring_count, r.metrics.baseline_total);
    assert!(r.metrics.has_regressions);
}

#[test]
fn compare_with_itself_finds_nothing_new() {
    let mut baseline = SignatureSnapshot::new("s", "b");
    baseline.add_signature("p", "panic", 1).unwrap();
    baseline.add_signature("q", "oom", 4).unwrap();
    let current = baseline.signatures.clone();
    let r = compare_signatures(&baseline, &current);
    assert!(r.new_signatures.is_empty());
    assert!(r.fixed_signatures.is_empty());
    assert_eq!(r.recurring_signatures, vec!["p", "q"]);
    assert!(!r.metrics.has_regressions);
}

#[test]
fn only_fixed_is_not_a_regression() {
    let mut baseline = SignatureSnapshot::new("s", "b");
    baseline.add_signature("p", "panic", 1).unwrap();
    let current: StrMap<SignatureInfo> = StrMap::new();
    let r = compare_signatures(&baseline, &current);
    assert_eq!(r.fixed_signatures, vec!["p"]);
    assert_eq!(r.metrics.fixed_count, 1);
    assert!(!r.metrics.has_regressions);
}

#[test]
fn add_signature_replaces_same_hash() {
    let mut snapshot = SignatureSnapshot::new("s", "b");
    snapshot.add_signature("h", "panic", 1).unwrap();
    snapshot.add_signature("h", "oom", 9).unwrap();
    assert_eq!(snapshot.signatures.len(), 1);
    let sig = snapshot.get_signature("h").unwrap();
    assert_eq!(sig.category, "oom");
    assert_eq!(sig.occurrence_count, 9);
    assert_eq!(sig.hash, "h");
    assert_eq!(sig.first_seen, None);
    assert_eq!(sig.last_seen, None);
}

#[test]
fn add_signature_errors() {
    let mut snapshot = SignatureSnapshot::new("s", "b");
    assert_eq!(
        snapshot.add_signature("", "panic", 1),
        Err(ComparisonError::ValidationFailed("signature hash cannot be empty".to_string()))
    );
    assert_eq!(
        snapshot.add_signature("h", "", 1),
        Err(ComparisonError::ValidationFailed("category cannot be empty".to_string()))
    );
    assert!(snapshot.signatures.is_empty());
}

#[test]
fn get_missing_signature() {
    let snapshot = SignatureSnapshot::new("s", "b");
    assert_eq!(
        snapshot.get_signature("nope"),
        Err(ComparisonError::SignatureNotFound("nope".to_string()))
    );
}

#[test]
fn snapshot_validation_messages() {
    assert_eq!(
        SignatureSnapshot::new("", "").validate(),
        Err(ComparisonError::ValidationFailed("snapshot id cannot be empty".to_string()))
    );
    assert_eq!(
        SignatureSnapshot::new("s", "").validate(),
        Err(ComparisonError::ValidationFailed("snapshot label cannot be empty".to_string()))
    );
}

#[test]
fn comparison_error_texts() {
    assert_eq!(
        ComparisonError::SnapshotNotFound("a".to_string()).to_string(),
        "snapshot not found: a"
    );
    assert_eq!(
        ComparisonError::SignatureNotFound("b".to_string()).to_string(),
        "signature not found: b"
    );
    assert_eq!(
        ComparisonError::ValidationFailed("c".to_string()).to_string(),
        "validation failed: c"
    );
    assert_eq!(
        ComparisonError::SerializationError("d".to_string()).to_string(),
        "serialization error: d"
    );
}
