use crashlab_core::fixture_manifest::{
    FixtureManifest, FixtureMetadata, ManifestError, FIXTURE_MANIFEST_SCHEMA_VERSION,
};

#[test]
fn test_fixture_metadata_creation() {
    let meta = FixtureMetadata::new("fix-001", "seed", 1)
        .with_name("Test Fixture")
        .with_failure_category("Panic")
        .add_tag("critical")
        .add_property("source", "fuzzer");

    assert_eq!(meta.id, "fix-001");
    assert_eq!(meta.fixture_type, "seed");
    assert_eq!(meta.schema_version, 1);
    assert_eq!(meta.name, Some("Test Fixture".to_string()));
    assert_eq!(meta.failure_category, Some("Panic".to_string()));
    assert!(meta.tags.contains(&"critical".to_string()));
    assert_eq!(meta.properties.get("source"), Some(&"fuzzer".to_string()));
}

#[test]
fn test_fixture_metadata_validation() {
    let valid = FixtureMetadata::new("fix-001", "seed", 1);
    assert!(valid.validate().is_ok());

    let invalid_type = FixtureMetadata::new("fix-001", "invalid_type", 1);
    assert!(invalid_type.validate().is_err());

    let empty_id = FixtureMetadata {
        id: String::new(),
        fixture_type: "seed".to_string(),
        schema_version: 1,
        ..Default::default()
    };
    assert!(empty_id.validate().is_err());
}

#[test]
fn test_manifest_add_fixture() {
    let mut manifest = FixtureManifest::new(1);
    let meta = FixtureMetadata::new("fix-001", "seed", 1);
    assert!(manifest.add_fixture(meta).is_ok());
    assert_eq!(manifest.fixtures.len(), 1);
}

#[test]
fn test_manifest_duplicate_prevention() {
    let mut manifest = FixtureManifest::new(1);
    let meta1 = FixtureMetadata::new("fix-001", "seed", 1);
    let meta2 = FixtureMetadata::new("fix-001", "bundle", 1);

    assert!(manifest.add_fixture(meta1).is_ok());
    assert!(manifest.add_fixture(meta2).is_err());
}

#[test]
fn test_manifest_filtering() {
    let mut manifest = FixtureManifest::new(1);
    let meta1 = FixtureMetadata::new("fix-001", "seed", 1).add_tag("critical");
    let meta2 = FixtureMetadata::new("fix-002", "bundle", 1).add_tag("regression");

    manifest.add_fixture(meta1).unwrap();
    manifest.add_fixture(meta2).unwrap();

    assert_eq!(manifest.by_type("seed").len(), 1);
    assert_eq!(manifest.by_type("bundle").len(), 1);
    assert_eq!(manifest.by_tag("critical").len(), 1);
    assert_eq!(manifest.by_tag("regression").len(), 1);
}

// Further cases.

#[test]
fn new_manifest_is_empty_and_current() {
    let manifest = FixtureManifest::new(7);
    assert_eq!(manifest.schema, FIXTURE_MANIFEST_SCHEMA_VERSION);
    assert_eq!(manifest.schema, 1);
    assert_eq!(manifest.engine_schema_version, 7);
    assert!(manifest.fixtures.is_empty());
    assert!(manifest.metadata.is_empty());
    assert_eq!(manifest.created_at, None);
    assert!(manifest.validate().is_ok());
}

#[test]
fn validation_messages() {
    let empty_id = FixtureMetadata::new("", "seed", 1);
    assert_eq!(
        empty_id.validate(),
        Err(ManifestError::ValidationFailed("fixture id cannot be empty".to_string()))
    );
    let empty_type = FixtureMetadata::new("fix-1", "", 1);
    assert_eq!(
        empty_type.validate(),
        Err(ManifestError::ValidationFailed("fixture_type cannot be empty".to_string()))
    );
    let bad_type = FixtureMetadata::new("fix-1", "crash", 1);
    assert_eq!(
        bad_type.validate(),
        Err(ManifestError::ValidationFailed(
            "invalid fixture_type: crash (must be 'seed', 'bundle', or 'corpus')".to_string()
        ))
    );
    assert!(FixtureMetadata::new("fix-1", "corpus", 3).validate().is_ok());
}

#[test]
fn add_invalid_fixture_leaves_manifest_unchanged() {
    let mut manifest = FixtureManifest::new(1);
    manifest
        .add_fixture(FixtureMetadata::new("fix-001", "seed", 1))
        .unwrap();
    let before = manifest.clone();
    let err = manifest
        .add_fixture(FixtureMetadata::new("fix-002", "bogus", 1))
        .unwrap_err();
    assert!(matches!(err, ManifestError::ValidationFailed(_)));
    assert_eq!(manifest, before);
    let err = manifest
        .add_fixture(FixtureMetadata::new("fix-001", "bundle", 1))
        .unwrap_err();
    assert_eq!(err, ManifestError::DuplicateFixtureId("fix-001".to_string()));
    assert_eq!(manifest, before);
    assert_eq!(manifest.get_fixture("fix-001").unwrap().fixture_type, "seed");
}

#[test]
fn get_after_add() {
    let mut manifest = FixtureManifest::new(1);
    let meta = FixtureMetadata::new("fix-009", "corpus", 2).with_checksum("abc");
    manifest.add_fixture(meta.clone()).unwrap();
    assert_eq!(manifest.get_fixture("fix-009"), Ok(&meta));
    assert_eq!(
        manifest.get_fixture("fix-010"),
        Err(ManifestError::FixtureNotFound("fix-010".to_string()))
    );
}

#[test]
fn built_manifest_validates() {
    let mut manifest = FixtureManifest::new(1);
    for (id, t) in [("fix-1", "seed"), ("fix-2", "bundle"), ("fix-3", "corpus")] {
        manifest.add_fixture(FixtureMetadata::new(id, t, 1)).unwrap();
    }
    assert_eq!(manifest.fixtures.len(), 3);
    assert!(manifest.validate().is_ok());
}

#[test]
fn schema_mismatch_detected() {
    let mut manifest = FixtureManifest::new(1);
    manifest.schema = 2;
    assert_eq!(
        manifest.validate(),
        Err(ManifestError::SchemaVersionMismatch { found: 2, expected: 1 })
    );
}

#[test]
fn key_mismatch_detected() {
    let mut manifest = FixtureManifest::new(1);
    manifest
        .fixtures
        .insert("other".to_string(), FixtureMetadata::new("fix-1", "seed", 1));
    assert_eq!(
        manifest.validate(),
        Err(ManifestError::ValidationFailed(
            "key other does not match fixture id fix-1".to_string()
        ))
    );
}

#[test]
fn invalid_entry_detected_first() {
    let mut manifest = FixtureManifest::new(1);
    manifest
        .fixtures
        .insert("fix-1".to_string(), FixtureMetadata::new("fix-1", "oops", 1));
    manifest
        .fixtures
        .insert("x".to_string(), FixtureMetadata::new("fix-2", "seed", 1));
    assert_eq!(
        manifest.validate(),
        Err(ManifestError::ValidationFailed(
            "invalid fixture_type: oops (must be 'seed', 'bundle', or 'corpus')".to_string()
        ))
    );
}

#[test]
fn filters_return_matches_in_order() {
    let mut manifest = FixtureManifest::new(1);
    manifest
        .add_fixture(
            FixtureMetadata::new("fix-1", "seed", 1)
                .with_failure_category("Panic")
                .add_tag("a")
                .add_tag("b"),
        )
        .unwrap();
    manifest
        .add_fixture(FixtureMetadata::new("fix-2", "bundle", 1).with_failure_category("Oom"))
        .unwrap();
    manifest
        .add_fixture(
            FixtureMetadata::new("fix-3", "seed", 1)
                .with_failure_category("Panic")
                .add_tag("b"),
        )
        .unwrap();
    let seeds: Vec<&str> = manifest.by_type("seed").iter().map(|m| m.id.as_str()).collect();
    assert_eq!(seeds, vec!["fix-1", "fix-3"]);
    let tagged_b: Vec<&str> = manifest.by_tag("b").iter().map(|m| m.id.as_str()).collect();
    assert_eq!(tagged_b, vec!["fix-1", "fix-3"]);
    assert_eq!(manifest.by_tag("a").len(), 1);
    assert!(manifest.by_tag("c").is_empty());
    let panics: Vec<&str> = manifest
        .by_failure_category("Panic")
        .iter()
        .map(|m| m.id.as_str())
        .collect();
    assert_eq!(panics, vec!["fix-1", "fix-3"]);
    assert_eq!(manifest.by_failure_category("Oom").len(), 1);
    assert!(manifest.by_type("corpus").is_empty());
}

#[test]
fn property_overwrite_keeps_one_entry() {
    let meta = FixtureMetadata::new("fix-1", "seed", 1)
        .add_property("k", "v1")
        .add_property("j", "w")
        .add_property("k", "v2");
    assert_eq!(meta.properties.len(), 2);
    assert_eq!(meta.properties.get("k"), Some(&"v2".to_string()));
    assert_eq!(meta.properties.key_at(0), "k");
    assert_eq!(meta.properties.get("missing"), None);
}

#[test]
fn default_metadata() {
    let meta = FixtureMetadata::default();
    assert_eq!(meta.id, "");
    assert_eq!(meta.fixture_type, "");
    assert_eq!(meta.schema_version, 1);
    assert!(meta.tags.is_empty());
    assert!(meta.properties.is_empty());
    assert!(meta.name.is_none() && meta.checksum.is_none() && meta.created_at.is_none());
}

#[test]
fn manifest_error_texts() {
    assert_eq!(
        ManifestError::FixtureNotFound("a".to_string()).to_string(),
        "fixture not found: a"
    );
    assert_eq!(
        ManifestError::ValidationFailed("m".to_string()).to_string(),
        "validation failed: m"
    );
    assert_eq!(
        ManifestError::SchemaVersionMismatch { found: 12, expected: 1 }.to_string(),
        "schema version mismatch: found 12, expected 1"
    );
    assert_eq!(
        ManifestError::DuplicateFixtureId("d".to_string()).to_string(),
        "duplicate fixture id: d"
    );
    assert_eq!(
        ManifestError::SerializationError("s".to_string()).to_string(),
        "serialization error: s"
    );
}

#[test]
fn equality_compares_maps_not_order() {
    let a = FixtureMetadata::new("fix-1", "seed", 1)
        .add_property("k", "1")
        .add_property("j", "2");
    let b = FixtureMetadata::new("fix-1", "seed", 1)
        .add_property("j", "2")
        .add_property("k", "1");
    assert_eq!(a, b);

    let mut m1 = FixtureManifest::new(1);
    m1.add_fixture(FixtureMetadata::new("fix-1", "seed", 1)).unwrap();
    m1.add_fixture(FixtureMetadata::new("fix-2", "bundle", 1)).unwrap();
    let mut m2 = FixtureManifest::new(1);
    m2.add_fixture(FixtureMetadata::new("fix-2", "bundle", 1)).unwrap();
    m2.add_fixture(FixtureMetadata::new("fix-1", "seed", 1)).unwrap();
    assert_eq!(m1, m2);
    let mut m3 = FixtureManifest::new(1);
    m3.add_fixture(FixtureMetadata::new("fix-1", "seed", 1)).unwrap();
    m3.add_fixture(FixtureMetadata::new("fix-2", "corpus", 1)).unwrap();
    assert_ne!(m1, m3);
}
