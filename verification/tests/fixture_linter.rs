use crashlab_core::fixture_linter::{FixtureLinter, LintConfig, LintLevel, LinterError};

#[test]
fn test_empty_id() {
    let linter = FixtureLinter::new();
    let report = linter.lint_fixture_id("");
    assert!(!report.passed);
    assert_eq!(report.issues[0].level, LintLevel::Critical);
}

#[test]
fn test_valid_id() {
    let linter = FixtureLinter::new();
    let report = linter.lint_fixture_id("fix-test-001");
    assert!(report.passed);
}

#[test]
fn test_id_naming_convention() {
    let linter = FixtureLinter::new();

    let valid_patterns = vec![
        "fix-test",
        "seed-crash-001",
        "bundle-regression",
        "corpus-v1_2_3",
        "fix-test-with-many-dashes",
    ];

    for id in valid_patterns {
        let report = linter.lint_fixture_id(id);
        assert!(
            report.passed,
            "ID '{}' should be valid but got issues: {:?}",
            id,
            report.issues
        );
    }
}

#[test]
fn test_id_too_long() {
    let config = LintConfig {
        max_id_length: 10,
        ..Default::default()
    };
    let linter = FixtureLinter::with_config(config);
    let report = linter.lint_fixture_id("this-is-a-very-long-fixture-id");
    assert!(!report.passed);
}

#[test]
fn test_fixture_type_validation() {
    let linter = FixtureLinter::new();

    assert!(linter.lint_fixture_type("seed").passed);
    assert!(linter.lint_fixture_type("bundle").passed);
    assert!(linter.lint_fixture_type("corpus").passed);
    assert!(!linter.lint_fixture_type("invalid").passed);
}

#[test]
fn test_duplicate_ids() {
    let linter = FixtureLinter::new();
    let ids = vec!["fix-001", "fix-002", "fix-001"];
    let report = linter.check_duplicate_ids(&ids);
    assert!(!report.passed);
    assert_eq!(report.issues.len(), 1);
    assert_eq!(report.issues[0].level, LintLevel::Critical);
}

#[test]
fn test_metadata_linting() {
    let linter = FixtureLinter::new();
    let report = linter.lint_metadata("fix-001", "seed", Some("Panic"));
    assert!(report.passed);
}

#[test]
fn test_metadata_linting_missing_category() {
    let config = LintConfig {
        require_failure_category: true,
        ..Default::default()
    };
    let linter = FixtureLinter::with_config(config);
    let report = linter.lint_metadata("fix-001", "seed", None);
    assert!(!report.passed);
}

// Further cases.

#[test]
fn default_config_values() {
    let config = LintConfig::default();
    assert!(config.enforce_id_naming);
    assert_eq!(config.id_pattern, "^(fix|seed|bundle|corpus)-[a-zA-Z0-9_-]+$");
    assert!(!config.require_failure_category);
    assert!(!config.require_checksum);
    assert_eq!(config.max_id_length, 256);
}

#[test]
fn empty_id_message() {
    let report = FixtureLinter::new().lint_fixture_id("");
    assert_eq!(report.issues.len(), 1);
    assert_eq!(report.issues[0].message, "fixture ID cannot be empty");
    assert_eq!(report.issues[0].line, None);
}

#[test]
fn naming_mismatch_is_only_a_warning() {
    let report = FixtureLinter::new().lint_fixture_id("not-a-fixture");
    assert!(report.passed);
    assert_eq!(report.issues.len(), 1);
    assert_eq!(report.issues[0].level, LintLevel::Warning);
    assert_eq!(
        report.issues[0].message,
        "fixture ID does not follow naming convention: not-a-fixture (expected pattern: ^(fix|seed|bundle|corpus)-[a-zA-Z0-9_-]+$)"
    );
}

#[test]
fn pattern_is_anchored() {
    let report = FixtureLinter::new().lint_fixture_id("xfix-abc");
    assert_eq!(report.issues.len(), 1);
    let report = FixtureLinter::new().lint_fixture_id("fix-abc!");
    assert_eq!(report.issues.len(), 1);
    let report = FixtureLinter::new().lint_fixture_id("fix-");
    assert_eq!(report.issues.len(), 1);
}

#[test]
fn naming_not_enforced() {
    let config = LintConfig {
        enforce_id_naming: false,
        ..Default::default()
    };
    let report = FixtureLinter::with_config(config).lint_fixture_id("anything goes");
    assert!(report.passed);
    assert!(report.issues.is_empty());
}

#[test]
fn invalid_pattern_skips_naming_check() {
    let config = LintConfig {
        id_pattern: "fix(".to_string(),
        ..Default::default()
    };
    let report = FixtureLinter::with_config(config).lint_fixture_id("whatever");
    assert!(report.passed);
    assert!(report.issues.is_empty());
}

#[test]
fn too_long_message_and_level() {
    let config = LintConfig {
        max_id_length: 10,
        ..Default::default()
    };
    let report = FixtureLinter::with_config(config).lint_fixture_id("fix-0123456789");
    assert!(!report.passed);
    assert_eq!(report.issues.len(), 1);
    assert_eq!(report.issues[0].level, LintLevel::Error);
    assert_eq!(
        report.issues[0].message,
        "fixture ID exceeds maximum length (14 > 10)"
    );
}

#[test]
fn length_is_counted_in_bytes() {
    let config = LintConfig {
        max_id_length: 5,
        enforce_id_naming: false,
        ..Default::default()
    };
    let linter = FixtureLinter::with_config(config);
    // Three characters, six bytes.
    let report = linter.lint_fixture_id("ééé");
    assert!(!report.passed);
    assert_eq!(report.issues[0].message, "fixture ID exceeds maximum length (6 > 5)");
    // Exactly at the limit passes.
    assert!(linter.lint_fixture_id("abcde").passed);
}

#[test]
fn long_and_misnamed_id_gets_both_issues_in_order() {
    let config = LintConfig {
        max_id_length: 3,
        ..Default::default()
    };
    let report = FixtureLinter::with_config(config).lint_fixture_id("abcd");
    assert_eq!(report.issues.len(), 2);
    assert_eq!(report.issues[0].level, LintLevel::Error);
    assert_eq!(report.issues[1].level, LintLevel::Warning);
    assert!(!report.passed);
}

#[test]
fn given_naming_outcome_is_used() {
    let linter = FixtureLinter::new();
    let report = linter.lint_fixture_id_with("fix-1", Some(false));
    assert_eq!(report.issues.len(), 1);
    assert_eq!(report.issues[0].level, LintLevel::Warning);
    assert!(report.passed);
    let report = linter.lint_fixture_id_with("fix-1", Some(true));
    assert!(report.issues.is_empty());
    let report = linter.lint_fixture_id_with("fix-1", None);
    assert!(report.issues.is_empty());
}

#[test]
fn invalid_type_message() {
    let report = FixtureLinter::new().lint_fixture_type("Seed");
    assert!(!report.passed);
    assert_eq!(report.issues.len(), 1);
    assert_eq!(report.issues[0].level, LintLevel::Critical);
    assert_eq!(
        report.issues[0].message,
        "invalid fixture type: Seed (must be 'seed', 'bundle', or 'corpus')"
    );
}

#[test]
fn duplicates_each_repeat_reported() {
    let linter = FixtureLinter::new();
    let ids = vec!["a", "b", "a", "a", "b", "c"];
    let report = linter.check_duplicate_ids(&ids);
    assert!(!report.passed);
    assert_eq!(report.issues.len(), 3);
    assert_eq!(report.issues[0].message, "duplicate fixture ID: a");
    assert_eq!(report.issues[1].message, "duplicate fixture ID: a");
    assert_eq!(report.issues[2].message, "duplicate fixture ID: b");
}

#[test]
fn no_duplicates_passes() {
    let linter = FixtureLinter::new();
    let empty: Vec<&str> = Vec::new();
    assert!(linter.check_duplicate_ids(&empty).passed);
    let ids = vec!["fix-001", "fix-002", "fix-003"];
    let report = linter.check_duplicate_ids(&ids);
    assert!(report.passed);
    assert!(report.issues.is_empty());
}

#[test]
fn metadata_issues_in_order() {
    let config = LintConfig {
        require_failure_category: true,
        ..Default::default()
    };
    let linter = FixtureLinter::with_config(config);
    let report = linter.lint_metadata("", "nope", Some(""));
    assert!(!report.passed);
    assert_eq!(report.issues.len(), 3);
    assert_eq!(report.issues[0].message, "fixture ID cannot be empty");
    assert_eq!(report.issues[1].level, LintLevel::Critical);
    assert_eq!(report.issues[2].level, LintLevel::Error);
    assert_eq!(report.issues[2].message, "failure_category is required but missing");
}

#[test]
fn metadata_category_present_passes_when_required() {
    let config = LintConfig {
        require_failure_category: true,
        ..Default::default()
    };
    let linter = FixtureLinter::with_config(config);
    assert!(linter.lint_metadata("seed-1", "bundle", Some("Panic")).passed);
}

#[test]
fn default_linter_matches_new() {
    let a = FixtureLinter::default().lint_fixture_id("bad id");
    let b = FixtureLinter::new().lint_fixture_id("bad id");
    assert_eq!(a.issues, b.issues);
    assert_eq!(a.passed, b.passed);
}

#[test]
fn level_texts() {
    assert_eq!(LintLevel::Info.to_string(), "info");
    assert_eq!(LintLevel::Warning.to_string(), "warning");
    assert_eq!(LintLevel::Error.to_string(), "error");
    assert_eq!(LintLevel::Critical.to_string(), "critical");
    assert!(LintLevel::Info < LintLevel::Warning);
    assert!(LintLevel::Error < LintLevel::Critical);
}

#[test]
fn linter_error_texts() {
    assert_eq!(
        LinterError::InvalidFormat("x".to_string()).to_string(),
        "invalid format: x"
    );
    assert_eq!(LinterError::Io("disk".to_string()).to_string(), "io error: disk");
    assert_eq!(
        LinterError::RegexError("bad".to_string()).to_string(),
        "regex error: bad"
    );
}
