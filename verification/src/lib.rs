//! Fixture linting, fixture manifests and failure-signature comparison for
//! a crash-reproduction lab.

pub mod fixture_linter;
pub mod fixture_manifest;
pub mod signature_comparison;
pub mod str_map;
pub mod text;

pub use fixture_linter::{
    FixtureLinter, LintConfig, LintIssue, LintLevel, LintReport, LinterError,
};
pub use fixture_manifest::{
    FixtureManifest, FixtureMetadata, ManifestError, FIXTURE_MANIFEST_SCHEMA_VERSION,
};
pub use signature_comparison::{
    compare_signatures, ComparisonError, ComparisonMetrics, SignatureComparisonResult,
    SignatureInfo, SignatureSnapshot,
};
pub use str_map::StrMap;
