//! Fixture linting for schema validation and naming conventions.
//!
//! Validates fixture identifiers, fixture types and metadata against naming
//! conventions and integrity rules, and reports each problem found together
//! with its severity.

use vstd::prelude::*;
use vstd::string::StringExecFns;
use vstd::utf8::encode_utf8;

use crate::fixture_manifest::{is_fixture_type, lemma_metadata_valid_iff, metadata_problem, FixtureMetadata};
use crate::text::{decimal, decimal_string, str_eq};

verus! {

/// Severity level of a linting issue, from least to most severe.
#[derive(Debug, Clone, Copy, PartialEq, Eq, Structural, PartialOrd, Ord)]
pub enum LintLevel {
    /// Informational message.
    Info,
    /// Warning but still valid.
    Warning,
    /// Error that may cause issues.
    Error,
    /// Critical error, fixture is invalid.
    Critical,
}

/// A single linting issue found in a fixture.
#[derive(Debug, Clone, PartialEq, Eq)]
pub struct LintIssue {
    /// Severity of the issue.
    pub level: LintLevel,
    /// Human-readable message.
    pub message: String,
    /// Line number where the issue occurs (if applicable).
    pub line: Option<usize>,
}

/// Result of linting a fixture or fixture set.
#[derive(Debug, Clone)]
pub struct LintReport {
    /// Issues found during linting.
    pub issues: Vec<LintIssue>,
    /// Whether linting passed (no critical or error issues).
    pub passed: bool,
}

/// Error type for linter operations.
#[derive(Debug, Clone, PartialEq, Eq)]
pub enum LinterError {
    /// Invalid fixture format.
    InvalidFormat(String),
    /// I/O error.
    Io(String),
    /// Regex compilation failed.
    RegexError(String),
}

/// Configuration for fixture linting rules.
#[derive(Debug, Clone)]
pub struct LintConfig {
    /// Whether to require fixture IDs to follow naming convention.
    pub enforce_id_naming: bool,
    /// Pattern for valid fixture IDs (regex).
    pub id_pattern: String,
    /// Whether to require failure category.
    pub require_failure_category: bool,
    /// Whether to require checksum.
    pub require_checksum: bool,
    /// Maximum allowed fixture ID length.
    pub max_id_length: usize,
}

/// Fixture linter.
pub struct FixtureLinter {
    config: LintConfig,
}

/// Whether `pattern` compiles under `regex::Regex::new`.
pub uninterp spec fn regex_compiles(pattern: Seq<char>) -> bool;

/// Whether the regex compiled from `pattern` finds a match anywhere in
/// `haystack` (`regex::Regex::is_match`).
pub uninterp spec fn regex_finds_match(pattern: Seq<char>, haystack: Seq<char>) -> bool;

/// Compiles `pattern` with `regex::Regex::new` and, when it compiles, asks
/// `Regex::is_match` on `haystack`. The result is `None` exactly when the
/// pattern does not compile, otherwise whether the regex matches; which
/// patterns compile and what they match is left to the regex crate.
#[verifier::external_body]
fn regex_match(pattern: &str, haystack: &str) -> (r: Option<bool>)
    ensures
        r is Some == regex_compiles(pattern@),
        r matches Some(b) ==> b == regex_finds_match(pattern@, haystack@),
{
    match regex::Regex::new(pattern) {
        Ok(re) => Some(re.is_match(haystack)),
        Err(_) => None,
    }
}

/// The outcome of matching `haystack` against `pattern`: `None` when the
/// pattern does not compile.
pub open spec fn pattern_outcome(pattern: Seq<char>, haystack: Seq<char>) -> Option<bool> {
    if regex_compiles(pattern) {
        Some(regex_finds_match(pattern, haystack))
    } else {
        None
    }
}

/// A lint issue as a plain value: level, message and line.
pub type IssueView = (LintLevel, Seq<char>, Option<usize>);

/// Severity as a number: `Info` < `Warning` < `Error` < `Critical`.
pub open spec fn rank(l: LintLevel) -> nat {
    match l {
        LintLevel::Info => 0,
        LintLevel::Warning => 1,
        LintLevel::Error => 2,
        LintLevel::Critical => 3,
    }
}

/// The display text of a level.
pub open spec fn level_text(l: LintLevel) -> Seq<char> {
    match l {
        LintLevel::Info => "info"@,
        LintLevel::Warning => "warning"@,
        LintLevel::Error => "error"@,
        LintLevel::Critical => "critical"@,
    }
}

/// The display text of a linter error.
pub open spec fn linter_error_text(e: LinterError) -> Seq<char> {
    match e {
        LinterError::InvalidFormat(msg) => "invalid format: "@ + msg@,
        LinterError::Io(msg) => "io error: "@ + msg@,
        LinterError::RegexError(msg) => "regex error: "@ + msg@,
    }
}

/// An issue with no line number.
pub open spec fn issue(level: LintLevel, message: Seq<char>) -> IssueView {
    (level, message, None)
}

/// The plain values of a sequence of issues.
pub open spec fn issues_view(v: Seq<LintIssue>) -> Seq<IssueView> {
    v.map_values(|i: LintIssue| (i.level, i.message@, i.line))
}

/// Whether some issue is at level `Error` or above.
pub open spec fn has_blocking(issues: Seq<IssueView>) -> bool
    decreases issues.len(),
{
    if issues.len() == 0 {
        false
    } else {
        rank(issues.last().0) >= 2 || has_blocking(issues.drop_last())
    }
}

/// `r` lists exactly `issues`, and passes exactly when none of them is at
/// level `Error` or above.
pub open spec fn reports(r: LintReport, issues: Seq<IssueView>) -> bool {
    &&& issues_view(r.issues@) == issues
    &&& r.passed == !has_blocking(issues)
}

/// The length of `s` in UTF-8 bytes, as `str::len` returns it.
pub open spec fn byte_len(s: Seq<char>) -> usize {
    encode_utf8(s).len() as usize
}

/// The default fixture id pattern.
pub open spec fn default_id_pattern() -> Seq<char> {
    "^(fix|seed|bundle|corpus)-[a-zA-Z0-9_-]+$"@
}

/// The default linting rules: naming enforced with the default pattern,
/// neither failure category nor checksum required, ids of at most 256 bytes.
pub open spec fn is_default_config(c: LintConfig) -> bool {
    &&& c.enforce_id_naming
    &&& c.id_pattern@ == default_id_pattern()
    &&& !c.require_failure_category
    &&& !c.require_checksum
    &&& c.max_id_length == 256
}

/// The message for an id longer than allowed.
pub open spec fn too_long_message(len: usize, max: usize) -> Seq<char> {
    "fixture ID exceeds maximum length ("@ + decimal(len as nat) + " > "@ + decimal(max as nat)
        + ")"@
}

/// The message for an id that does not match the naming pattern.
pub open spec fn naming_message(id: Seq<char>, pattern: Seq<char>) -> Seq<char> {
    "fixture ID does not follow naming convention: "@ + id + " (expected pattern: "@ + pattern
        + ")"@
}

/// The issues of fixture id `id` under `cfg`, where `naming` is the outcome
/// of matching the id against the naming pattern (`None`: the pattern does
/// not compile, and naming is not checked).
pub open spec fn id_issues(cfg: LintConfig, id: Seq<char>, naming: Option<bool>) -> Seq<IssueView> {
    if id.len() == 0 {
        seq![issue(LintLevel::Critical, "fixture ID cannot be empty"@)]
    } else {
        let length_issues = if byte_len(id) > cfg.max_id_length {
            seq![issue(LintLevel::Error, too_long_message(byte_len(id), cfg.max_id_length))]
        } else {
            Seq::empty()
        };
        let naming_issues = if cfg.enforce_id_naming && naming == Some(false) {
            seq![issue(LintLevel::Warning, naming_message(id, cfg.id_pattern@))]
        } else {
            Seq::empty()
        };
        length_issues + naming_issues
    }
}

/// The issues of fixture type `t`.
pub open spec fn type_issues(t: Seq<char>) -> Seq<IssueView> {
    if is_fixture_type(t) {
        Seq::empty()
    } else {
        seq![
            issue(
                LintLevel::Critical,
                "invalid fixture type: "@ + t + " (must be 'seed', 'bundle', or 'corpus')"@,
            ),
        ]
    }
}

/// The issues of a failure category under `cfg`.
pub open spec fn category_issues(cfg: LintConfig, category: Option<Seq<char>>) -> Seq<IssueView> {
    if cfg.require_failure_category && (category is None || category->0.len() == 0) {
        seq![issue(LintLevel::Error, "failure_category is required but missing"@)]
    } else {
        Seq::empty()
    }
}

/// The characters of an optional string slice.
pub open spec fn opt_chars(o: Option<&str>) -> Option<Seq<char>> {
    match o {
        Some(s) => Some(s@),
        None => None,
    }
}

/// Whether the id at position `i` already occurred before it.
pub open spec fn seen_before(ids: Seq<Seq<char>>, i: int) -> bool {
    exists|j: int| 0 <= j < i && ids[j] == ids[i]
}

/// One critical issue for each id that repeats an earlier one, in order.
pub open spec fn duplicate_issues(ids: Seq<Seq<char>>) -> Seq<IssueView>
    decreases ids.len(),
{
    if ids.len() == 0 {
        Seq::empty()
    } else {
        let rest = duplicate_issues(ids.drop_last());
        if seen_before(ids, ids.len() - 1) {
            rest.push(issue(LintLevel::Critical, "duplicate fixture ID: "@ + ids.last()))
        } else {
            rest
        }
    }
}

/// The characters of each string slice.
pub open spec fn slices_chars(ids: Seq<&str>) -> Seq<Seq<char>> {
    ids.map_values(|s: &str| s@)
}

impl LintLevel {
    /// Renders the level as its display text.
    pub fn to_string(&self) -> (r: String)
        ensures
            r@ == level_text(*self),
    {
        match self {
            LintLevel::Info => String::from_str("info"),
            LintLevel::Warning => String::from_str("warning"),
            LintLevel::Error => String::from_str("error"),
            LintLevel::Critical => String::from_str("critical"),
        }
    }

    /// Whether the level is `Error` or above.
    fn is_blocking(&self) -> (r: bool)
        ensures
            r == (rank(*self) >= 2),
    {
        match self {
            LintLevel::Error | LintLevel::Critical => true,
            _ => false,
        }
    }
}

impl LinterError {
    /// Renders the error as its display text.
    pub fn to_string(&self) -> (r: String)
        ensures
            r@ == linter_error_text(*self),
    {
        match self {
            LinterError::InvalidFormat(msg) => String::from_str("invalid format: ").concat(
                msg.as_str(),
            ),
            LinterError::Io(msg) => String::from_str("io error: ").concat(msg.as_str()),
            LinterError::RegexError(msg) => String::from_str("regex error: ").concat(msg.as_str()),
        }
    }
}

impl Default for LintConfig {
    /// The default linting rules.
    fn default() -> (r: Self)
        ensures
            is_default_config(r),
    {
        LintConfig {
            enforce_id_naming: true,
            id_pattern: String::from_str("^(fix|seed|bundle|corpus)-[a-zA-Z0-9_-]+$"),
            require_failure_category: false,
            require_checksum: false,
            max_id_length: 256,
        }
    }
}

/// An issue with no line number.
fn new_issue(level: LintLevel, message: String) -> (r: LintIssue)
    ensures
        (r.level, r.message@, r.line) == issue(level, message@),
{
    LintIssue { level, message, line: None }
}

/// Builds the report for `issues`.
fn report_of(issues: Vec<LintIssue>) -> (r: LintReport)
    ensures
        reports(r, issues_view(issues@)),
{
    let ghost v = issues_view(issues@);
    let mut blocking = false;
    let mut i: usize = 0;
    while i < issues.len()
        invariant
            v == issues_view(issues@),
            i <= issues@.len(),
            blocking == has_blocking(v.take(i as int)),
        decreases issues@.len() - i,
    {
        assert(v.take(i + 1).drop_last() =~= v.take(i as int));
        if issues[i].level.is_blocking() {
            blocking = true;
        }
        i = i + 1;
    }
    assert(v.take(i as int) =~= v);
    LintReport { issues, passed: !blocking }
}

impl FixtureLinter {
    /// The rules this linter applies.
    pub closed spec fn configuration(&self) -> LintConfig {
        self.config
    }

    /// Creates a new linter with default configuration.
    pub fn new() -> (r: Self)
        ensures
            is_default_config(r.configuration()),
    {
        FixtureLinter { config: LintConfig::default() }
    }

    /// Creates a linter with custom configuration.
    pub fn with_config(config: LintConfig) -> (r: Self)
        ensures
            r.configuration() == config,
    {
        FixtureLinter { config }
    }

    /// Matches a non-empty `id` against the naming pattern when naming is
    /// enforced; `None` otherwise, or when the pattern does not compile.
    fn naming_check(&self, id: &str) -> (r: Option<bool>)
        ensures
            id@.len() > 0 && self.config.enforce_id_naming ==> r == pattern_outcome(
                self.config.id_pattern@,
                id@,
            ),
            !(id@.len() > 0 && self.config.enforce_id_naming) ==> r is None,
    {
        if !id.is_empty() && self.config.enforce_id_naming {
            regex_match(self.config.id_pattern.as_str(), id)
        } else {
            None
        }
    }

    /// Lints a fixture ID: it must be non-empty, at most `max_id_length`
    /// bytes long, and (when naming is enforced) match the id pattern.
    pub fn lint_fixture_id(&self, id: &str) -> (r: LintReport)
        ensures
            reports(
                r,
                id_issues(
                    self.configuration(),
                    id@,
                    pattern_outcome(self.configuration().id_pattern@, id@),
                ),
            ),
    {
        let naming = self.naming_check(id);
        self.lint_fixture_id_with(id, naming)
    }

    /// Lints a fixture ID given the outcome of matching it against the id
    /// pattern (`None` when the pattern does not compile).
    pub fn lint_fixture_id_with(&self, id: &str, naming: Option<bool>) -> (r: LintReport)
        ensures
            reports(r, id_issues(self.configuration(), id@, naming)),
            r.passed == (id@.len() > 0 && id.len() <= self.configuration().max_id_length),
            id@.len() == 0 ==> r.issues@.len() == 1 && r.issues@[0].level == LintLevel::Critical
                && r.issues@[0].message@ == "fixture ID cannot be empty"@,
            id@.len() > 0 ==> r.issues@.len() == (if id.len() > self.configuration().max_id_length {
                1int
            } else {
                0int
            }) + (if self.configuration().enforce_id_naming && naming == Some(false) {
                1int
            } else {
                0int
            }),
            id@.len() > 0 && id.len() > self.configuration().max_id_length ==> r.issues@[0].level
                == LintLevel::Error,
            id@.len() > 0 && self.configuration().enforce_id_naming && naming == Some(false) ==> {
                &&& r.issues@.last().level == LintLevel::Warning
                &&& r.issues@.last().message@ == "fixture ID does not follow naming convention: "@
                    + id@ + " (expected pattern: "@ + self.configuration().id_pattern@ + ")"@
            },
            id@.len() > 0 && !(self.configuration().enforce_id_naming && naming == Some(false)) ==> forall|k: int|
                0 <= k < r.issues@.len() ==> (#[trigger] r.issues@[k]).level == LintLevel::Error,
    {
        proof { lemma_id_passes_iff(self.config, id@, naming); }
        let mut issues: Vec<LintIssue> = Vec::new();
        if id.is_empty() {
            issues.push(new_issue(LintLevel::Critical, String::from_str("fixture ID cannot be empty")));
            assert(issues_view(issues@) =~= id_issues(self.config, id@, naming));
            return report_of(issues);
        }
        let len = id.len();
        if len > self.config.max_id_length {
            let msg = String::from_str("fixture ID exceeds maximum length (").concat(
                decimal_string(len as u64).as_str(),
            ).concat(" > ").concat(decimal_string(self.config.max_id_length as u64).as_str()).concat(
                ")",
            );
            issues.push(new_issue(LintLevel::Error, msg));
        }
        if self.config.enforce_id_naming {
            if naming == Some(false) {
                let msg = String::from_str("fixture ID does not follow naming convention: ").concat(
                    id,
                ).concat(" (expected pattern: ").concat(self.config.id_pattern.as_str()).concat(
                    ")",
                );
                issues.push(new_issue(LintLevel::Warning, msg));
            }
        }
        assert(issues_view(issues@) =~= id_issues(self.config, id@, naming));
        let r = report_of(issues);
        assert(r.issues@.len() > 0 ==> issues_view(r.issues@)[0].0 == r.issues@[0].level);
        assert(r.issues@.len() > 0 ==> issues_view(r.issues@).last() == (
            r.issues@.last().level,
            r.issues@.last().message@,
            r.issues@.last().line,
        ));
        r
    }

    /// Lints a fixture type: it must be 'seed', 'bundle', or 'corpus'.
    pub fn lint_fixture_type(&self, fixture_type: &str) -> (r: LintReport)
        ensures
            reports(r, type_issues(fixture_type@)),
            r.passed == (fixture_type@ == "seed"@ || fixture_type@ == "bundle"@ || fixture_type@
                == "corpus"@),
            r.passed == (r.issues@.len() == 0),
            !r.passed ==> r.issues@.len() == 1 && r.issues@[0].level == LintLevel::Critical,
    {
        let mut issues: Vec<LintIssue> = Vec::new();
        if !(str_eq(fixture_type, "seed") || str_eq(fixture_type, "bundle") || str_eq(
            fixture_type,
            "corpus",
        )) {
            let msg = String::from_str("invalid fixture type: ").concat(fixture_type).concat(
                " (must be 'seed', 'bundle', or 'corpus')",
            );
            issues.push(new_issue(LintLevel::Critical, msg));
        }
        assert(issues_view(issues@) =~= type_issues(fixture_type@));
        let r = report_of(issues);
        r
    }

    /// Lints fixture metadata: the issues of the id, then those of the type,
    /// then a missing required failure category.
    pub fn lint_metadata(
        &self,
        id: &str,
        fixture_type: &str,
        failure_category: Option<&str>,
    ) -> (r: LintReport)
        ensures
            reports(
                r,
                id_issues(
                    self.configuration(),
                    id@,
                    pattern_outcome(self.configuration().id_pattern@, id@),
                ) + type_issues(fixture_type@) + category_issues(
                    self.configuration(),
                    opt_chars(failure_category),
                ),
            ),
            !self.configuration().require_failure_category || (failure_category is Some
                && failure_category->0@.len() > 0) ==> issues_view(r.issues@) == id_issues(
                self.configuration(),
                id@,
                pattern_outcome(self.configuration().id_pattern@, id@),
            ) + type_issues(fixture_type@),
            self.configuration().require_failure_category && (failure_category is None
                || failure_category->0@.len() == 0) ==> issues_view(r.issues@) == id_issues(
                self.configuration(),
                id@,
                pattern_outcome(self.configuration().id_pattern@, id@),
            ) + type_issues(fixture_type@) + seq![
                (LintLevel::Error, "failure_category is required but missing"@, None::<usize>),
            ],
            r.passed == {
                &&& id@.len() > 0
                &&& id.len() <= self.configuration().max_id_length
                &&& (fixture_type@ == "seed"@ || fixture_type@ == "bundle"@ || fixture_type@
                    == "corpus"@)
                &&& (self.configuration().require_failure_category ==> (failure_category is Some
                    && failure_category->0@.len() > 0))
            },
    {
        proof {
            lemma_metadata_lint_passes_iff(
                self.config,
                id@,
                fixture_type@,
                opt_chars(failure_category),
                pattern_outcome(self.config.id_pattern@, id@),
            );
            let base = id_issues(self.config, id@, pattern_outcome(self.config.id_pattern@, id@))
                + type_issues(fixture_type@);
            assert(base + Seq::<IssueView>::empty() =~= base);
        }
        let id_report = self.lint_fixture_id(id);
        let mut all_issues = id_report.issues;
        let type_report = self.lint_fixture_type(fixture_type);
        let mut type_list = type_report.issues;
        all_issues.append(&mut type_list);
        if self.config.require_failure_category {
            let missing = match failure_category {
                None => true,
                Some(c) => c.is_empty(),
            };
            if missing {
                all_issues.push(
                    new_issue(
                        LintLevel::Error,
                        String::from_str("failure_category is required but missing"),
                    ),
                );
            }
        }
        assert(issues_view(all_issues@) =~= id_issues(
            self.config,
            id@,
            pattern_outcome(self.config.id_pattern@, id@),
        ) + type_issues(fixture_type@) + category_issues(self.config, opt_chars(failure_category)));
        report_of(all_issues)
    }

    /// Detects duplicate IDs in a fixture collection: one critical issue for
    /// each id that repeats an earlier one.
    pub fn check_duplicate_ids(&self, ids: &[&str]) -> (r: LintReport)
        ensures
            reports(r, duplicate_issues(slices_chars(ids@))),
            r.passed == (r.issues@.len() == 0),
            r.passed == slices_chars(ids@).no_duplicates(),
            r.issues@.len() + slices_chars(ids@).to_set().len() == ids@.len(),
            forall|k: int|
                0 <= k < r.issues@.len() ==> {
                    &&& (#[trigger] r.issues@[k]).level == LintLevel::Critical
                    &&& r.issues@[k].line is None
                    &&& exists|i: int, j: int|
                        0 <= j < i < ids@.len() && (#[trigger] ids@[j])@ == ids@[i]@ && r.issues@[k].message@
                            == "duplicate fixture ID: "@ + (#[trigger] ids@[i])@
                },
    {
        let ghost all = slices_chars(ids@);
        let mut issues: Vec<LintIssue> = Vec::new();
        let mut i: usize = 0;
        while i < ids.len()
            invariant
                all == slices_chars(ids@),
                i <= ids@.len(),
                issues_view(issues@) == duplicate_issues(all.take(i as int)),
            decreases ids@.len() - i,
        {
            let ghost prefix = all.take(i + 1);
            assert(prefix.drop_last() =~= all.take(i as int));
            let mut seen = false;
            let mut j: usize = 0;
            while j < i
                invariant
                    all == slices_chars(ids@),
                    i < ids@.len(),
                    j <= i,
                    seen == exists|k: int| 0 <= k < j && all[k] == all[i as int],
                decreases i - j,
            {
                assert(all[j as int] == ids@[j as int]@ && all[i as int] == ids@[i as int]@);
                if str_eq(ids[j], ids[i]) {
                    seen = true;
                }
                j = j + 1;
            }
            assert(seen == seen_before(prefix, i as int)) by {
                if seen {
                    let k = choose|k: int| 0 <= k < i && all[k] == all[i as int];
                    assert(prefix[k] == prefix[i as int]);
                }
                if seen_before(prefix, i as int) {
                    let k = choose|k: int| 0 <= k < i && prefix[k] == prefix[i as int];
                    assert(all[k] == all[i as int]);
                }
            }
            if seen {
                let msg = String::from_str("duplicate fixture ID: ").concat(ids[i]);
                issues.push(new_issue(LintLevel::Critical, msg));
            }
            assert(issues_view(issues@) =~= duplicate_issues(prefix));
            i = i + 1;
        }
        assert(all.take(i as int) =~= all);
        let r = report_of(issues);
        proof {
            lemma_duplicate_issues_critical(all);
            lemma_duplicate_issues_empty_iff(all);
            lemma_duplicate_issue_count(all);
            lemma_duplicate_issues_shape(all);
            assert forall|k: int| 0 <= k < r.issues@.len() implies {
                &&& (#[trigger] r.issues@[k]).level == LintLevel::Critical
                &&& r.issues@[k].line is None
                &&& exists|i: int, j: int|
                    0 <= j < i < ids@.len() && (#[trigger] ids@[j])@ == ids@[i]@ && r.issues@[k].message@
                        == "duplicate fixture ID: "@ + (#[trigger] ids@[i])@
            } by {
                let v = duplicate_issues(all);
                assert(issues_view(r.issues@)[k] == v[k]);
                let (i, j) = choose|i: int, j: int|
                    0 <= j < i < all.len() && all[j] == all[i] && v[k].1 == "duplicate fixture ID: "@
                        + all[i];
                assert(all[i] == ids@[i]@ && all[j] == ids@[j]@);
            }
            let v = duplicate_issues(all);
            assert(issues_view(r.issues@).len() == r.issues@.len());
            if v.len() > 0 {
                assert(rank(v.last().0) >= 2);
            }
        }
        r
    }
}

impl Default for FixtureLinter {
    /// A linter with the default configuration.
    fn default() -> (r: Self)
        ensures
            is_default_config(r.configuration()),
    {
        Self::new()
    }
}

/// Every duplicate issue is critical.
proof fn lemma_duplicate_issues_critical(ids: Seq<Seq<char>>)
    ensures
        forall|i: int|
            0 <= i < duplicate_issues(ids).len() ==> #[trigger] duplicate_issues(ids)[i].0
                == LintLevel::Critical,
    decreases ids.len(),
{
    if ids.len() > 0 {
        lemma_duplicate_issues_critical(ids.drop_last());
    }
}

/// One duplicate issue is raised per repeated occurrence: the number of
/// issues plus the number of distinct ids is the number of ids.
pub proof fn lemma_duplicate_issue_count(ids: Seq<Seq<char>>)
    ensures
        duplicate_issues(ids).len() + ids.to_set().len() == ids.len(),
    decreases ids.len(),
{
    if ids.len() == 0 {
        assert(ids.to_set() =~= Set::<Seq<char>>::empty());
    } else {
        let rest = ids.drop_last();
        let n = ids.len() - 1;
        lemma_duplicate_issue_count(rest);
        assert(rest.push(ids.last()) =~= ids);
        rest.lemma_push_to_set_commute(ids.last());
        vstd::seq_lib::seq_to_set_is_finite(rest);
        if seen_before(ids, n) {
            let j = choose|j: int| 0 <= j < n && ids[j] == ids[n];
            assert(rest[j] == ids.last());
            assert(rest.to_set().contains(ids.last()));
            assert(rest.to_set().insert(ids.last()) =~= rest.to_set());
        } else {
            assert(!rest.to_set().contains(ids.last())) by {
                if rest.contains(ids.last()) {
                    let j = choose|j: int| 0 <= j < rest.len() && rest[j] == ids.last();
                    assert(ids[j] == ids[n]);
                }
            }
        }
    }
}

/// Every duplicate issue is critical, has no line, and names an id that
/// occurs at an earlier position too.
pub proof fn lemma_duplicate_issues_shape(ids: Seq<Seq<char>>)
    ensures
        forall|k: int|
            0 <= k < duplicate_issues(ids).len() ==> {
                &&& (#[trigger] duplicate_issues(ids)[k]).0 == LintLevel::Critical
                &&& duplicate_issues(ids)[k].2 is None
                &&& exists|i: int, j: int|
                    0 <= j < i < ids.len() && ids[j] == ids[i] && duplicate_issues(ids)[k].1
                        == "duplicate fixture ID: "@ + ids[i]
            },
    decreases ids.len(),
{
    if ids.len() > 0 {
        let rest = ids.drop_last();
        lemma_duplicate_issues_shape(rest);
        let v = duplicate_issues(ids);
        let v0 = duplicate_issues(rest);
        assert forall|k: int| 0 <= k < v.len() implies {
            &&& (#[trigger] v[k]).0 == LintLevel::Critical
            &&& v[k].2 is None
            &&& exists|i: int, j: int|
                0 <= j < i < ids.len() && ids[j] == ids[i] && v[k].1 == "duplicate fixture ID: "@
                    + ids[i]
        } by {
            if k < v0.len() {
                assert(v[k] == v0[k]);
                let (i, j) = choose|i: int, j: int|
                    0 <= j < i < rest.len() && rest[j] == rest[i] && v0[k].1
                        == "duplicate fixture ID: "@ + rest[i];
                assert(ids[i] == rest[i] && ids[j] == rest[j]);
            } else {
                let n = ids.len() - 1;
                let j = choose|j: int| 0 <= j < n && ids[j] == ids[n];
                assert(ids.last() == ids[n]);
            }
        }
    }
}

/// No duplicate issue is raised exactly when no id occurs twice.
pub proof fn lemma_duplicate_issues_empty_iff(ids: Seq<Seq<char>>)
    ensures
        (duplicate_issues(ids).len() == 0) == ids.no_duplicates(),
    decreases ids.len(),
{
    if ids.len() > 0 {
        let rest = ids.drop_last();
        let n = ids.len() - 1;
        lemma_duplicate_issues_empty_iff(rest);
        if ids.no_duplicates() {
            assert(rest.no_duplicates()) by {
                assert forall|i: int, j: int|
                    0 <= i < rest.len() && 0 <= j < rest.len() && i != j implies rest[i]
                    != rest[j] by {
                    assert(ids[i] != ids[j]);
                }
            }
            assert(!seen_before(ids, n)) by {
                if seen_before(ids, n) {
                    let j = choose|j: int| 0 <= j < n && ids[j] == ids[n];
                    assert(ids[j] != ids[n]);
                }
            }
        }
        if seen_before(ids, n) {
            assert(!ids.no_duplicates()) by {
                let j = choose|j: int| 0 <= j < n && ids[j] == ids[n];
                assert(ids[j] == ids[n]);
            }
        }
        if rest.no_duplicates() && !seen_before(ids, n) {
            assert forall|i: int, j: int|
                0 <= i < ids.len() && 0 <= j < ids.len() && i != j implies ids[i] != ids[j] by {
                if i == n {
                    assert(!(0 <= j < n && ids[j] == ids[n]));
                } else if j == n {
                    assert(!(0 <= i < n && ids[i] == ids[n]));
                } else {
                    assert(rest[i] != rest[j]);
                }
            }
        }
        if !rest.no_duplicates() {
            let (i, j) = choose|i: int, j: int|
                0 <= i < rest.len() && 0 <= j < rest.len() && i != j && rest[i] == rest[j];
            assert(ids[i] == ids[j]);
        }
    }
}

/// Some issue of `a + b` blocks exactly when some issue of `a` or of `b`
/// does.
pub proof fn lemma_blocking_concat(a: Seq<IssueView>, b: Seq<IssueView>)
    ensures
        has_blocking(a + b) == (has_blocking(a) || has_blocking(b)),
    decreases b.len(),
{
    if b.len() == 0 {
        assert(a + b =~= a);
    } else {
        assert((a + b).drop_last() =~= a + b.drop_last());
        assert((a + b).last() == b.last());
        lemma_blocking_concat(a, b.drop_last());
    }
}

/// A fixture id passes linting exactly when it is non-empty and no longer
/// than the maximum length: a naming-convention mismatch is only a warning.
pub proof fn lemma_id_passes_iff(cfg: LintConfig, id: Seq<char>, naming: Option<bool>)
    ensures
        !has_blocking(id_issues(cfg, id, naming)) == (id.len() > 0 && byte_len(id)
            <= cfg.max_id_length),
{
    let issues = id_issues(cfg, id, naming);
    if id.len() == 0 {
        assert(issues.drop_last() =~= Seq::<IssueView>::empty());
    } else {
        let length_issues = if byte_len(id) > cfg.max_id_length {
            seq![issue(LintLevel::Error, too_long_message(byte_len(id), cfg.max_id_length))]
        } else {
            Seq::<IssueView>::empty()
        };
        let naming_issues = if cfg.enforce_id_naming && naming == Some(false) {
            seq![issue(LintLevel::Warning, naming_message(id, cfg.id_pattern@))]
        } else {
            Seq::<IssueView>::empty()
        };
        assert(issues == length_issues + naming_issues);
        lemma_blocking_concat(length_issues, naming_issues);
        assert(!has_blocking(Seq::<IssueView>::empty()));
        if length_issues.len() > 0 {
            assert(length_issues.drop_last() =~= Seq::<IssueView>::empty());
            assert(has_blocking(length_issues));
        } else {
            assert(!has_blocking(length_issues));
        }
        if naming_issues.len() > 0 {
            assert(naming_issues.drop_last() =~= Seq::<IssueView>::empty());
            assert(!has_blocking(naming_issues));
        } else {
            assert(!has_blocking(naming_issues));
        }
    }
}

/// Metadata linting passes exactly when the id passes, the type is one of
/// 'seed', 'bundle', 'corpus', and a required failure category is present
/// and non-empty.
pub proof fn lemma_metadata_lint_passes_iff(
    cfg: LintConfig,
    id: Seq<char>,
    fixture_type: Seq<char>,
    category: Option<Seq<char>>,
    naming: Option<bool>,
)
    ensures
        !has_blocking(
            id_issues(cfg, id, naming) + type_issues(fixture_type) + category_issues(cfg, category),
        ) == {
            &&& id.len() > 0
            &&& byte_len(id) <= cfg.max_id_length
            &&& (fixture_type == "seed"@ || fixture_type == "bundle"@ || fixture_type == "corpus"@)
            &&& (cfg.require_failure_category ==> (category matches Some(c) && c.len() > 0))
        },
{
    let a = id_issues(cfg, id, naming);
    let b = type_issues(fixture_type);
    let c = category_issues(cfg, category);
    lemma_blocking_concat(a + b, c);
    lemma_blocking_concat(a, b);
    lemma_id_passes_iff(cfg, id, naming);
    assert(b.len() > 0 ==> b.drop_last() =~= Seq::<IssueView>::empty());
    assert(c.len() > 0 ==> c.drop_last() =~= Seq::<IssueView>::empty());
}

/// The linter and the manifest accept the same fixture types: metadata with
/// a non-empty id is valid exactly when linting its type raises no issue.
pub proof fn lemma_type_rules_agree(m: FixtureMetadata)
    requires
        m.id@.len() > 0,
    ensures
        (metadata_problem(m) is None) == (type_issues(m.fixture_type@).len() == 0),
{
    lemma_metadata_valid_iff(m);
}

} // verus!
