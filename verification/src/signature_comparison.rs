//! Signature comparison for regression detection.
//!
//! Compares current run signatures against baseline snapshots to detect
//! regressions, distinguishing between new, fixed, and recurring failures.

use vstd::prelude::*;
use vstd::string::StringExecFns;

use crate::str_map::{
    distinct_keys, has_key, insert_pair, keys_of, lemma_lookup_after_insert, lookup, StrMap,
};

verus! {

/// A signature snapshot for baseline comparison.
#[derive(Debug, Clone)]
pub struct SignatureSnapshot {
    /// Unique snapshot identifier.
    pub id: String,
    /// Snapshot description/label.
    pub label: String,
    /// Failure signatures in this snapshot, keyed by hash.
    pub signatures: StrMap<SignatureInfo>,
    /// Timestamp when snapshot was created (ISO 8601).
    pub created_at: Option<String>,
}

/// Information about a single failure signature.
#[derive(Debug, Clone, PartialEq, Eq)]
pub struct SignatureInfo {
    /// Signature hash/digest.
    pub hash: String,
    /// Failure category.
    pub category: String,
    /// Number of times observed.
    pub occurrence_count: usize,
    /// First observed timestamp.
    pub first_seen: Option<String>,
    /// Last observed timestamp.
    pub last_seen: Option<String>,
}

/// Result of comparing current signatures against a baseline.
#[derive(Debug, Clone)]
pub struct SignatureComparisonResult {
    /// Signatures present in current but not in baseline (new failures).
    pub new_signatures: Vec<String>,
    /// Signatures present in baseline but not in current (fixed failures).
    pub fixed_signatures: Vec<String>,
    /// Signatures present in both (recurring failures).
    pub recurring_signatures: Vec<String>,
    /// Detailed comparison metrics.
    pub metrics: ComparisonMetrics,
}

/// Metrics from signature comparison.
#[derive(Debug, Clone, PartialEq, Eq, Structural)]
pub struct ComparisonMetrics {
    /// Total unique signatures in baseline.
    pub baseline_total: usize,
    /// Total unique signatures in current.
    pub current_total: usize,
    /// Number of new signatures discovered.
    pub new_count: usize,
    /// Number of signatures that have been fixed.
    pub fixed_count: usize,
    /// Number of signatures recurring from baseline.
    pub recurring_count: usize,
    /// Regression indicator: true when at least one new signature appeared.
    pub has_regressions: bool,
}

/// Error type for signature comparison operations.
#[derive(Debug, Clone, PartialEq, Eq)]
pub enum ComparisonError {
    /// Snapshot not found.
    SnapshotNotFound(String),
    /// Signature not found in snapshot.
    SignatureNotFound(String),
    /// Validation failed.
    ValidationFailed(String),
    /// Serialization error.
    SerializationError(String),
}

/// The display text of a comparison error.
pub open spec fn comparison_error_text(e: ComparisonError) -> Seq<char> {
    match e {
        ComparisonError::SnapshotNotFound(id) => "snapshot not found: "@ + id@,
        ComparisonError::SignatureNotFound(sig) => "signature not found: "@ + sig@,
        ComparisonError::ValidationFailed(msg) => "validation failed: "@ + msg@,
        ComparisonError::SerializationError(msg) => "serialization error: "@ + msg@,
    }
}

/// A freshly recorded signature: the given hash, category and count, and no
/// timestamps.
pub open spec fn is_fresh_info(
    info: SignatureInfo,
    hash: Seq<char>,
    category: Seq<char>,
    occurrence_count: usize,
) -> bool {
    &&& info.hash@ == hash
    &&& info.category@ == category
    &&& info.occurrence_count == occurrence_count
    &&& info.first_seen is None
    &&& info.last_seen is None
}

/// The keys of `a`, in order, that occur in `b` (when `present`) or do not
/// occur in `b` (otherwise).
pub open spec fn keys_where(a: Seq<Seq<char>>, b: Seq<Seq<char>>, present: bool) -> Seq<
    Seq<char>,
>
    decreases a.len(),
{
    if a.len() == 0 {
        Seq::empty()
    } else {
        let rest = keys_where(a.drop_last(), b, present);
        if b.contains(a.last()) == present {
            rest.push(a.last())
        } else {
            rest
        }
    }
}

/// The characters of each string.
pub open spec fn strings_chars(v: Seq<String>) -> Seq<Seq<char>> {
    v.map_values(|s: String| s@)
}

/// `r` is the comparison of baseline keys `kb` with current keys `kc`.
pub open spec fn compares(r: SignatureComparisonResult, kb: Seq<Seq<char>>, kc: Seq<Seq<char>>) -> bool {
    &&& strings_chars(r.new_signatures@) == keys_where(kc, kb, false)
    &&& strings_chars(r.fixed_signatures@) == keys_where(kb, kc, false)
    &&& strings_chars(r.recurring_signatures@) == keys_where(kb, kc, true)
    &&& r.metrics.baseline_total == kb.len()
    &&& r.metrics.current_total == kc.len()
    &&& r.metrics.new_count == keys_where(kc, kb, false).len()
    &&& r.metrics.fixed_count == keys_where(kb, kc, false).len()
    &&& r.metrics.recurring_count == keys_where(kb, kc, true).len()
    &&& r.metrics.has_regressions == (keys_where(kc, kb, false).len() > 0)
}

impl ComparisonError {
    /// Renders the error as its display text.
    pub fn to_string(&self) -> (r: String)
        ensures
            r@ == comparison_error_text(*self),
    {
        match self {
            ComparisonError::SnapshotNotFound(id) => String::from_str("snapshot not found: ").concat(
                id.as_str(),
            ),
            ComparisonError::SignatureNotFound(sig) => String::from_str(
                "signature not found: ",
            ).concat(sig.as_str()),
            ComparisonError::ValidationFailed(msg) => String::from_str(
                "validation failed: ",
            ).concat(msg.as_str()),
            ComparisonError::SerializationError(msg) => String::from_str(
                "serialization error: ",
            ).concat(msg.as_str()),
        }
    }
}

impl SignatureSnapshot {
    /// Creates a new signature snapshot with no signatures.
    pub fn new(id: &str, label: &str) -> (r: Self)
        ensures
            r.id@ == id@,
            r.label@ == label@,
            r.signatures.pairs() == Seq::<(Seq<char>, SignatureInfo)>::empty(),
            r.created_at is None,
    {
        SignatureSnapshot {
            id: id.to_owned(),
            label: label.to_owned(),
            signatures: StrMap::new(),
            created_at: None,
        }
    }

    /// Adds a signature to the snapshot, replacing any signature with the
    /// same hash. An empty hash or category is refused and leaves the
    /// snapshot as it was.
    pub fn add_signature(&mut self, hash: &str, category: &str, occurrence_count: usize) -> (r:
        Result<(), ComparisonError>)
        ensures
            if hash@.len() == 0 {
                &&& r matches Err(ComparisonError::ValidationFailed(m)) && m@
                    == "signature hash cannot be empty"@
                &&& *final(self) == *old(self)
            } else if category@.len() == 0 {
                &&& r matches Err(ComparisonError::ValidationFailed(m)) && m@
                    == "category cannot be empty"@
                &&& *final(self) == *old(self)
            } else {
                &&& r is Ok
                &&& exists|info: SignatureInfo|
                    is_fresh_info(info, hash@, category@, occurrence_count)
                        && final(self).signatures.pairs() == insert_pair(
                        old(self).signatures.pairs(),
                        hash@,
                        info,
                    )
                &&& final(self).id == old(self).id
                &&& final(self).label == old(self).label
                &&& final(self).created_at == old(self).created_at
            },
    {
        if hash.is_empty() {
            return Err(
                ComparisonError::ValidationFailed(String::from_str("signature hash cannot be empty")),
            );
        }
        if category.is_empty() {
            return Err(ComparisonError::ValidationFailed(String::from_str("category cannot be empty")));
        }
        let info = SignatureInfo {
            hash: hash.to_owned(),
            category: category.to_owned(),
            occurrence_count,
            first_seen: None,
            last_seen: None,
        };
        let ghost fresh = info;
        assert(is_fresh_info(fresh, hash@, category@, occurrence_count));
        self.signatures.insert(hash.to_owned(), info);
        assert(self.signatures.pairs() == insert_pair(old(self).signatures.pairs(), hash@, fresh));
        Ok(())
    }

    /// Gets a signature by hash.
    pub fn get_signature(&self, hash: &str) -> (r: Result<&SignatureInfo, ComparisonError>)
        ensures
            match r {
                Ok(info) => lookup(self.signatures.pairs(), hash@) == Some(*info),
                Err(e) => {
                    &&& lookup(self.signatures.pairs(), hash@) is None
                    &&& e matches ComparisonError::SignatureNotFound(s) && s@ == hash@
                },
            },
            match r {
                Ok(info) => exists|i: int|
                    0 <= i < self.signatures.pairs().len() && #[trigger] self.signatures.pairs()[i].0
                        == hash@ && self.signatures.pairs()[i].1 == *info,
                Err(_) => forall|i: int|
                    0 <= i < self.signatures.pairs().len() ==> #[trigger] self.signatures.pairs()[i].0
                        != hash@,
            },
    {
        match self.signatures.get(hash) {
            Some(info) => Ok(info),
            None => Err(ComparisonError::SignatureNotFound(hash.to_owned())),
        }
    }

    /// Validates the snapshot: its id and label must be non-empty.
    pub fn validate(&self) -> (r: Result<(), ComparisonError>)
        ensures
            if self.id@.len() == 0 {
                r matches Err(ComparisonError::ValidationFailed(m)) && m@
                    == "snapshot id cannot be empty"@
            } else if self.label@.len() == 0 {
                r matches Err(ComparisonError::ValidationFailed(m)) && m@
                    == "snapshot label cannot be empty"@
            } else {
                r is Ok
            },
    {
        if self.id.as_str().is_empty() {
            return Err(ComparisonError::ValidationFailed(String::from_str("snapshot id cannot be empty")));
        }
        if self.label.as_str().is_empty() {
            return Err(
                ComparisonError::ValidationFailed(String::from_str("snapshot label cannot be empty")),
            );
        }
        Ok(())
    }
}

/// The keys of `from`, in order, that are present in `other` (when
/// `present`) or absent from it (otherwise).
fn collect_keys<A, B>(from: &StrMap<A>, other: &StrMap<B>, present: bool) -> (r: Vec<String>)
    ensures
        strings_chars(r@) == keys_where(keys_of(from.pairs()), keys_of(other.pairs()), present),
{
    let ghost ka = keys_of(from.pairs());
    let ghost kb = keys_of(other.pairs());
    let mut r: Vec<String> = Vec::new();
    let mut i: usize = 0;
    while i < from.len()
        invariant
            ka == keys_of(from.pairs()),
            kb == keys_of(other.pairs()),
            i <= ka.len(),
            strings_chars(r@) == keys_where(ka.take(i as int), kb, present),
        decreases ka.len() - i,
    {
        assert(ka.take(i + 1).drop_last() =~= ka.take(i as int));
        let key = from.key_at(i);
        let found = other.contains_key(key.as_str());
        assert(found == kb.contains(ka[i as int])) by {
            if found {
                let j = choose|j: int| 0 <= j < other.pairs().len() && #[trigger] other.pairs()[j].0 == key@;
                assert(kb[j] == ka[i as int]);
            }
            if kb.contains(ka[i as int]) {
                let j = choose|j: int| 0 <= j < kb.len() && kb[j] == ka[i as int];
                assert(other.pairs()[j].0 == key@);
            }
        }
        if found == present {
            r.push(key.clone());
        }
        assert(strings_chars(r@) =~= keys_where(ka.take(i + 1), kb, present));
        i = i + 1;
    }
    assert(ka.take(i as int) =~= ka);
    r
}

/// Compares current signatures against a baseline snapshot. New signatures
/// are listed in the order of `current_signatures`; fixed and recurring ones
/// in the order of the baseline.
pub fn compare_signatures(
    baseline: &SignatureSnapshot,
    current_signatures: &StrMap<SignatureInfo>,
) -> (r: SignatureComparisonResult)
    ensures
        compares(r, keys_of(baseline.signatures.pairs()), keys_of(current_signatures.pairs())),
        r.metrics.new_count + r.metrics.recurring_count == r.metrics.current_total,
        r.metrics.fixed_count + r.metrics.recurring_count == r.metrics.baseline_total,
        forall|k: Seq<char>|
            #[trigger] strings_chars(r.new_signatures@).contains(k) == (keys_of(
                current_signatures.pairs(),
            ).contains(k) && !keys_of(baseline.signatures.pairs()).contains(k)),
        forall|k: Seq<char>|
            #[trigger] strings_chars(r.fixed_signatures@).contains(k) == (keys_of(
                baseline.signatures.pairs(),
            ).contains(k) && !keys_of(current_signatures.pairs()).contains(k)),
        forall|k: Seq<char>|
            #[trigger] strings_chars(r.recurring_signatures@).contains(k) == (keys_of(
                baseline.signatures.pairs(),
            ).contains(k) && keys_of(current_signatures.pairs()).contains(k)),
        strings_chars(r.new_signatures@) == keys_of(current_signatures.pairs()).filter(
            |k: Seq<char>| !keys_of(baseline.signatures.pairs()).contains(k),
        ),
        strings_chars(r.fixed_signatures@) == keys_of(baseline.signatures.pairs()).filter(
            |k: Seq<char>| !keys_of(current_signatures.pairs()).contains(k),
        ),
        strings_chars(r.recurring_signatures@) == keys_of(baseline.signatures.pairs()).filter(
            |k: Seq<char>| keys_of(current_signatures.pairs()).contains(k),
        ),
        strings_chars(r.new_signatures@).no_duplicates(),
        strings_chars(r.fixed_signatures@).no_duplicates(),
        strings_chars(r.recurring_signatures@).no_duplicates(),
        r.metrics.baseline_total == baseline.signatures.pairs().len(),
        r.metrics.current_total == current_signatures.pairs().len(),
        r.metrics.new_count == r.new_signatures@.len(),
        r.metrics.fixed_count == r.fixed_signatures@.len(),
        r.metrics.recurring_count == r.recurring_signatures@.len(),
        r.metrics.has_regressions == (r.new_signatures@.len() > 0),
{
    proof {
        use_type_invariant(&baseline.signatures);
        use_type_invariant(current_signatures);
        lemma_distinct_keys_no_duplicates(baseline.signatures.pairs());
        lemma_distinct_keys_no_duplicates(current_signatures.pairs());
        let kb = keys_of(baseline.signatures.pairs());
        let kc = keys_of(current_signatures.pairs());
        lemma_comparison_partitions(kb, kc, Seq::empty());
        assert forall|k: Seq<char>|
            #[trigger] keys_where(kc, kb, false).contains(k) == (kc.contains(k) && !kb.contains(k)) by {
            lemma_comparison_partitions(kb, kc, k);
        }
        assert forall|k: Seq<char>|
            #[trigger] keys_where(kb, kc, false).contains(k) == (kb.contains(k) && !kc.contains(k)) by {
            lemma_comparison_partitions(kb, kc, k);
        }
        assert forall|k: Seq<char>|
            #[trigger] keys_where(kb, kc, true).contains(k) == (kb.contains(k) && kc.contains(k)) by {
            lemma_comparison_partitions(kb, kc, k);
        }
        lemma_keys_where_no_duplicates(kc, kb, false);
        lemma_keys_where_no_duplicates(kb, kc, false);
        lemma_keys_where_no_duplicates(kb, kc, true);
        lemma_keys_where_is_filter(kc, kb, false);
        lemma_keys_where_is_filter(kb, kc, false);
        lemma_keys_where_is_filter(kb, kc, true);
        assert((|k: Seq<char>| kb.contains(k) == false) =~= (|k: Seq<char>| !kb.contains(k)));
        assert((|k: Seq<char>| kc.contains(k) == false) =~= (|k: Seq<char>| !kc.contains(k)));
        assert((|k: Seq<char>| kc.contains(k) == true) =~= (|k: Seq<char>| kc.contains(k)));
    }
    let new_signatures = collect_keys(current_signatures, &baseline.signatures, false);
    let fixed_signatures = collect_keys(&baseline.signatures, current_signatures, false);
    let recurring_signatures = collect_keys(&baseline.signatures, current_signatures, true);
    let has_regressions = new_signatures.len() > 0;
    let metrics = ComparisonMetrics {
        baseline_total: baseline.signatures.len(),
        current_total: current_signatures.len(),
        new_count: new_signatures.len(),
        fixed_count: fixed_signatures.len(),
        recurring_count: recurring_signatures.len(),
        has_regressions,
    };
    SignatureComparisonResult { new_signatures, fixed_signatures, recurring_signatures, metrics }
}

/// A read after a write: once `add_signature` has recorded `info` under
/// `hash`, `get_signature(hash)` gives it back, every other hash is found as
/// before, and the number of signatures grows only when the hash was new.
pub proof fn lemma_get_after_add_signature(
    before: Seq<(Seq<char>, SignatureInfo)>,
    hash: Seq<char>,
    info: SignatureInfo,
    other: Seq<char>,
)
    requires
        distinct_keys(before),
    ensures
        lookup(insert_pair(before, hash, info), hash) == Some(info),
        other != hash ==> lookup(insert_pair(before, hash, info), other) == lookup(before, other),
        insert_pair(before, hash, info).len() == if has_key(before, hash) {
            before.len()
        } else {
            before.len() + 1
        },
{
    lemma_lookup_after_insert(before, hash, info, other);
}

/// Selecting keys by presence is filtering them, in order.
pub proof fn lemma_keys_where_is_filter(a: Seq<Seq<char>>, b: Seq<Seq<char>>, present: bool)
    ensures
        keys_where(a, b, present) == a.filter(|k: Seq<char>| b.contains(k) == present),
    decreases a.len(),
{
    reveal(Seq::filter);
    if a.len() > 0 {
        lemma_keys_where_is_filter(a.drop_last(), b, present);
    }
}

/// Splitting the keys of `a` by presence in `b` loses and adds nothing.
proof fn lemma_keys_where_split(a: Seq<Seq<char>>, b: Seq<Seq<char>>)
    ensures
        keys_where(a, b, true).len() + keys_where(a, b, false).len() == a.len(),
    decreases a.len(),
{
    if a.len() > 0 {
        lemma_keys_where_split(a.drop_last(), b);
    }
}

/// A key is selected exactly when it is a key of `a` whose presence in `b`
/// is `present`.
proof fn lemma_keys_where_contains(a: Seq<Seq<char>>, b: Seq<Seq<char>>, present: bool, k: Seq<char>)
    ensures
        keys_where(a, b, present).contains(k) == (a.contains(k) && b.contains(k) == present),
    decreases a.len(),
{
    if a.len() > 0 {
        let rest = a.drop_last();
        lemma_keys_where_contains(rest, b, present, k);
        if a.contains(k) && k != a.last() {
            let i = choose|i: int| 0 <= i < a.len() && a[i] == k;
            assert(rest[i] == k);
        }
        if rest.contains(k) {
            let i = choose|i: int| 0 <= i < rest.len() && rest[i] == k;
            assert(a[i] == k);
        }
        let sel = keys_where(a, b, present);
        if b.contains(a.last()) == present {
            assert(sel == keys_where(rest, b, present).push(a.last()));
            if k == a.last() {
                assert(sel[sel.len() - 1] == k);
            }
            if keys_where(rest, b, present).contains(k) {
                let i = choose|i: int|
                    0 <= i < keys_where(rest, b, present).len() && keys_where(rest, b, present)[i]
                        == k;
                assert(sel[i] == k);
            }
            if sel.contains(k) && k != a.last() {
                let i = choose|i: int| 0 <= i < sel.len() && sel[i] == k;
                assert(keys_where(rest, b, present)[i] == k);
            }
        } else {
            if k == a.last() {
                assert(!sel.contains(k)) by {
                    if sel.contains(k) {
                        let i = choose|i: int| 0 <= i < sel.len() && sel[i] == k;
                        assert(keys_where(rest, b, present)[i] == k);
                    }
                }
            }
        }
        assert(a.contains(a.last())) by {
            assert(a[a.len() - 1] == a.last());
        }
    }
}

/// Selecting from keys without duplicates gives keys without duplicates.
proof fn lemma_keys_where_no_duplicates(a: Seq<Seq<char>>, b: Seq<Seq<char>>, present: bool)
    requires
        a.no_duplicates(),
    ensures
        keys_where(a, b, present).no_duplicates(),
    decreases a.len(),
{
    if a.len() > 0 {
        let rest = a.drop_last();
        assert(rest.no_duplicates());
        lemma_keys_where_no_duplicates(rest, b, present);
        if b.contains(a.last()) == present {
            lemma_keys_where_contains(rest, b, present, a.last());
            assert(!rest.contains(a.last())) by {
                if rest.contains(a.last()) {
                    let i = choose|i: int| 0 <= i < rest.len() && rest[i] == a.last();
                    assert(a[i] == a[a.len() - 1]);
                }
            }
            let r0 = keys_where(rest, b, present);
            let r1 = r0.push(a.last());
            assert forall|i: int, j: int|
                0 <= i < r1.len() && 0 <= j < r1.len() && i != j implies r1[i] != r1[j] by {
                if i == r1.len() - 1 && j < r0.len() {
                    assert(r0.contains(r0[j]));
                } else if j == r1.len() - 1 && i < r0.len() {
                    assert(r0.contains(r0[i]));
                }
            }
        }
    }
}

/// The keys of a map whose keys are distinct have no duplicates.
pub proof fn lemma_distinct_keys_no_duplicates<T>(p: Seq<(Seq<char>, T)>)
    requires
        distinct_keys(p),
    ensures
        keys_of(p).no_duplicates(),
{
    let k = keys_of(p);
    assert forall|i: int, j: int|
        0 <= i < k.len() && 0 <= j < k.len() && i != j implies k[i] != k[j] by {
        assert(p[i].0 != p[j].0);
    }
}

/// Comparison partitions both key sets: every current signature is either
/// new or recurring, every baseline signature is either fixed or recurring,
/// and the counts add up to the totals.
pub proof fn lemma_comparison_partitions(kb: Seq<Seq<char>>, kc: Seq<Seq<char>>, k: Seq<char>)
    requires
        kb.no_duplicates(),
        kc.no_duplicates(),
    ensures
        keys_where(kc, kb, false).len() + keys_where(kb, kc, true).len() == kc.len(),
        keys_where(kb, kc, false).len() + keys_where(kb, kc, true).len() == kb.len(),
        keys_where(kc, kb, false).contains(k) == (kc.contains(k) && !kb.contains(k)),
        keys_where(kb, kc, false).contains(k) == (kb.contains(k) && !kc.contains(k)),
        keys_where(kb, kc, true).contains(k) == (kb.contains(k) && kc.contains(k)),
{
    lemma_keys_where_split(kc, kb);
    lemma_keys_where_split(kb, kc);
    lemma_keys_where_contains(kc, kb, false, k);
    lemma_keys_where_contains(kb, kc, false, k);
    lemma_keys_where_contains(kb, kc, true, k);
    let ib = keys_where(kb, kc, true);
    let ic = keys_where(kc, kb, true);
    lemma_keys_where_no_duplicates(kb, kc, true);
    lemma_keys_where_no_duplicates(kc, kb, true);
    assert(ib.to_set() =~= ic.to_set()) by {
        assert forall|x: Seq<char>| ib.to_set().contains(x) == ic.to_set().contains(x) by {
            lemma_keys_where_contains(kb, kc, true, x);
            lemma_keys_where_contains(kc, kb, true, x);
        }
    }
    ib.unique_seq_to_set();
    ic.unique_seq_to_set();
}

/// Comparing signatures with themselves finds nothing new and nothing fixed:
/// every signature recurs.
pub proof fn lemma_compare_with_itself(k: Seq<Seq<char>>)
    ensures
        keys_where(k, k, false) == Seq::<Seq<char>>::empty(),
        keys_where(k, k, true) == k,
{
    lemma_keys_where_self(k, k);
}

proof fn lemma_keys_where_self(a: Seq<Seq<char>>, b: Seq<Seq<char>>)
    requires
        forall|i: int| 0 <= i < a.len() ==> #[trigger] b.contains(a[i]),
    ensures
        keys_where(a, b, false) == Seq::<Seq<char>>::empty(),
        keys_where(a, b, true) == a,
    decreases a.len(),
{
    if a.len() > 0 {
        let rest = a.drop_last();
        assert forall|i: int| 0 <= i < rest.len() implies #[trigger] b.contains(rest[i]) by {
            assert(b.contains(a[i]));
        }
        lemma_keys_where_self(rest, b);
        assert(b.contains(a[a.len() - 1]));
        assert(keys_where(a, b, true) =~= a);
    }
}

} // verus!
