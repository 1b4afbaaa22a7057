//! Fixture manifest metadata storage for indexing and compatibility checks.
//!
//! Stores fixture metadata with schema versioning to enable indexing,
//! compatibility validation, and manifest-level checks at load time.

use vstd::prelude::*;
use vstd::string::StringExecFns;

use crate::str_map::{
    distinct_keys, has_key, insert_pair, lemma_lookup_after_insert, lookup, StrMap,
};
use crate::text::{decimal, decimal_string, str_eq};

verus! {

/// Current fixture manifest schema version.
pub const FIXTURE_MANIFEST_SCHEMA_VERSION: u32 = 1;

/// Metadata for a single fixture entry.
#[derive(Debug, Clone, PartialEq, Eq)]
pub struct FixtureMetadata {
    /// Unique fixture identifier.
    pub id: String,
    /// Fixture type: 'seed', 'bundle', or 'corpus'.
    pub fixture_type: String,
    /// Schema version of the fixture payload.
    pub schema_version: u32,
    /// Human-readable name/description.
    pub name: Option<String>,
    /// Failure category for failure scenarios.
    pub failure_category: Option<String>,
    /// Checksum/hash for integrity validation.
    pub checksum: Option<String>,
    /// Creation timestamp (ISO 8601).
    pub created_at: Option<String>,
    /// Optional tags for categorization.
    pub tags: Vec<String>,
    /// Additional key-value metadata.
    pub properties: StrMap<String>,
}

/// Fixture manifest containing metadata for all fixtures.
#[derive(Debug, Clone, PartialEq, Eq)]
pub struct FixtureManifest {
    /// Manifest schema version for format evolution.
    pub schema: u32,
    /// Map of fixture ID to metadata.
    pub fixtures: StrMap<FixtureMetadata>,
    /// Engine schema version the fixtures target.
    pub engine_schema_version: u32,
    /// Creation timestamp (ISO 8601).
    pub created_at: Option<String>,
    /// Manifest-level metadata.
    pub metadata: StrMap<String>,
}

/// Error type for manifest operations.
#[derive(Debug, Clone, PartialEq, Eq)]
pub enum ManifestError {
    /// Fixture ID not found in manifest.
    FixtureNotFound(String),
    /// Fixture metadata validation failed.
    ValidationFailed(String),
    /// Schema version incompatibility.
    SchemaVersionMismatch { found: u32, expected: u32 },
    /// Duplicate fixture ID detected.
    DuplicateFixtureId(String),
    /// Serialization/deserialization error.
    SerializationError(String),
}

/// The fixture types a fixture may have.
pub open spec fn is_fixture_type(t: Seq<char>) -> bool {
    t == "seed"@ || t == "bundle"@ || t == "corpus"@
}

/// The message of the first constraint that `m` breaks, if any.
pub open spec fn metadata_problem(m: FixtureMetadata) -> Option<Seq<char>> {
    if m.id@.len() == 0 {
        Some("fixture id cannot be empty"@)
    } else if m.fixture_type@.len() == 0 {
        Some("fixture_type cannot be empty"@)
    } else if !is_fixture_type(m.fixture_type@) {
        Some(
            "invalid fixture_type: "@ + m.fixture_type@
                + " (must be 'seed', 'bundle', or 'corpus')"@,
        )
    } else {
        None
    }
}

/// The message for a manifest key that differs from its fixture's id.
pub open spec fn key_mismatch_message(key: Seq<char>, id: Seq<char>) -> Seq<char> {
    "key "@ + key + " does not match fixture id "@ + id
}

/// The message of the first entry, in order, that is invalid or stored under
/// a key other than its id.
pub open spec fn entries_problem(p: Seq<(Seq<char>, FixtureMetadata)>) -> Option<Seq<char>>
    decreases p.len(),
{
    if p.len() == 0 {
        None
    } else {
        match metadata_problem(p[0].1) {
            Some(msg) => Some(msg),
            None => if p[0].0 != p[0].1.id@ {
                Some(key_mismatch_message(p[0].0, p[0].1.id@))
            } else {
                entries_problem(p.drop_first())
            },
        }
    }
}

/// The text of a manifest error, as it is displayed.
pub open spec fn manifest_error_text(e: ManifestError) -> Seq<char> {
    match e {
        ManifestError::FixtureNotFound(id) => "fixture not found: "@ + id@,
        ManifestError::ValidationFailed(msg) => "validation failed: "@ + msg@,
        ManifestError::SchemaVersionMismatch { found, expected } => "schema version mismatch: found "@
            + decimal(found as nat) + ", expected "@ + decimal(expected as nat),
        ManifestError::DuplicateFixtureId(id) => "duplicate fixture id: "@ + id@,
        ManifestError::SerializationError(msg) => "serialization error: "@ + msg@,
    }
}

/// The values of the pairs that satisfy `pred`, in order.
pub open spec fn select(
    p: Seq<(Seq<char>, FixtureMetadata)>,
    pred: spec_fn(FixtureMetadata) -> bool,
) -> Seq<FixtureMetadata>
    decreases p.len(),
{
    if p.len() == 0 {
        Seq::empty()
    } else {
        let rest = select(p.drop_last(), pred);
        if pred(p.last().1) {
            rest.push(p.last().1)
        } else {
            rest
        }
    }
}

/// Fixtures of type `t`.
pub open spec fn type_is(t: Seq<char>) -> spec_fn(FixtureMetadata) -> bool {
    |m: FixtureMetadata| m.fixture_type@ == t
}

/// Fixtures carrying tag `tag`.
pub open spec fn tagged(tag: Seq<char>) -> spec_fn(FixtureMetadata) -> bool {
    |m: FixtureMetadata| exists|i: int| 0 <= i < m.tags@.len() && #[trigger] m.tags@[i]@ == tag
}

/// Fixtures whose failure category is `c`.
pub open spec fn category_is(c: Seq<char>) -> spec_fn(FixtureMetadata) -> bool {
    |m: FixtureMetadata| m.failure_category matches Some(fc) && fc@ == c
}

/// An entry is sound when its key is its fixture's id, that id is non-empty
/// and its type is exactly "seed", "bundle" or "corpus".
pub open spec fn entry_sound(e: (Seq<char>, FixtureMetadata)) -> bool {
    &&& e.0 == e.1.id@
    &&& e.1.id@.len() > 0
    &&& (e.1.fixture_type@ == "seed"@ || e.1.fixture_type@ == "bundle"@ || e.1.fixture_type@
        == "corpus"@)
}

/// Whether `x` is the value of some entry of `p`.
pub open spec fn has_value(p: Seq<(Seq<char>, FixtureMetadata)>, x: FixtureMetadata) -> bool {
    exists|j: int| 0 <= j < p.len() && #[trigger] p[j].1 == x
}

/// The referenced values of a sequence of references.
pub open spec fn derefs(v: Seq<&FixtureMetadata>) -> Seq<FixtureMetadata> {
    v.map_values(|x: &FixtureMetadata| *x)
}

impl ManifestError {
    /// Renders the error as its display text.
    pub fn to_string(&self) -> (r: String)
        ensures
            r@ == manifest_error_text(*self),
    {
        match self {
            ManifestError::FixtureNotFound(id) => String::from_str("fixture not found: ").concat(
                id.as_str(),
            ),
            ManifestError::ValidationFailed(msg) => String::from_str(
                "validation failed: ",
            ).concat(msg.as_str()),
            ManifestError::SchemaVersionMismatch { found, expected } => {
                let f = decimal_string(*found as u64);
                let e = decimal_string(*expected as u64);
                String::from_str("schema version mismatch: found ").concat(f.as_str()).concat(
                    ", expected ",
                ).concat(e.as_str())
            },
            ManifestError::DuplicateFixtureId(id) => String::from_str(
                "duplicate fixture id: ",
            ).concat(id.as_str()),
            ManifestError::SerializationError(msg) => String::from_str(
                "serialization error: ",
            ).concat(msg.as_str()),
        }
    }
}

impl Default for FixtureMetadata {
    /// Metadata with empty id and type, schema version 1, and nothing else.
    fn default() -> (r: Self)
        ensures
            r.id@ == Seq::<char>::empty(),
            r.fixture_type@ == Seq::<char>::empty(),
            r.schema_version == 1,
            r.name is None,
            r.failure_category is None,
            r.checksum is None,
            r.created_at is None,
            r.tags@ == Seq::<String>::empty(),
            r.properties.pairs() == Seq::<(Seq<char>, String)>::empty(),
    {
        FixtureMetadata {
            id: String::new(),
            fixture_type: String::new(),
            schema_version: 1,
            name: None,
            failure_category: None,
            checksum: None,
            created_at: None,
            tags: Vec::new(),
            properties: StrMap::new(),
        }
    }
}

impl FixtureMetadata {
    /// Creates a new fixture metadata entry.
    pub fn new(id: &str, fixture_type: &str, schema_version: u32) -> (r: Self)
        ensures
            r.id@ == id@,
            r.fixture_type@ == fixture_type@,
            r.schema_version == schema_version,
            r.name is None,
            r.failure_category is None,
            r.checksum is None,
            r.created_at is None,
            r.tags@ == Seq::<String>::empty(),
            r.properties.pairs() == Seq::<(Seq<char>, String)>::empty(),
    {
        FixtureMetadata {
            id: id.to_owned(),
            fixture_type: fixture_type.to_owned(),
            schema_version,
            name: None,
            failure_category: None,
            checksum: None,
            created_at: None,
            tags: Vec::new(),
            properties: StrMap::new(),
        }
    }

    /// Sets the fixture name.
    pub fn with_name(self, name: &str) -> (r: Self)
        ensures
            r.name matches Some(n) && n@ == name@,
            r == (FixtureMetadata { name: r.name, ..self }),
    {
        FixtureMetadata { name: Some(name.to_owned()), ..self }
    }

    /// Sets the failure category.
    pub fn with_failure_category(self, category: &str) -> (r: Self)
        ensures
            r.failure_category matches Some(c) && c@ == category@,
            r == (FixtureMetadata { failure_category: r.failure_category, ..self }),
    {
        FixtureMetadata { failure_category: Some(category.to_owned()), ..self }
    }

    /// Sets the checksum.
    pub fn with_checksum(self, checksum: &str) -> (r: Self)
        ensures
            r.checksum matches Some(c) && c@ == checksum@,
            r == (FixtureMetadata { checksum: r.checksum, ..self }),
    {
        FixtureMetadata { checksum: Some(checksum.to_owned()), ..self }
    }

    /// Adds a tag to the fixture.
    pub fn add_tag(self, tag: &str) -> (r: Self)
        ensures
            r.tags@.len() == self.tags@.len() + 1,
            r.tags@.drop_last() == self.tags@,
            r.tags@.last()@ == tag@,
            r == (FixtureMetadata { tags: r.tags, ..self }),
    {
        let mut m = self;
        m.tags.push(tag.to_owned());
        m
    }

    /// Adds a property to the fixture, replacing the value of a present key.
    pub fn add_property(self, key: &str, value: &str) -> (r: Self)
        ensures
            exists|v: String|
                v@ == value@ && r.properties.pairs() == insert_pair(
                    self.properties.pairs(),
                    key@,
                    v,
                ),
            r == (FixtureMetadata { properties: r.properties, ..self }),
    {
        let mut m = self;
        let v = value.to_owned();
        m.properties.insert(key.to_owned(), v);
        m
    }

    /// Validates fixture metadata against basic constraints: a non-empty id
    /// and one of the fixture types 'seed', 'bundle', 'corpus'.
    pub fn validate(&self) -> (r: Result<(), ManifestError>)
        ensures
            match metadata_problem(*self) {
                None => r is Ok,
                Some(msg) => r matches Err(ManifestError::ValidationFailed(s)) && s@ == msg,
            },
            (r is Ok) == (self.id@.len() > 0 && (self.fixture_type@ == "seed"@
                || self.fixture_type@ == "bundle"@ || self.fixture_type@ == "corpus"@)),
    {
        proof { lemma_metadata_valid_iff(*self); }
        if self.id.as_str().is_empty() {
            return Err(ManifestError::ValidationFailed(String::from_str("fixture id cannot be empty")));
        }
        if self.fixture_type.as_str().is_empty() {
            return Err(
                ManifestError::ValidationFailed(String::from_str("fixture_type cannot be empty")),
            );
        }
        let t = self.fixture_type.as_str();
        if !(str_eq(t, "seed") || str_eq(t, "bundle") || str_eq(t, "corpus")) {
            let msg = String::from_str("invalid fixture_type: ").concat(t).concat(
                " (must be 'seed', 'bundle', or 'corpus')",
            );
            return Err(ManifestError::ValidationFailed(msg));
        }
        Ok(())
    }
}

impl FixtureManifest {
    /// Creates a new empty fixture manifest.
    pub fn new(engine_schema_version: u32) -> (r: Self)
        ensures
            r.schema == FIXTURE_MANIFEST_SCHEMA_VERSION,
            r.fixtures.pairs() == Seq::<(Seq<char>, FixtureMetadata)>::empty(),
            r.engine_schema_version == engine_schema_version,
            r.created_at is None,
            r.metadata.pairs() == Seq::<(Seq<char>, String)>::empty(),
    {
        FixtureManifest {
            schema: FIXTURE_MANIFEST_SCHEMA_VERSION,
            fixtures: StrMap::new(),
            engine_schema_version,
            created_at: None,
            metadata: StrMap::new(),
        }
    }

    /// Adds a fixture metadata entry to the manifest. Invalid metadata and an
    /// id that is already present are refused and leave the manifest as it was.
    pub fn add_fixture(&mut self, metadata: FixtureMetadata) -> (r: Result<(), ManifestError>)
        ensures
            match metadata_problem(metadata) {
                Some(msg) => {
                    &&& r matches Err(ManifestError::ValidationFailed(s)) && s@ == msg
                    &&& *final(self) == *old(self)
                },
                None => if has_key(old(self).fixtures.pairs(), metadata.id@) {
                    &&& r matches Err(ManifestError::DuplicateFixtureId(s)) && s@ == metadata.id@
                    &&& *final(self) == *old(self)
                } else {
                    &&& r is Ok
                    &&& final(self).fixtures.pairs() == old(self).fixtures.pairs().push(
                        (metadata.id@, metadata),
                    )
                    &&& final(self).schema == old(self).schema
                    &&& final(self).engine_schema_version == old(self).engine_schema_version
                    &&& final(self).created_at == old(self).created_at
                    &&& final(self).metadata == old(self).metadata
                },
            },
            (r is Ok) == (metadata.id@.len() > 0 && (metadata.fixture_type@ == "seed"@
                || metadata.fixture_type@ == "bundle"@ || metadata.fixture_type@ == "corpus"@)
                && !has_key(old(self).fixtures.pairs(), metadata.id@)),
    {
        proof { lemma_metadata_valid_iff(metadata); }
        match metadata.validate() {
            Err(e) => return Err(e),
            Ok(()) => {},
        }
        if self.fixtures.contains_key(metadata.id.as_str()) {
            return Err(ManifestError::DuplicateFixtureId(metadata.id));
        }
        let key = metadata.id.clone();
        self.fixtures.insert(key, metadata);
        Ok(())
    }

    /// Retrieves fixture metadata by ID.
    pub fn get_fixture(&self, id: &str) -> (r: Result<&FixtureMetadata, ManifestError>)
        ensures
            match r {
                Ok(m) => lookup(self.fixtures.pairs(), id@) == Some(*m),
                Err(e) => {
                    &&& lookup(self.fixtures.pairs(), id@) is None
                    &&& e matches ManifestError::FixtureNotFound(s) && s@ == id@
                },
            },
            match r {
                Ok(m) => exists|i: int|
                    0 <= i < self.fixtures.pairs().len() && #[trigger] self.fixtures.pairs()[i].0
                        == id@ && self.fixtures.pairs()[i].1 == *m,
                Err(_) => forall|i: int|
                    0 <= i < self.fixtures.pairs().len() ==> #[trigger] self.fixtures.pairs()[i].0
                        != id@,
            },
    {
        match self.fixtures.get(id) {
            Some(m) => Ok(m),
            None => Err(ManifestError::FixtureNotFound(id.to_owned())),
        }
    }

    /// Validates the manifest at load time: the schema version must be the
    /// current one, and every entry, in order, must be valid and stored under
    /// its own id.
    pub fn validate(&self) -> (r: Result<(), ManifestError>)
        ensures
            if self.schema != FIXTURE_MANIFEST_SCHEMA_VERSION {
                r matches Err(ManifestError::SchemaVersionMismatch { found, expected })
                    && found == self.schema && expected == FIXTURE_MANIFEST_SCHEMA_VERSION
            } else {
                match entries_problem(self.fixtures.pairs()) {
                    None => r is Ok,
                    Some(msg) => r matches Err(ManifestError::ValidationFailed(s)) && s@ == msg,
                }
            },
            (r is Ok) == (self.schema == FIXTURE_MANIFEST_SCHEMA_VERSION && forall|i: int|
                0 <= i < self.fixtures.pairs().len() ==> entry_sound(
                    #[trigger] self.fixtures.pairs()[i],
                )),
    {
        proof { lemma_entries_problem_none_iff(self.fixtures.pairs()); }
        if self.schema != FIXTURE_MANIFEST_SCHEMA_VERSION {
            return Err(
                ManifestError::SchemaVersionMismatch {
                    found: self.schema,
                    expected: FIXTURE_MANIFEST_SCHEMA_VERSION,
                },
            );
        }
        let ghost p = self.fixtures.pairs();
        let mut i: usize = 0;
        assert(p.skip(0) =~= p);
        while i < self.fixtures.len()
            invariant
                p == self.fixtures.pairs(),
                self.schema == FIXTURE_MANIFEST_SCHEMA_VERSION,
                i <= p.len(),
                entries_problem(p) == entries_problem(p.skip(i as int)),
            decreases p.len() - i,
        {
            assert(p.skip(i as int).drop_first() =~= p.skip(i + 1));
            let key = self.fixtures.key_at(i);
            let metadata = self.fixtures.value_at(i);
            match metadata.validate() {
                Err(e) => return Err(e),
                Ok(()) => {},
            }
            if !str_eq(key.as_str(), metadata.id.as_str()) {
                let msg = String::from_str("key ").concat(key.as_str()).concat(
                    " does not match fixture id ",
                ).concat(metadata.id.as_str());
                return Err(ManifestError::ValidationFailed(msg));
            }
            i = i + 1;
        }
        assert(p.skip(i as int) =~= Seq::<(Seq<char>, FixtureMetadata)>::empty());
        Ok(())
    }

    /// Filters fixtures by type, in manifest order.
    pub fn by_type(&self, fixture_type: &str) -> (r: Vec<&FixtureMetadata>)
        ensures
            derefs(r@) == select(self.fixtures.pairs(), type_is(fixture_type@)),
            derefs(r@) == self.fixtures.pairs().filter(
                |e: (Seq<char>, FixtureMetadata)| e.1.fixture_type@ == fixture_type@,
            ).map_values(|e: (Seq<char>, FixtureMetadata)| e.1),
            forall|i: int| 0 <= i < r@.len() ==> (#[trigger] r@[i]).fixture_type@ == fixture_type@,
            forall|i: int| 0 <= i < r@.len() ==> has_value(self.fixtures.pairs(), *#[trigger] r@[i]),
            forall|j: int|
                0 <= j < self.fixtures.pairs().len() && (#[trigger] self.fixtures.pairs()[j]).1.fixture_type@
                    == fixture_type@ ==> derefs(r@).contains(self.fixtures.pairs()[j].1),
    {
        proof {
            lemma_by_type_exact(self.fixtures.pairs(), fixture_type@);
            lemma_select_is_filter(self.fixtures.pairs(), type_is(fixture_type@));
            assert((|e: (Seq<char>, FixtureMetadata)| type_is(fixture_type@)(e.1)) =~= (|e: (
                Seq<char>,
                FixtureMetadata,
            )| e.1.fixture_type@ == fixture_type@));
        }
        let ghost p = self.fixtures.pairs();
        let mut r: Vec<&FixtureMetadata> = Vec::new();
        let mut i: usize = 0;
        while i < self.fixtures.len()
            invariant
                p == self.fixtures.pairs(),
                i <= p.len(),
                derefs(r@) == select(p.take(i as int), type_is(fixture_type@)),
            decreases p.len() - i,
        {
            assert(p.take(i + 1).drop_last() =~= p.take(i as int));
            let m = self.fixtures.value_at(i);
            if str_eq(m.fixture_type.as_str(), fixture_type) {
                r.push(m);
            }
            assert(derefs(r@) =~= select(p.take(i + 1), type_is(fixture_type@)));
            i = i + 1;
        }
        assert(p.take(i as int) =~= p);
        assert(forall|k: int| 0 <= k < r@.len() ==> derefs(r@)[k] == *#[trigger] r@[k]);
        r
    }

    /// Filters fixtures by tag, in manifest order.
    pub fn by_tag(&self, tag: &str) -> (r: Vec<&FixtureMetadata>)
        ensures
            derefs(r@) == select(self.fixtures.pairs(), tagged(tag@)),
            derefs(r@) == self.fixtures.pairs().filter(
                |e: (Seq<char>, FixtureMetadata)|
                    exists|k: int| 0 <= k < e.1.tags@.len() && (#[trigger] e.1.tags@[k])@ == tag@,
            ).map_values(|e: (Seq<char>, FixtureMetadata)| e.1),
            forall|i: int|
                #![trigger r@[i]]
                0 <= i < r@.len() ==> exists|k: int|
                    0 <= k < r@[i].tags@.len() && (#[trigger] r@[i].tags@[k])@ == tag@,
            forall|i: int| 0 <= i < r@.len() ==> has_value(self.fixtures.pairs(), *#[trigger] r@[i]),
            forall|j: int, k: int|
                0 <= j < self.fixtures.pairs().len() && 0 <= k < self.fixtures.pairs()[j].1.tags@.len()
                    && (#[trigger] self.fixtures.pairs()[j].1.tags@[k])@ == tag@
                    ==> derefs(r@).contains(self.fixtures.pairs()[j].1),
    {
        proof {
            lemma_by_tag_exact(self.fixtures.pairs(), tag@);
            lemma_select_is_filter(self.fixtures.pairs(), tagged(tag@));
            assert((|e: (Seq<char>, FixtureMetadata)| tagged(tag@)(e.1)) =~= (|e: (
                Seq<char>,
                FixtureMetadata,
            )| exists|k: int| 0 <= k < e.1.tags@.len() && (#[trigger] e.1.tags@[k])@ == tag@));
        }
        let ghost p = self.fixtures.pairs();
        let mut r: Vec<&FixtureMetadata> = Vec::new();
        let mut i: usize = 0;
        while i < self.fixtures.len()
            invariant
                p == self.fixtures.pairs(),
                i <= p.len(),
                derefs(r@) == select(p.take(i as int), tagged(tag@)),
            decreases p.len() - i,
        {
            assert(p.take(i + 1).drop_last() =~= p.take(i as int));
            let m = self.fixtures.value_at(i);
            if has_tag(m, tag) {
                r.push(m);
            }
            assert(derefs(r@) =~= select(p.take(i + 1), tagged(tag@)));
            i = i + 1;
        }
        assert(p.take(i as int) =~= p);
        assert(forall|k: int| 0 <= k < r@.len() ==> derefs(r@)[k] == *#[trigger] r@[k]);
        r
    }

    /// Filters fixtures by failure category, in manifest order.
    pub fn by_failure_category(&self, category: &str) -> (r: Vec<&FixtureMetadata>)
        ensures
            derefs(r@) == select(self.fixtures.pairs(), category_is(category@)),
            derefs(r@) == self.fixtures.pairs().filter(
                |e: (Seq<char>, FixtureMetadata)|
                    e.1.failure_category is Some && e.1.failure_category->0@ == category@,
            ).map_values(|e: (Seq<char>, FixtureMetadata)| e.1),
            forall|i: int|
                0 <= i < r@.len() ==> (#[trigger] r@[i]).failure_category is Some && r@[i].failure_category->0@
                    == category@,
            forall|i: int| 0 <= i < r@.len() ==> has_value(self.fixtures.pairs(), *#[trigger] r@[i]),
            forall|j: int|
                0 <= j < self.fixtures.pairs().len() && (#[trigger] self.fixtures.pairs()[j]).1.failure_category
                    is Some && self.fixtures.pairs()[j].1.failure_category->0@ == category@ ==> derefs(r@).contains(
                    self.fixtures.pairs()[j].1,
                ),
    {
        proof {
            lemma_by_failure_category_exact(self.fixtures.pairs(), category@);
            lemma_select_is_filter(self.fixtures.pairs(), category_is(category@));
            assert((|e: (Seq<char>, FixtureMetadata)| category_is(category@)(e.1)) =~= (|e: (
                Seq<char>,
                FixtureMetadata,
            )| e.1.failure_category is Some && e.1.failure_category->0@ == category@));
        }
        let ghost p = self.fixtures.pairs();
        let mut r: Vec<&FixtureMetadata> = Vec::new();
        let mut i: usize = 0;
        while i < self.fixtures.len()
            invariant
                p == self.fixtures.pairs(),
                i <= p.len(),
                derefs(r@) == select(p.take(i as int), category_is(category@)),
            decreases p.len() - i,
        {
            assert(p.take(i + 1).drop_last() =~= p.take(i as int));
            let m = self.fixtures.value_at(i);
            let hit = match &m.failure_category {
                Some(c) => str_eq(c.as_str(), category),
                None => false,
            };
            if hit {
                r.push(m);
            }
            assert(derefs(r@) =~= select(p.take(i + 1), category_is(category@)));
            i = i + 1;
        }
        assert(p.take(i as int) =~= p);
        assert(forall|k: int| 0 <= k < r@.len() ==> derefs(r@)[k] == *#[trigger] r@[k]);
        r
    }
}

/// Whether `m` carries the tag `tag`.
fn has_tag(m: &FixtureMetadata, tag: &str) -> (r: bool)
    ensures
        r == tagged(tag@)(*m),
{
    let mut i: usize = 0;
    while i < m.tags.len()
        invariant
            i <= m.tags@.len(),
            forall|j: int| 0 <= j < i ==> m.tags@[j]@ != tag@,
        decreases m.tags@.len() - i,
    {
        if str_eq(m.tags[i].as_str(), tag) {
            return true;
        }
        i = i + 1;
    }
    false
}

/// A read after a write: once `add_fixture(m)` has succeeded,
/// `get_fixture(m.id)` gives back `m`, and every other id is found as before.
pub proof fn lemma_get_after_add(
    before: Seq<(Seq<char>, FixtureMetadata)>,
    m: FixtureMetadata,
    other: Seq<char>,
)
    requires
        distinct_keys(before),
        !has_key(before, m.id@),
    ensures
        lookup(before.push((m.id@, m)), m.id@) == Some(m),
        other != m.id@ ==> lookup(before.push((m.id@, m)), other) == lookup(before, other),
{
    lemma_lookup_after_insert(before, m.id@, m, other);
}

/// Adding valid metadata under its own id keeps a valid manifest valid: a
/// manifest built by `new` and successful `add_fixture` calls always passes
/// `validate`.
pub proof fn lemma_add_keeps_valid(before: Seq<(Seq<char>, FixtureMetadata)>, m: FixtureMetadata)
    requires
        entries_problem(before) is None,
        metadata_problem(m) is None,
    ensures
        entries_problem(before.push((m.id@, m))) is None,
    decreases before.len(),
{
    let after = before.push((m.id@, m));
    if before.len() == 0 {
        assert(after.drop_first() =~= Seq::<(Seq<char>, FixtureMetadata)>::empty());
        assert(after[0] == (m.id@, m));
        assert(entries_problem(after.drop_first()) is None);
    } else {
        assert(after.drop_first() =~= before.drop_first().push((m.id@, m)));
        assert(after[0] == before[0]);
        lemma_add_keeps_valid(before.drop_first(), m);
    }
}

/// The entries of a manifest pass validation exactly when every entry is
/// sound: stored under its own id, with a non-empty id and an accepted type.
pub proof fn lemma_entries_problem_none_iff(p: Seq<(Seq<char>, FixtureMetadata)>)
    ensures
        (entries_problem(p) is None) == forall|i: int| 0 <= i < p.len() ==> entry_sound(#[trigger] p[i]),
    decreases p.len(),
{
    if p.len() > 0 {
        let rest = p.drop_first();
        lemma_entries_problem_none_iff(rest);
        lemma_metadata_valid_iff(p[0].1);
        if forall|i: int| 0 <= i < p.len() ==> entry_sound(#[trigger] p[i]) {
            assert(entry_sound(p[0]));
            assert forall|i: int| 0 <= i < rest.len() implies entry_sound(#[trigger] rest[i]) by {
                assert(rest[i] == p[i + 1]);
                assert(entry_sound(p[i + 1]));
            }
        }
        if entries_problem(p) is None {
            assert forall|i: int| 0 <= i < p.len() implies entry_sound(#[trigger] p[i]) by {
                if i > 0 {
                    assert(p[i] == rest[i - 1]);
                }
            }
        }
    }
}

/// A new manifest has no invalid entries.
pub proof fn lemma_empty_manifest_valid()
    ensures
        entries_problem(Seq::<(Seq<char>, FixtureMetadata)>::empty()) is None,
{
}

/// Metadata is valid exactly when its id is non-empty and its type is,
/// character for character, one of "seed", "bundle", "corpus"; no other
/// string is an accepted fixture type.
pub proof fn lemma_metadata_valid_iff(m: FixtureMetadata)
    ensures
        (metadata_problem(m) is None) == (m.id@.len() > 0 && (m.fixture_type@ == "seed"@
            || m.fixture_type@ == "bundle"@ || m.fixture_type@ == "corpus"@)),
{
    if m.fixture_type@.len() == 0 {
        reveal_strlit("seed");
        reveal_strlit("bundle");
        reveal_strlit("corpus");
        assert("seed"@.len() == 4 && "bundle"@.len() == 6 && "corpus"@.len() == 6);
    }
}

/// Filtering returns exactly the fixtures that satisfy the filter, in
/// manifest order: each result satisfies it, and a fixture of the manifest
/// is among the results exactly when it satisfies it.
pub proof fn lemma_select_exact(
    p: Seq<(Seq<char>, FixtureMetadata)>,
    pred: spec_fn(FixtureMetadata) -> bool,
    x: FixtureMetadata,
)
    ensures
        forall|i: int| 0 <= i < select(p, pred).len() ==> pred(#[trigger] select(p, pred)[i]),
        select(p, pred).contains(x) == (pred(x) && exists|i: int|
            0 <= i < p.len() && #[trigger] p[i].1 == x),
        select(p, pred).len() <= p.len(),
    decreases p.len(),
{
    if p.len() > 0 {
        let rest = p.drop_last();
        lemma_select_exact(rest, pred, x);
        let s0 = select(rest, pred);
        let s1 = select(p, pred);
        if pred(p.last().1) {
            assert(s1 == s0.push(p.last().1));
            assert forall|i: int| 0 <= i < s1.len() implies pred(#[trigger] s1[i]) by {
                if i < s0.len() {
                    assert(s1[i] == s0[i]);
                }
            }
            if s0.contains(x) {
                let i = choose|i: int| 0 <= i < s0.len() && s0[i] == x;
                assert(s1[i] == x);
            }
            if x == p.last().1 {
                assert(s1[s1.len() - 1] == x);
            }
            if s1.contains(x) {
                let i = choose|i: int| 0 <= i < s1.len() && s1[i] == x;
                if i < s0.len() {
                    assert(s0[i] == x);
                }
            }
        }
        if exists|i: int| 0 <= i < rest.len() && #[trigger] rest[i].1 == x {
            let i = choose|i: int| 0 <= i < rest.len() && #[trigger] rest[i].1 == x;
            assert(p[i].1 == x);
        }
        if exists|i: int| 0 <= i < p.len() && #[trigger] p[i].1 == x {
            let i = choose|i: int| 0 <= i < p.len() && #[trigger] p[i].1 == x;
            if i < rest.len() {
                assert(rest[i].1 == x);
            }
        }
        assert(p[p.len() - 1].1 == p.last().1);
    }
}

/// Selecting by a predicate is filtering the entries by that predicate on
/// their values and keeping the values, in order.
pub proof fn lemma_select_is_filter(
    p: Seq<(Seq<char>, FixtureMetadata)>,
    pred: spec_fn(FixtureMetadata) -> bool,
)
    ensures
        select(p, pred) == p.filter(|e: (Seq<char>, FixtureMetadata)| pred(e.1)).map_values(
            |e: (Seq<char>, FixtureMetadata)| e.1,
        ),
    decreases p.len(),
{
    reveal(Seq::filter);
    let f = |e: (Seq<char>, FixtureMetadata)| pred(e.1);
    let g = |e: (Seq<char>, FixtureMetadata)| e.1;
    if p.len() == 0 {
        assert(p.filter(f).map_values(g) =~= Seq::<FixtureMetadata>::empty());
    } else {
        lemma_select_is_filter(p.drop_last(), pred);
        let sub = p.drop_last().filter(f);
        if f(p.last()) {
            assert(p.filter(f) == sub.push(p.last()));
            assert(sub.push(p.last()).map_values(g) =~= sub.map_values(g).push(p.last().1));
        } else {
            assert(p.filter(f) == sub);
        }
    }
}

/// The type filter returns fixtures of the manifest whose type is exactly
/// `t`, and every such fixture.
pub proof fn lemma_by_type_exact(p: Seq<(Seq<char>, FixtureMetadata)>, t: Seq<char>)
    ensures
        forall|i: int|
            0 <= i < select(p, type_is(t)).len() ==> (#[trigger] select(p, type_is(t))[i]).fixture_type@ == t,
        forall|i: int| 0 <= i < select(p, type_is(t)).len() ==> has_value(p, #[trigger] select(p, type_is(t))[i]),
        forall|j: int|
            0 <= j < p.len() && (#[trigger] p[j]).1.fixture_type@ == t ==> select(p, type_is(t)).contains(p[j].1),
{
    let pred = type_is(t);
    let sel = select(p, pred);
    assert forall|i: int| 0 <= i < sel.len() implies (#[trigger] sel[i]).fixture_type@ == t && has_value(p, sel[i]) by {
        lemma_select_exact(p, pred, sel[i]);
        assert(sel.contains(sel[i]));
    }
    assert forall|j: int| 0 <= j < p.len() && (#[trigger] p[j]).1.fixture_type@ == t implies sel.contains(p[j].1) by {
        lemma_select_exact(p, pred, p[j].1);
    }
}

/// The tag filter returns fixtures of the manifest that carry a tag equal,
/// character for character, to `tag`, and every such fixture.
pub proof fn lemma_by_tag_exact(p: Seq<(Seq<char>, FixtureMetadata)>, tag: Seq<char>)
    ensures
        forall|i: int|
            #![trigger select(p, tagged(tag))[i]]
            0 <= i < select(p, tagged(tag)).len() ==> exists|k: int|
                0 <= k < select(p, tagged(tag))[i].tags@.len() && (#[trigger] select(p, tagged(tag))[i].tags@[k])@ == tag,
        forall|i: int| 0 <= i < select(p, tagged(tag)).len() ==> has_value(p, #[trigger] select(p, tagged(tag))[i]),
        forall|j: int, k: int|
            0 <= j < p.len() && 0 <= k < p[j].1.tags@.len() && (#[trigger] p[j].1.tags@[k])@ == tag
                ==> select(p, tagged(tag)).contains(p[j].1),
{
    let pred = tagged(tag);
    let sel = select(p, pred);
    assert forall|i: int| 0 <= i < sel.len() implies (exists|k: int|
        0 <= k < sel[i].tags@.len() && (#[trigger] sel[i].tags@[k])@ == tag) && has_value(p, #[trigger] sel[i]) by {
        lemma_select_exact(p, pred, sel[i]);
        assert(sel.contains(sel[i]));
    }
    assert forall|j: int, k: int|
        0 <= j < p.len() && 0 <= k < p[j].1.tags@.len() && (#[trigger] p[j].1.tags@[k])@ == tag implies sel.contains(p[j].1) by {
        lemma_select_exact(p, pred, p[j].1);
        assert(pred(p[j].1));
    }
}

/// The failure-category filter returns fixtures of the manifest whose
/// failure category is present and equal to `c`, and every such fixture; a
/// fixture with no failure category is never returned.
pub proof fn lemma_by_failure_category_exact(p: Seq<(Seq<char>, FixtureMetadata)>, c: Seq<char>)
    ensures
        forall|i: int|
            0 <= i < select(p, category_is(c)).len() ==> (#[trigger] select(p, category_is(c))[i]).failure_category is Some
                && select(p, category_is(c))[i].failure_category->0@ == c,
        forall|i: int| 0 <= i < select(p, category_is(c)).len() ==> has_value(p, #[trigger] select(p, category_is(c))[i]),
        forall|j: int|
            0 <= j < p.len() && (#[trigger] p[j]).1.failure_category is Some && p[j].1.failure_category->0@ == c
                ==> select(p, category_is(c)).contains(p[j].1),
{
    let pred = category_is(c);
    let sel = select(p, pred);
    assert forall|i: int| 0 <= i < sel.len() implies ((#[trigger] sel[i]).failure_category is Some && sel[i].failure_category->0@ == c) && has_value(p, sel[i]) by {
        lemma_select_exact(p, pred, sel[i]);
        assert(sel.contains(sel[i]));
    }
    assert forall|j: int| 0 <= j < p.len() && ((#[trigger] p[j]).1.failure_category is Some && p[j].1.failure_category->0@ == c) implies sel.contains(p[j].1) by {
        lemma_select_exact(p, pred, p[j].1);
    }
}

} // verus!
