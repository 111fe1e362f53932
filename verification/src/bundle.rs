//! Dataset bundles: the single-file transport form of a rule dataset, its tamper-evident
//! content hash, the import gate, trimming into views, and entry queries.

use vstd::prelude::*;
use crate::dependency::{DataDependencies, EventSchemaDecl, SourceBinding};
use crate::json::{
    dup_list, dup_opt, dup_opt_str, Duplicate, json_list, json_object, json_opt_str, json_str, json_str_array, member_unless, opt_member,
    opt_str_json, push_member, push_opt_member, str_array, Json, JsonValue, ToJson,
};
use crate::provenance::Provenance;
use crate::resolve::ResolveError;
use crate::version::{LawRef, VersionError, VersionSelection, Versioning};

verus! {

/// The bundle schema version this library reads.
pub const BUNDLE_SCHEMA_VERSION: &'static str = "1.0";

/// Sandbox test verdict carried by a bundle; only `Pass` may be imported.
#[derive(Debug, Clone, Copy, PartialEq, Eq, Structural)]
pub enum TestVerdict {
    Pass,
    Fail,
}

/// The name of a verdict.
pub open spec fn verdict_name(v: TestVerdict) -> Seq<char> {
    match v {
        TestVerdict::Pass => "pass"@,
        TestVerdict::Fail => "fail"@,
    }
}

impl TestVerdict {
    /// The lowercase word for the verdict.
    pub fn to_string(&self) -> (r: String)
        ensures
            r@ == verdict_name(*self),
    {
        match self {
            TestVerdict::Pass => String::from_str("pass"),
            TestVerdict::Fail => String::from_str("fail"),
        }
    }
}

impl Default for TestVerdict {
    fn default() -> (r: TestVerdict)
        ensures
            r == TestVerdict::Pass,
    {
        TestVerdict::Pass
    }
}

/// Test evidence: the test cases and fixtures run, and the sandbox verdict.
#[derive(Debug)]
pub struct BundleTests {
    pub subset: Vec<String>,
    pub fixtures: Vec<String>,
    pub verdict: TestVerdict,
}

impl View for BundleTests {
    type V = Json;

    open spec fn view(&self) -> Json {
        Json::Object(
            member_unless(self.subset@.len() == 0, "subset"@, str_array(self.subset@))
                + member_unless(self.fixtures@.len() == 0, "fixtures"@, str_array(self.fixtures@))
                + seq![("verdict"@, Json::Str(verdict_name(self.verdict)))],
        )
    }
}

impl ToJson for BundleTests {
    fn to_json(&self) -> (r: JsonValue) {
        let mut m: Vec<(String, JsonValue)> = Vec::new();
        if self.subset.len() > 0 {
            push_member(&mut m, "subset", json_str_array(&self.subset));
        }
        if self.fixtures.len() > 0 {
            push_member(&mut m, "fixtures", json_str_array(&self.fixtures));
        }
        push_member(&mut m, "verdict", JsonValue::Str(self.verdict.to_string()));
        assert(crate::json::members_of(m@) =~= self@->Object_0);
        json_object(m)
    }
}

impl BundleTests {
    /// Evidence that no sandbox run backs: verdict `Fail`, no cases, no fixtures.
    pub fn unverified() -> (r: BundleTests)
        ensures
            r.verdict == TestVerdict::Fail,
            r.subset@.len() == 0,
            r.fixtures@.len() == 0,
    {
        BundleTests { subset: Vec::new(), fixtures: Vec::new(), verdict: TestVerdict::Fail }
    }
}

impl Default for BundleTests {
    fn default() -> (r: BundleTests)
        ensures
            r.verdict == TestVerdict::Pass,
            r.subset@.len() == 0,
            r.fixtures@.len() == 0,
    {
        BundleTests { subset: Vec::new(), fixtures: Vec::new(), verdict: TestVerdict::Pass }
    }
}

/// A trimmed view points at the dataset and version it was cut from.
#[derive(Debug)]
pub struct ViewRef {
    pub original_dataset_id: String,
    /// The version viewed (the source version at export).
    pub view_of_version: String,
}

impl View for ViewRef {
    type V = Json;

    open spec fn view(&self) -> Json {
        Json::Object(
            seq![
                ("original_dataset_id"@, Json::Str(self.original_dataset_id@)),
                ("view_of_version"@, Json::Str(self.view_of_version@)),
            ],
        )
    }
}

impl ToJson for ViewRef {
    fn to_json(&self) -> (r: JsonValue) {
        let mut m: Vec<(String, JsonValue)> = Vec::new();
        push_member(&mut m, "original_dataset_id", json_str(&self.original_dataset_id));
        push_member(&mut m, "view_of_version", json_str(&self.view_of_version));
        assert(crate::json::members_of(m@) =~= self@->Object_0);
        json_object(m)
    }
}

/// Dataset metadata carried by a bundle.
#[derive(Debug)]
pub struct BundleDatasetMeta {
    pub dataset_id: String,
    pub name: String,
    pub tenant_id: String,
    /// The real publisher.
    pub instance_id: String,
    pub versioning: Versioning,
    pub version_selection: Option<VersionSelection>,
    pub law_ref: Option<LawRef>,
    /// Set on trimmed views only.
    pub view_of: Option<ViewRef>,
    /// Pushed events the dataset consumes.
    pub event_schemas: Vec<EventSchemaDecl>,
}

impl BundleDatasetMeta {
    /// The metadata document with `view_of` in place of the recorded view reference.
    pub open spec fn json_with_view(self, view_of: Option<Json>) -> Json {
        Json::Object(
            seq![
                ("dataset_id"@, Json::Str(self.dataset_id@)),
                ("name"@, Json::Str(self.name@)),
                ("tenant_id"@, Json::Str(self.tenant_id@)),
                ("instance_id"@, Json::Str(self.instance_id@)),
                ("versioning"@, self.versioning@),
            ] + opt_member("version_selection"@, match self.version_selection {
                Some(s) => Some(s@),
                None => None,
            }) + opt_member("law_ref"@, match self.law_ref {
                Some(l) => Some(l@),
                None => None,
            }) + opt_member("view_of"@, view_of) + member_unless(
                self.event_schemas@.len() == 0,
                "event_schemas"@,
                Json::Array(self.event_schemas@.map_values(|d: EventSchemaDecl| d@)),
            ),
        )
    }
}

impl View for BundleDatasetMeta {
    type V = Json;

    open spec fn view(&self) -> Json {
        self.json_with_view(match self.view_of {
            Some(v) => Some(v@),
            None => None,
        })
    }
}

impl ToJson for BundleDatasetMeta {
    fn to_json(&self) -> (r: JsonValue) {
        let mut m: Vec<(String, JsonValue)> = Vec::new();
        push_member(&mut m, "dataset_id", json_str(&self.dataset_id));
        push_member(&mut m, "name", json_str(&self.name));
        push_member(&mut m, "tenant_id", json_str(&self.tenant_id));
        push_member(&mut m, "instance_id", json_str(&self.instance_id));
        push_member(&mut m, "versioning", self.versioning.to_json());
        let s = match &self.version_selection {
            Some(s) => Some(s.to_json()),
            None => None,
        };
        push_opt_member(&mut m, "version_selection", s);
        let l = match &self.law_ref {
            Some(l) => Some(l.to_json()),
            None => None,
        };
        push_opt_member(&mut m, "law_ref", l);
        let v = match &self.view_of {
            Some(v) => Some(v.to_json()),
            None => None,
        };
        push_opt_member(&mut m, "view_of", v);
        if self.event_schemas.len() > 0 {
            push_member(&mut m, "event_schemas", json_list(&self.event_schemas));
        }
        assert(crate::json::members_of(m@) =~= self@->Object_0);
        json_object(m)
    }
}

/// Entry kind: a rule (transform instructions, run by the engine) or knowledge
/// (a domain payload checked against its domain schema).
#[derive(Debug, Clone, Copy, PartialEq, Eq, Structural)]
pub enum EntryKind {
    Rule,
    Knowledge,
}

/// The name of an entry kind.
pub open spec fn kind_name(k: EntryKind) -> Seq<char> {
    match k {
        EntryKind::Rule => "rule"@,
        EntryKind::Knowledge => "knowledge"@,
    }
}

impl EntryKind {
    /// The name of the kind: `rule` or `knowledge`.
    pub fn to_string(&self) -> (r: String)
        ensures
            r@ == kind_name(*self),
    {
        match self {
            EntryKind::Rule => String::from_str("rule"),
            EntryKind::Knowledge => String::from_str("knowledge"),
        }
    }
}

impl Default for EntryKind {
    fn default() -> (r: EntryKind)
        ensures
            r == EntryKind::Rule,
    {
        EntryKind::Rule
    }
}

/// A bundle entry. `rule_body` holds the engine's rule JSON for a rule entry and the
/// domain payload for a knowledge entry, verbatim.
#[derive(Debug)]
pub struct BundleEntry {
    pub entry_id: String,
    pub entry_kind: EntryKind,
    pub rule_body: JsonValue,
    /// Domain schema URI; required for knowledge entries.
    pub schema_ref: Option<String>,
    pub provenance: Provenance,
    pub domain: String,
    pub tags: Vec<String>,
    /// Entry-level service bindings (shrunk with trimming).
    pub dependencies: Vec<SourceBinding>,
}

impl View for BundleEntry {
    type V = Json;

    open spec fn view(&self) -> Json {
        Json::Object(
            seq![
                ("entry_id"@, Json::Str(self.entry_id@)),
                ("entry_kind"@, Json::Str(kind_name(self.entry_kind))),
                ("rule_body"@, self.rule_body@),
            ] + opt_member("schema_ref"@, opt_str_json(self.schema_ref)) + seq![
                ("provenance"@, self.provenance@),
                ("domain"@, Json::Str(self.domain@)),
            ] + member_unless(self.tags@.len() == 0, "tags"@, str_array(self.tags@)) + member_unless(
                self.dependencies@.len() == 0,
                "dependencies"@,
                Json::Array(self.dependencies@.map_values(|d: SourceBinding| d@)),
            ),
        )
    }
}

impl ToJson for BundleEntry {
    fn to_json(&self) -> (r: JsonValue) {
        let mut m: Vec<(String, JsonValue)> = Vec::new();
        push_member(&mut m, "entry_id", json_str(&self.entry_id));
        push_member(&mut m, "entry_kind", JsonValue::Str(self.entry_kind.to_string()));
        push_member(&mut m, "rule_body", self.rule_body.deep_copy());
        push_opt_member(&mut m, "schema_ref", json_opt_str(&self.schema_ref));
        push_member(&mut m, "provenance", self.provenance.to_json());
        push_member(&mut m, "domain", json_str(&self.domain));
        if self.tags.len() > 0 {
            push_member(&mut m, "tags", json_str_array(&self.tags));
        }
        if self.dependencies.len() > 0 {
            push_member(&mut m, "dependencies", json_list(&self.dependencies));
        }
        assert(crate::json::members_of(m@) =~= self@->Object_0);
        json_object(m)
    }
}

/// Export audit: when and by whom, the source version, and the content hash.
#[derive(Debug)]
pub struct BundleAudit {
    pub exported_at: String,
    pub exported_by: String,
    /// The dataset version at export.
    pub source_version: String,
    /// Whole-bundle hash, `blake3:` followed by 64 hex digits.
    pub content_hash: String,
    /// Hash algorithm name (`blake3`).
    pub hash_algo: String,
}

impl BundleAudit {
    /// The audit document with `hash` in place of the recorded content hash.
    pub open spec fn json_with_hash(self, hash: Seq<char>) -> Json {
        Json::Object(
            seq![
                ("exported_at"@, Json::Str(self.exported_at@)),
                ("exported_by"@, Json::Str(self.exported_by@)),
                ("source_version"@, Json::Str(self.source_version@)),
                ("content_hash"@, Json::Str(hash)),
                ("hash_algo"@, Json::Str(self.hash_algo@)),
            ],
        )
    }

    fn to_json_with_hash(&self, hash: &str) -> (r: JsonValue)
        ensures
            r@ == self.json_with_hash(hash@),
    {
        let mut m: Vec<(String, JsonValue)> = Vec::new();
        push_member(&mut m, "exported_at", json_str(&self.exported_at));
        push_member(&mut m, "exported_by", json_str(&self.exported_by));
        push_member(&mut m, "source_version", json_str(&self.source_version));
        push_member(&mut m, "content_hash", JsonValue::Str(String::from_str(hash)));
        push_member(&mut m, "hash_algo", json_str(&self.hash_algo));
        assert(crate::json::members_of(m@) =~= self.json_with_hash(hash@)->Object_0);
        json_object(m)
    }
}

impl View for BundleAudit {
    type V = Json;

    open spec fn view(&self) -> Json {
        self.json_with_hash(self.content_hash@)
    }
}

impl ToJson for BundleAudit {
    fn to_json(&self) -> (r: JsonValue) {
        self.to_json_with_hash(self.content_hash.as_str())
    }
}

/// The default hash algorithm name.
pub fn default_hash_algo() -> (r: String)
    ensures
        r@ == "blake3"@,
{
    String::from_str("blake3")
}

/// A dataset bundle.
#[derive(Debug)]
pub struct DatasetBundle {
    pub bundle_schema_version: String,
    pub bundle_id: String,
    pub dataset: BundleDatasetMeta,
    pub entries: Vec<BundleEntry>,
    /// Full data dependency declaration (shrunk in trimmed views).
    pub data_dependencies: Option<DataDependencies>,
    pub tests: BundleTests,
    pub audit: BundleAudit,
}

impl DatasetBundle {
    /// The bundle document with `hash` in place of the recorded content hash.
    pub open spec fn json_with_hash(self, hash: Seq<char>) -> Json {
        Json::Object(
            seq![
                ("bundle_schema_version"@, Json::Str(self.bundle_schema_version@)),
                ("bundle_id"@, Json::Str(self.bundle_id@)),
                ("dataset"@, self.dataset@),
                ("entries"@, Json::Array(self.entries@.map_values(|e: BundleEntry| e@))),
            ] + opt_member("data_dependencies"@, match self.data_dependencies {
                Some(d) => Some(d@),
                None => None,
            }) + seq![("tests"@, self.tests@), ("audit"@, self.audit.json_with_hash(hash))],
        )
    }

    /// The canonical document the content hash covers: the bundle with an empty
    /// recorded hash.
    pub open spec fn canonical(self) -> Json {
        self.json_with_hash(Seq::empty())
    }

    fn to_json_with_hash(&self, hash: &str) -> (r: JsonValue)
        ensures
            r@ == self.json_with_hash(hash@),
    {
        let mut m: Vec<(String, JsonValue)> = Vec::new();
        push_member(&mut m, "bundle_schema_version", json_str(&self.bundle_schema_version));
        push_member(&mut m, "bundle_id", json_str(&self.bundle_id));
        push_member(&mut m, "dataset", self.dataset.to_json());
        push_member(&mut m, "entries", json_list(&self.entries));
        let d = match &self.data_dependencies {
            Some(d) => Some(d.to_json()),
            None => None,
        };
        push_opt_member(&mut m, "data_dependencies", d);
        push_member(&mut m, "tests", self.tests.to_json());
        push_member(&mut m, "audit", self.audit.to_json_with_hash(hash));
        assert(crate::json::members_of(m@) =~= self.json_with_hash(hash@)->Object_0);
        json_object(m)
    }
}

impl View for DatasetBundle {
    type V = Json;

    open spec fn view(&self) -> Json {
        self.json_with_hash(self.audit.content_hash@)
    }
}

impl ToJson for DatasetBundle {
    fn to_json(&self) -> (r: JsonValue) {
        self.to_json_with_hash(self.audit.content_hash.as_str())
    }
}


impl Duplicate for BundleTests {
    fn duplicate(&self) -> (r: BundleTests)
        ensures
            r.verdict == self.verdict,
    {
        BundleTests { subset: copy_strings(&self.subset), fixtures: copy_strings(&self.fixtures), verdict: self.verdict }
    }
}

impl Duplicate for ViewRef {
    fn duplicate(&self) -> (r: ViewRef) {
        ViewRef { original_dataset_id: self.original_dataset_id.clone(), view_of_version: self.view_of_version.clone() }
    }
}

/// Two entries that agree in every field the gates and queries read.
pub open spec fn same_entry(a: BundleEntry, b: BundleEntry) -> bool {
    &&& a.entry_id == b.entry_id
    &&& a.entry_kind == b.entry_kind
    &&& a.rule_body@ == b.rule_body@
    &&& a.schema_ref == b.schema_ref
    &&& a.domain == b.domain
    &&& a.tags@ == b.tags@
    &&& a.dependencies@ == b.dependencies@
}

impl Duplicate for BundleEntry {
    fn duplicate(&self) -> (r: BundleEntry)
        ensures
            same_entry(r, *self),
    {
        let deps = crate::dependency::copy_bindings(&self.dependencies);
        let r = BundleEntry {
            entry_id: self.entry_id.clone(),
            entry_kind: self.entry_kind,
            rule_body: self.rule_body.deep_copy(),
            schema_ref: dup_opt_str(&self.schema_ref),
            provenance: self.provenance.duplicate(),
            domain: self.domain.clone(),
            tags: copy_strings(&self.tags),
            dependencies: deps,
        };
        assert(r@->Object_0 =~= self@->Object_0);
        r
    }
}

/// Bundle errors, as values: every variant of [`BundleError`] with its texts.
pub enum Rejection {
    UnsupportedSchema { found: Seq<char> },
    ContentHashMismatch { recorded: Seq<char>, actual: Seq<char> },
    ServiceNotDeclared { service: Seq<char> },
    ServiceNotInRuleBody { service: Seq<char> },
    InvalidEntryStructure { entry: Seq<char>, errors: Seq<Seq<char>> },
    KnowledgeMissingSchemaRef { entry: Seq<char> },
    SchemaNotResolved { entry: Seq<char>, uri: Seq<char> },
    PayloadSchemaViolation { entry: Seq<char>, uri: Seq<char>, errors: Seq<Seq<char>> },
    KnowledgeWithDependencies { entry: Seq<char> },
    EventSchemaMissingRef { name: Seq<char> },
    EventSchemaNotResolved { name: Seq<char>, uri: Seq<char> },
    EventSchemaInvalid { name: Seq<char>, uri: Seq<char>, errors: Seq<Seq<char>> },
    EventSchemaDuplicate { name: Seq<char> },
    MissingEffectiveBase,
    TestsNotPassed { verdict: TestVerdict },
    EmptyView,
    BadFilterSegment(Seq<char>),
    PinnedVersionMissing,
    PinnedVersionNotFound { version: Seq<char> },
    Version(VersionError),
}

/// Bundle errors: every failure is reported, never silently downgraded.
#[derive(Debug, PartialEq)]
pub enum BundleError {
    UnsupportedSchema { found: String },
    ContentHashMismatch { recorded: String, actual: String },
    ServiceNotDeclared { service: String },
    ServiceNotInRuleBody { service: String },
    InvalidEntryStructure { entry: String, errors: Vec<String> },
    KnowledgeMissingSchemaRef { entry: String },
    SchemaNotResolved { entry: String, uri: String },
    PayloadSchemaViolation { entry: String, uri: String, errors: Vec<String> },
    KnowledgeWithDependencies { entry: String },
    EventSchemaMissingRef { name: String },
    EventSchemaNotResolved { name: String, uri: String },
    EventSchemaInvalid { name: String, uri: String, errors: Vec<String> },
    EventSchemaDuplicate { name: String },
    MissingEffectiveBase,
    TestsNotPassed { verdict: TestVerdict },
    EmptyView,
    BadFilterSegment(String),
    Resolve(ResolveError),
    Version(VersionError),
}

impl View for BundleError {
    type V = Rejection;

    open spec fn view(&self) -> Rejection {
        match self {
            BundleError::UnsupportedSchema { found } => Rejection::UnsupportedSchema { found: found@ },
            BundleError::ContentHashMismatch { recorded, actual } => Rejection::ContentHashMismatch {
                recorded: recorded@,
                actual: actual@,
            },
            BundleError::ServiceNotDeclared { service } => Rejection::ServiceNotDeclared { service: service@ },
            BundleError::ServiceNotInRuleBody { service } => Rejection::ServiceNotInRuleBody { service: service@ },
            BundleError::InvalidEntryStructure { entry, errors } => Rejection::InvalidEntryStructure {
                entry: entry@,
                errors: crate::text::views(errors@),
            },
            BundleError::KnowledgeMissingSchemaRef { entry } => Rejection::KnowledgeMissingSchemaRef { entry: entry@ },
            BundleError::SchemaNotResolved { entry, uri } => Rejection::SchemaNotResolved { entry: entry@, uri: uri@ },
            BundleError::PayloadSchemaViolation { entry, uri, errors } => Rejection::PayloadSchemaViolation {
                entry: entry@,
                uri: uri@,
                errors: crate::text::views(errors@),
            },
            BundleError::KnowledgeWithDependencies { entry } => Rejection::KnowledgeWithDependencies { entry: entry@ },
            BundleError::EventSchemaMissingRef { name } => Rejection::EventSchemaMissingRef { name: name@ },
            BundleError::EventSchemaNotResolved { name, uri } => Rejection::EventSchemaNotResolved { name: name@, uri: uri@ },
            BundleError::EventSchemaInvalid { name, uri, errors } => Rejection::EventSchemaInvalid {
                name: name@,
                uri: uri@,
                errors: crate::text::views(errors@),
            },
            BundleError::EventSchemaDuplicate { name } => Rejection::EventSchemaDuplicate { name: name@ },
            BundleError::MissingEffectiveBase => Rejection::MissingEffectiveBase,
            BundleError::TestsNotPassed { verdict } => Rejection::TestsNotPassed { verdict: *verdict },
            BundleError::EmptyView => Rejection::EmptyView,
            BundleError::BadFilterSegment(s) => Rejection::BadFilterSegment(s@),
            BundleError::Resolve(ResolveError::MissingPinnedVersion) => Rejection::PinnedVersionMissing,
            BundleError::Resolve(ResolveError::PinnedVersionNotFound { version }) => Rejection::PinnedVersionNotFound {
                version: version@,
            },
            BundleError::Version(e) => Rejection::Version(*e),
        }
    }
}

/// The value of a check's result.
pub open spec fn verdict_of<T>(r: Result<T, BundleError>) -> Result<(), Rejection> {
    match r {
        Ok(_) => Ok(()),
        Err(e) => Err(e@),
    }
}

/// The content hash of a bundle: `blake3:` and the digest of its canonical text.
pub open spec fn content_hash_of(b: DatasetBundle) -> Seq<char> {
    "blake3:"@ + crate::digest::blake3_hex(crate::json::json_text(b.canonical()))
}

/// The verdict of the tamper check: the recorded hash must equal the recomputed one.
pub open spec fn hash_verdict(b: DatasetBundle) -> Result<(), Rejection> {
    if b.audit.content_hash@ == content_hash_of(b) {
        Ok(())
    } else {
        Err(Rejection::ContentHashMismatch { recorded: b.audit.content_hash@, actual: content_hash_of(b) })
    }
}

impl DatasetBundle {
    /// The whole-bundle content hash: `blake3:` and the digest of the compact JSON text
    /// of the bundle with its recorded hash emptied.
    pub fn compute_content_hash(&self) -> (r: String)
        ensures
            r@ == content_hash_of(*self),
    {
        let empty = String::new();
        let doc = self.to_json_with_hash(empty.as_str());
        let text = crate::json::to_json_text(&doc);
        let d = crate::digest::digest_text(text.as_str());
        crate::digest::prefixed(d.as_str())
    }

    /// Checks the recorded content hash against the recomputed one.
    pub fn verify_content_hash(&self) -> (r: Result<(), BundleError>)
        ensures
            verdict_of(r) == hash_verdict(*self),
    {
        let actual = self.compute_content_hash();
        if crate::text::str_eq(self.audit.content_hash.as_str(), actual.as_str()) {
            Ok(())
        } else {
            Err(BundleError::ContentHashMismatch { recorded: self.audit.content_hash.clone(), actual })
        }
    }
}


/// Two bundles that agree in everything but the recorded content hash.
pub open spec fn same_but_hash(a: DatasetBundle, b: DatasetBundle) -> bool {
    &&& a.bundle_schema_version == b.bundle_schema_version
    &&& a.bundle_id == b.bundle_id
    &&& a.dataset == b.dataset
    &&& a.entries == b.entries
    &&& a.data_dependencies == b.data_dependencies
    &&& a.tests == b.tests
    &&& a.audit.exported_at == b.audit.exported_at
    &&& a.audit.exported_by == b.audit.exported_by
    &&& a.audit.source_version == b.audit.source_version
    &&& a.audit.hash_algo == b.audit.hash_algo
}

/// The content hash does not cover the recorded hash: bundles that differ only there
/// have the same content hash, and recording a bundle's content hash in it (re-signing)
/// makes it pass the tamper check.
pub proof fn lemma_resign(b: DatasetBundle, signed: DatasetBundle)
    requires
        same_but_hash(b, signed),
        signed.audit.content_hash@ == content_hash_of(b),
    ensures
        content_hash_of(signed) == content_hash_of(b),
        hash_verdict(signed) is Ok,
{
    assert(signed.canonical() == b.canonical());
}

/// Verdict on the first `n` service bindings of a rule entry: each must be declared by
/// the dataset, and, unless the body names services dynamically, named by the body.
pub open spec fn binding_verdict(
    deps: Seq<SourceBinding>,
    declared: Seq<Seq<char>>,
    dynamic: bool,
    literals: Seq<Seq<char>>,
    n: nat,
) -> Result<(), Rejection>
    decreases n,
{
    if n == 0 || n > deps.len() {
        Ok(())
    } else {
        match binding_verdict(deps, declared, dynamic, literals, (n - 1) as nat) {
            Err(x) => Err(x),
            Ok(()) => {
                let s = deps[n - 1].service_name@;
                if !declared.contains(s) {
                    Err(Rejection::ServiceNotDeclared { service: s })
                } else if !dynamic && !literals.contains(s) {
                    Err(Rejection::ServiceNotInRuleBody { service: s })
                } else {
                    Ok(())
                }
            },
        }
    }
}

/// Verdict on a rule entry: a valid structure, then consistent service bindings.
pub open spec fn rule_entry_verdict(e: BundleEntry, declared: Seq<Seq<char>>) -> Result<(), Rejection> {
    match crate::structure::structure_verdict(e.rule_body@) {
        Err(m) => Err(Rejection::InvalidEntryStructure { entry: e.entry_id@, errors: m }),
        Ok(()) => binding_verdict(
            e.dependencies@,
            declared,
            crate::symbols::has_dynamic(e.rule_body@),
            crate::symbols::literal_services(e.rule_body@),
            e.dependencies@.len(),
        ),
    }
}

/// The schema URI of an entry (empty when absent).
pub open spec fn schema_uri(e: BundleEntry) -> Seq<char> {
    match e.schema_ref {
        Some(s) => s@,
        None => Seq::empty(),
    }
}

/// The failure of a knowledge entry found before its schema is looked up, if any.
pub open spec fn knowledge_precheck(e: BundleEntry) -> Option<Rejection> {
    if e.dependencies@.len() > 0 {
        Some(Rejection::KnowledgeWithDependencies { entry: e.entry_id@ })
    } else if schema_uri(e).len() == 0 {
        Some(Rejection::KnowledgeMissingSchemaRef { entry: e.entry_id@ })
    } else {
        None
    }
}

/// The message for a schema that cannot be compiled.
pub open spec fn invalid_schema_message(m: Seq<char>) -> Seq<char> {
    "领域 schema 本身非法: "@ + m
}

/// The message for one violation: the message, preceded by the instance path if any.
pub open spec fn violation_message(p: (Seq<char>, Seq<char>)) -> Seq<char> {
    if p.0.len() == 0 {
        p.1
    } else {
        p.0 + ": "@ + p.1
    }
}

/// Verdict on a knowledge payload against its domain schema.
pub open spec fn payload_verdict(e: BundleEntry, uri: Seq<char>, schema: Json) -> Result<(), Rejection> {
    let st = crate::json::json_text(schema);
    match crate::schema::schema_fault(st) {
        Some(m) => Err(Rejection::PayloadSchemaViolation { entry: e.entry_id@, uri, errors: seq![invalid_schema_message(m)] }),
        None => {
            let v = crate::schema::schema_violations(st, crate::json::json_text(e.rule_body@));
            if v.len() == 0 {
                Ok(())
            } else {
                Err(Rejection::PayloadSchemaViolation { entry: e.entry_id@, uri, errors: v.map_values(|p: (Seq<char>, Seq<char>)| violation_message(p)) })
            }
        },
    }
}

/// Verdict on a knowledge entry, given what the schema lookup answered.
pub open spec fn knowledge_verdict(e: BundleEntry, answer: Option<Json>) -> Result<(), Rejection> {
    match knowledge_precheck(e) {
        Some(x) => Err(x),
        None => match answer {
            None => Err(Rejection::SchemaNotResolved { entry: e.entry_id@, uri: schema_uri(e) }),
            Some(s) => payload_verdict(e, schema_uri(e), s),
        },
    }
}

/// Verdict on an entry of either kind; `answer` is what the schema lookup answered
/// (used for knowledge entries only).
pub open spec fn entry_verdict(e: BundleEntry, declared: Seq<Seq<char>>, answer: Option<Json>) -> Result<(), Rejection> {
    match e.entry_kind {
        EntryKind::Rule => rule_entry_verdict(e, declared),
        EntryKind::Knowledge => knowledge_verdict(e, answer),
    }
}

/// Whether the entry's check consults the schema resolver.
pub open spec fn consults_resolver(e: BundleEntry) -> bool {
    e.entry_kind == EntryKind::Knowledge && knowledge_precheck(e) is None
}

/// `answer` is something the resolver returned for a URI whose text is `uri`.
pub open spec fn resolver_gave<R: Fn(&str) -> Option<JsonValue>>(resolver: R, uri: Seq<char>, answer: Option<JsonValue>) -> bool {
    exists|u: &str| u@ == uri && call_ensures(resolver, (u,), answer)
}

/// The service names declared by a bundle (none without a declaration).
pub open spec fn declared_of(b: DatasetBundle) -> Seq<Seq<char>> {
    match b.data_dependencies {
        Some(d) => crate::dependency::service_names(d.services@),
        None => Seq::empty(),
    }
}

/// The names of the services a bundle declares.
pub(crate) fn declared_names(bundle: &DatasetBundle) -> (r: Vec<String>)
    ensures
        crate::text::views(r@) == declared_of(*bundle),
{
    let mut declared: Vec<String> = Vec::new();
    match &bundle.data_dependencies {
        Some(d) => {
            let mut k: usize = 0;
            while k < d.services.len()
                invariant
                    k <= d.services@.len(),
                    declared@.len() == k,
                    crate::text::views(declared@) == crate::dependency::service_names(d.services@.take(k as int)),
                decreases d.services.len() - k,
            {
                let ghost prev = declared@;
                declared.push(d.services[k].service_name.clone());
                proof {
                    assert forall|t: int| 0 <= t < k implies declared@[t]@ == d.services@[t].service_name@ by {
                        assert(declared@[t] == prev[t]);
                        assert(crate::text::views(prev)[t] == crate::dependency::service_names(d.services@.take(k as int))[t]);
                    }
                }
                k = k + 1;
                assert(crate::text::views(declared@) =~= crate::dependency::service_names(d.services@.take(k as int)));
            }
            assert(d.services@.take(d.services@.len() as int) =~= d.services@);
        },
        None => {
            assert(crate::text::views(declared@) =~= Seq::<Seq<char>>::empty());
        },
    }
    declared
}

/// Verdict on the first `n` entries: the first failing entry decides.
pub open spec fn entries_verdict(
    entries: Seq<BundleEntry>,
    declared: Seq<Seq<char>>,
    answers: Seq<Option<Json>>,
    n: nat,
) -> Result<(), Rejection>
    decreases n,
{
    if n == 0 || n > entries.len() {
        Ok(())
    } else {
        match entries_verdict(entries, declared, answers, (n - 1) as nat) {
            Err(x) => Err(x),
            Ok(()) => entry_verdict(entries[n - 1], declared, answers[n - 1]),
        }
    }
}

/// Whether declaration `j` reuses the name of an earlier declaration.
pub open spec fn name_taken(decls: Seq<EventSchemaDecl>, j: int) -> bool {
    exists|k: int| 0 <= k < j && #[trigger] decls[k].name@ == decls[j].name@
}

/// The schema URI of an event declaration, without surrounding white space.
pub open spec fn event_uri(d: EventSchemaDecl) -> Seq<char> {
    crate::text::trimmed(d.schema_ref@)
}

/// The failure of declaration `j` found before its schema is looked up, if any.
pub open spec fn event_precheck(decls: Seq<EventSchemaDecl>, j: int) -> Option<Rejection> {
    if name_taken(decls, j) {
        Some(Rejection::EventSchemaDuplicate { name: decls[j].name@ })
    } else if event_uri(decls[j]).len() == 0 {
        Some(Rejection::EventSchemaMissingRef { name: decls[j].name@ })
    } else {
        None
    }
}

/// Verdict on declaration `j`, given what the schema lookup answered: the schema must
/// exist and compile (there is no instance to check it against).
pub open spec fn event_verdict(decls: Seq<EventSchemaDecl>, j: int, answer: Option<Json>) -> Result<(), Rejection> {
    match event_precheck(decls, j) {
        Some(x) => Err(x),
        None => match answer {
            None => Err(Rejection::EventSchemaNotResolved { name: decls[j].name@, uri: event_uri(decls[j]) }),
            Some(s) => match crate::schema::schema_fault(crate::json::json_text(s)) {
                Some(m) => Err(Rejection::EventSchemaInvalid {
                    name: decls[j].name@,
                    uri: event_uri(decls[j]),
                    errors: seq![invalid_schema_message(m)],
                }),
                None => Ok(()),
            },
        },
    }
}

/// Verdict on the first `n` event declarations: the first failing one decides.
pub open spec fn events_verdict(decls: Seq<EventSchemaDecl>, answers: Seq<Option<Json>>, n: nat) -> Result<(), Rejection>
    decreases n,
{
    if n == 0 || n > decls.len() {
        Ok(())
    } else {
        match events_verdict(decls, answers, (n - 1) as nat) {
            Err(x) => Err(x),
            Ok(()) => event_verdict(decls, n - 1, answers[n - 1]),
        }
    }
}

/// The checks that need no schema: bundle schema version, content hash, version chain.
pub open spec fn precheck(b: DatasetBundle) -> Result<(), Rejection> {
    if b.bundle_schema_version@ != "1.0"@ {
        Err(Rejection::UnsupportedSchema { found: b.bundle_schema_version@ })
    } else if hash_verdict(b) is Err {
        hash_verdict(b)
    } else {
        match crate::version::chain_verdict(b.dataset.versioning.chain@) {
            Err(e) => Err(Rejection::Version(e)),
            Ok(()) => Ok(()),
        }
    }
}

/// The selection mode a bundle runs with (by effective date unless it says otherwise).
pub open spec fn selection_mode(b: DatasetBundle) -> crate::version::VersionSelectionMode {
    match b.dataset.version_selection {
        Some(s) => s.mode,
        None => crate::version::VersionSelectionMode::AutoByEffectiveDate,
    }
}

/// Version resolution: a pinned selection resolves against the chain now; otherwise
/// the version is picked per event at run time, which needs the law's effective date.
pub open spec fn resolution(b: DatasetBundle) -> Result<Option<Seq<char>>, Rejection> {
    match b.dataset.version_selection {
        Some(sel) if sel.mode == crate::version::VersionSelectionMode::Pinned => match sel.pinned_version {
            None => Err(Rejection::PinnedVersionMissing),
            Some(p) => match crate::resolve::pinned_label(sel, b.dataset.versioning.chain@) {
                None => Err(Rejection::PinnedVersionNotFound { version: p@ }),
                Some(l) => Ok(Some(l)),
            },
        },
        _ => {
            let from = match b.dataset.law_ref {
                Some(l) => l.effective_from,
                None => None,
            };
            if from is None {
                Err(Rejection::MissingEffectiveBase)
            } else {
                Ok(None)
            }
        },
    }
}

/// The import verdict, given the schema answers for entries and event declarations:
/// schema version, content hash, version chain, entries, event declarations, version
/// resolution, then the test verdict; the first failure decides. `Ok` carries the
/// resolved version label (none for selection by effective date).
pub open spec fn import_verdict(b: DatasetBundle, entry_answers: Seq<Option<Json>>, event_answers: Seq<Option<Json>>) -> Result<Option<Seq<char>>, Rejection> {
    if precheck(b) is Err {
        Err(precheck(b)->Err_0)
    } else if entries_verdict(b.entries@, declared_of(b), entry_answers, b.entries@.len()) is Err {
        Err(entries_verdict(b.entries@, declared_of(b), entry_answers, b.entries@.len())->Err_0)
    } else if events_verdict(b.dataset.event_schemas@, event_answers, b.dataset.event_schemas@.len()) is Err {
        Err(events_verdict(b.dataset.event_schemas@, event_answers, b.dataset.event_schemas@.len())->Err_0)
    } else {
        match resolution(b) {
            Err(x) => Err(x),
            Ok(v) => if b.tests.verdict != TestVerdict::Pass {
                Err(Rejection::TestsNotPassed { verdict: b.tests.verdict })
            } else {
                Ok(v)
            },
        }
    }
}

/// The resolver answered `answer` for `uri`, as a model.
pub open spec fn answered<R: Fn(&str) -> Option<JsonValue>>(resolver: R, uri: Seq<char>, answer: Option<Json>) -> bool {
    exists|a: Option<JsonValue>| #![trigger crate::json::opt_json(a)] crate::json::opt_json(a) == answer && resolver_gave(resolver, uri, a)
}

/// The event answers are what the resolver returned for every declaration it was asked about.
pub open spec fn events_fit<R: Fn(&str) -> Option<JsonValue>>(resolver: R, decls: Seq<EventSchemaDecl>, answers: Seq<Option<Json>>) -> bool {
    &&& answers.len() == decls.len()
    &&& forall|j: int| 0 <= j < decls.len() && events_verdict(decls, answers, j as nat) is Ok && event_precheck(decls, j) is None
        ==> answered(resolver, event_uri(decls[j]), #[trigger] answers[j])
}

/// The answers are what the resolver returned for every entry and declaration the
/// import asked it about.
pub open spec fn answers_fit<R: Fn(&str) -> Option<JsonValue>>(
    resolver: R,
    b: DatasetBundle,
    entry_answers: Seq<Option<Json>>,
    event_answers: Seq<Option<Json>>,
) -> bool {
    &&& entry_answers.len() == b.entries@.len()
    &&& forall|i: int| 0 <= i < b.entries@.len() && precheck(b) is Ok
        && entries_verdict(b.entries@, declared_of(b), entry_answers, i as nat) is Ok
        && consults_resolver(b.entries@[i])
        ==> answered(resolver, schema_uri(b.entries@[i]), #[trigger] entry_answers[i])
    &&& (precheck(b) is Ok && entries_verdict(b.entries@, declared_of(b), entry_answers, b.entries@.len()) is Ok)
        ==> events_fit(resolver, b.dataset.event_schemas@, event_answers)
}

/// Every entry among the first `n` passes when the first `n` pass together.
pub proof fn lemma_entries_each(entries: Seq<BundleEntry>, declared: Seq<Seq<char>>, answers: Seq<Option<Json>>, n: nat)
    requires
        n <= entries.len(),
        entries_verdict(entries, declared, answers, n) is Ok,
    ensures
        forall|i: int| 0 <= i < n ==> (#[trigger] entry_verdict(entries[i], declared, answers[i])) is Ok,
    decreases n,
{
    if n > 0 {
        lemma_entries_each(entries, declared, answers, (n - 1) as nat);
    }
}

/// The first `n` entries pass together when each of them passes.
pub(crate) proof fn lemma_entries_all(entries: Seq<BundleEntry>, declared: Seq<Seq<char>>, answers: Seq<Option<Json>>, n: nat)
    requires
        n <= entries.len(),
        forall|i: int| 0 <= i < n ==> (#[trigger] entry_verdict(entries[i], declared, answers[i])) is Ok,
    ensures
        entries_verdict(entries, declared, answers, n) is Ok,
    decreases n,
{
    if n > 0 {
        lemma_entries_all(entries, declared, answers, (n - 1) as nat);
        assert(entry_verdict(entries[n - 1], declared, answers[n - 1]) is Ok);
    }
}

/// Bindings that pass against `d1` pass against any `d2` that keeps their names.
pub(crate) proof fn lemma_binding_widen(
    deps: Seq<SourceBinding>,
    d1: Seq<Seq<char>>,
    d2: Seq<Seq<char>>,
    dynamic: bool,
    literals: Seq<Seq<char>>,
    n: nat,
)
    requires
        n <= deps.len(),
        binding_verdict(deps, d1, dynamic, literals, n) is Ok,
        forall|k: int| 0 <= k < deps.len() && d1.contains(#[trigger] deps[k].service_name@) ==> d2.contains(deps[k].service_name@),
    ensures
        binding_verdict(deps, d2, dynamic, literals, n) is Ok,
    decreases n,
{
    if n > 0 {
        lemma_binding_widen(deps, d1, d2, dynamic, literals, (n - 1) as nat);
        assert(d1.contains(deps[n - 1].service_name@));
    }
}

proof fn lemma_events_each(decls: Seq<EventSchemaDecl>, answers: Seq<Option<Json>>, n: nat)
    requires
        n <= decls.len(),
        events_verdict(decls, answers, n) is Ok,
    ensures
        forall|j: int| 0 <= j < n ==> (#[trigger] event_verdict(decls, j, answers[j])) is Ok,
    decreases n,
{
    if n > 0 {
        lemma_events_each(decls, answers, (n - 1) as nat);
    }
}

/// What an accepted bundle is: schema version `1.0`, its recorded hash is its content
/// hash, its version chain is intact, every entry passes the same entry gate that
/// `validate_entry` applies, its event declarations have distinct names and pass, its
/// version resolves, and its test verdict is `Pass`.
pub proof fn lemma_accepted_bundle(b: DatasetBundle, entry_answers: Seq<Option<Json>>, event_answers: Seq<Option<Json>>)
    requires
        import_verdict(b, entry_answers, event_answers) is Ok,
    ensures
        b.bundle_schema_version@ == "1.0"@,
        b.audit.content_hash@ == content_hash_of(b),
        crate::version::chain_verdict(b.dataset.versioning.chain@) is Ok,
        forall|i: int| 0 <= i < b.entries@.len()
            ==> (#[trigger] entry_verdict(b.entries@[i], declared_of(b), entry_answers[i])) is Ok,
        forall|j: int| 0 <= j < b.dataset.event_schemas@.len()
            ==> (#[trigger] event_verdict(b.dataset.event_schemas@, j, event_answers[j])) is Ok,
        forall|j: int, k: int| 0 <= k < j < b.dataset.event_schemas@.len()
            ==> (#[trigger] b.dataset.event_schemas@[k]).name@ != (#[trigger] b.dataset.event_schemas@[j]).name@,
        resolution(b) is Ok,
        b.tests.verdict == TestVerdict::Pass,
        !(b.dataset.version_selection matches Some(s) && s.mode == crate::version::VersionSelectionMode::Pinned)
            ==> (b.dataset.law_ref matches Some(l) && l.effective_from is Some),
        (b.dataset.version_selection matches Some(s) && s.mode == crate::version::VersionSelectionMode::Pinned)
            ==> (b.dataset.version_selection matches Some(s) && s.pinned_version matches Some(p)
                && exists|j: int| 0 <= j < b.dataset.versioning.chain@.len()
                    && (#[trigger] b.dataset.versioning.chain@[j]).spec_label() == p@),
{
    let decls = b.dataset.event_schemas@;
    if b.dataset.version_selection matches Some(s) && s.mode == crate::version::VersionSelectionMode::Pinned {
        let s = b.dataset.version_selection->0;
        let p = s.pinned_version->0;
        crate::resolve::lemma_label_pos(b.dataset.versioning.chain@, p@, 0);
        let k = crate::resolve::label_pos(b.dataset.versioning.chain@, p@, 0)->0;
        assert(b.dataset.versioning.chain@[k as int].spec_label() == p@);
    }
    lemma_entries_each(b.entries@, declared_of(b), entry_answers, b.entries@.len());
    lemma_events_each(decls, event_answers, decls.len());
    assert forall|j: int, k: int| 0 <= k < j < decls.len() implies (#[trigger] decls[k]).name@ != (#[trigger] decls[j]).name@ by {
        assert(event_verdict(decls, j, event_answers[j]) is Ok);
        assert(!name_taken(decls, j));
    }
}

proof fn lemma_bindings_each(
    deps: Seq<SourceBinding>,
    declared: Seq<Seq<char>>,
    dynamic: bool,
    literals: Seq<Seq<char>>,
    n: nat,
)
    requires
        n <= deps.len(),
        binding_verdict(deps, declared, dynamic, literals, n) is Ok,
    ensures
        forall|k: int| 0 <= k < n ==> declared.contains(#[trigger] deps[k].service_name@)
            && (dynamic || literals.contains(deps[k].service_name@)),
    decreases n,
{
    if n > 0 {
        lemma_bindings_each(deps, declared, dynamic, literals, (n - 1) as nat);
    }
}

/// Whether the bundle declares a service of this name.
pub open spec fn declares(b: DatasetBundle, name: Seq<char>) -> bool {
    b.data_dependencies matches Some(d) && exists|t: int| 0 <= t < d.services@.len() && #[trigger] d.services@[t].service_name@ == name
}

/// In an accepted bundle every service a rule entry binds is declared by the dataset and
/// named by an `io_request` step of the entry's body (unless the body names a service
/// dynamically), every rule body passes the structure gate, and every knowledge entry
/// binds no service and names a schema.
pub proof fn lemma_accepted_symbols(b: DatasetBundle, entry_answers: Seq<Option<Json>>, event_answers: Seq<Option<Json>>)
    requires
        import_verdict(b, entry_answers, event_answers) is Ok,
    ensures
        forall|i: int, k: int| #![trigger b.entries@[i].dependencies@[k]]
            0 <= i < b.entries@.len() && b.entries@[i].entry_kind == EntryKind::Rule && 0 <= k < b.entries@[i].dependencies@.len()
            ==> declares(b, b.entries@[i].dependencies@[k].service_name@)
                && (crate::symbols::has_dynamic(b.entries@[i].rule_body@)
                    || crate::symbols::literal_services(b.entries@[i].rule_body@).contains(b.entries@[i].dependencies@[k].service_name@)),
        forall|i: int| 0 <= i < b.entries@.len() && (#[trigger] b.entries@[i]).entry_kind == EntryKind::Rule
            ==> crate::structure::structure_verdict(b.entries@[i].rule_body@) is Ok,
        forall|i: int| 0 <= i < b.entries@.len() && (#[trigger] b.entries@[i]).entry_kind == EntryKind::Knowledge
            ==> b.entries@[i].dependencies@.len() == 0 && (b.entries@[i].schema_ref matches Some(u) && u@.len() > 0),
{
    lemma_accepted_bundle(b, entry_answers, event_answers);
    assert forall|i: int, k: int| #![trigger b.entries@[i].dependencies@[k]]
        0 <= i < b.entries@.len() && b.entries@[i].entry_kind == EntryKind::Rule && 0 <= k < b.entries@[i].dependencies@.len()
        implies declares(b, b.entries@[i].dependencies@[k].service_name@)
            && (crate::symbols::has_dynamic(b.entries@[i].rule_body@)
                || crate::symbols::literal_services(b.entries@[i].rule_body@).contains(b.entries@[i].dependencies@[k].service_name@)) by {
        let e = b.entries@[i];
        let name = e.dependencies@[k].service_name@;
        assert(entry_verdict(e, declared_of(b), entry_answers[i]) is Ok);
        lemma_bindings_each(e.dependencies@, declared_of(b), crate::symbols::has_dynamic(e.rule_body@),
            crate::symbols::literal_services(e.rule_body@), e.dependencies@.len());
        assert(declared_of(b).contains(name));
        if b.data_dependencies is None {
            assert(declared_of(b) =~= Seq::<Seq<char>>::empty());
        }
        let d = b.data_dependencies->0;
        let t = choose|t: int| 0 <= t < declared_of(b).len() && declared_of(b)[t] == name;
        assert(d.services@[t].service_name@ == name);
    }
    assert forall|i: int| 0 <= i < b.entries@.len() && (#[trigger] b.entries@[i]).entry_kind == EntryKind::Rule
        implies crate::structure::structure_verdict(b.entries@[i].rule_body@) is Ok by {
        assert(entry_verdict(b.entries@[i], declared_of(b), entry_answers[i]) is Ok);
    }
    assert forall|i: int| 0 <= i < b.entries@.len() && (#[trigger] b.entries@[i]).entry_kind == EntryKind::Knowledge
        implies b.entries@[i].dependencies@.len() == 0 && (b.entries@[i].schema_ref matches Some(u) && u@.len() > 0) by {
        assert(entry_verdict(b.entries@[i], declared_of(b), entry_answers[i]) is Ok);
    }
}

proof fn lemma_entries_stays(entries: Seq<BundleEntry>, declared: Seq<Seq<char>>, answers: Seq<Option<Json>>, k: nat, n: nat)
    requires
        k <= n <= entries.len(),
        entries_verdict(entries, declared, answers, k) is Err,
    ensures
        entries_verdict(entries, declared, answers, n) == entries_verdict(entries, declared, answers, k),
    decreases n - k,
{
    if k < n {
        lemma_entries_stays(entries, declared, answers, k, (n - 1) as nat);
    }
}

proof fn lemma_entries_prefix(entries: Seq<BundleEntry>, declared: Seq<Seq<char>>, a1: Seq<Option<Json>>, a2: Seq<Option<Json>>, n: nat)
    requires
        n <= a1.len(),
        n <= a2.len(),
        forall|k: int| 0 <= k < n ==> a1[k] == a2[k],
    ensures
        entries_verdict(entries, declared, a1, n) == entries_verdict(entries, declared, a2, n),
    decreases n,
{
    if n > 0 {
        lemma_entries_prefix(entries, declared, a1, a2, (n - 1) as nat);
    }
}

proof fn lemma_events_stays(decls: Seq<EventSchemaDecl>, answers: Seq<Option<Json>>, k: nat, n: nat)
    requires
        k <= n <= decls.len(),
        events_verdict(decls, answers, k) is Err,
    ensures
        events_verdict(decls, answers, n) == events_verdict(decls, answers, k),
    decreases n - k,
{
    if k < n {
        lemma_events_stays(decls, answers, k, (n - 1) as nat);
    }
}

proof fn lemma_events_prefix(decls: Seq<EventSchemaDecl>, a1: Seq<Option<Json>>, a2: Seq<Option<Json>>, n: nat)
    requires
        n <= a1.len(),
        n <= a2.len(),
        forall|k: int| 0 <= k < n ==> a1[k] == a2[k],
    ensures
        events_verdict(decls, a1, n) == events_verdict(decls, a2, n),
    decreases n,
{
    if n > 0 {
        lemma_events_prefix(decls, a1, a2, (n - 1) as nat);
    }
}

/// What an entry's answer must satisfy: it came from the resolver if the check asked.
pub open spec fn entry_answer_fits<R: Fn(&str) -> Option<JsonValue>>(resolver: R, e: BundleEntry, x: Option<Json>) -> bool {
    consults_resolver(e) ==> answered(resolver, schema_uri(e), x)
}

/// Extending entry answers that fit by one more fitting answer.
proof fn lemma_entries_step<R: Fn(&str) -> Option<JsonValue>>(
    resolver: R,
    entries: Seq<BundleEntry>,
    declared: Seq<Seq<char>>,
    ea: Seq<Option<Json>>,
    x: Option<Json>,
)
    requires
        ea.len() < entries.len(),
        entries_verdict(entries, declared, ea, ea.len()) is Ok,
        forall|k: int| 0 <= k < ea.len() && entries_verdict(entries, declared, ea, k as nat) is Ok && consults_resolver(entries[k])
            ==> answered(resolver, schema_uri(entries[k]), #[trigger] ea[k]),
        entry_answer_fits(resolver, entries[ea.len() as int], x),
    ensures
        entries_verdict(entries, declared, ea.push(x), (ea.len() + 1) as nat) == entry_verdict(entries[ea.len() as int], declared, x),
        forall|k: int| 0 <= k < ea.len() + 1 && entries_verdict(entries, declared, ea.push(x), k as nat) is Ok && consults_resolver(entries[k])
            ==> answered(resolver, schema_uri(entries[k]), #[trigger] ea.push(x)[k]),
{
    let ext = ea.push(x);
    lemma_entries_prefix(entries, declared, ea, ext, ea.len());
    assert forall|k: int| 0 <= k < ea.len() + 1 && entries_verdict(entries, declared, ext, k as nat) is Ok && consults_resolver(entries[k])
        implies answered(resolver, schema_uri(entries[k]), #[trigger] ext[k]) by {
        if k < ea.len() {
            lemma_entries_prefix(entries, declared, ea, ext, k as nat);
            assert(ext[k] == ea[k]);
        }
    }
}

/// Closing the entry answers after a failure at the last position.
proof fn lemma_entries_close<R: Fn(&str) -> Option<JsonValue>>(
    resolver: R,
    entries: Seq<BundleEntry>,
    declared: Seq<Seq<char>>,
    ea: Seq<Option<Json>>,
)
    requires
        0 < ea.len() <= entries.len(),
        entries_verdict(entries, declared, ea, ea.len()) is Err,
        forall|k: int| 0 <= k < ea.len() && entries_verdict(entries, declared, ea, k as nat) is Ok && consults_resolver(entries[k])
            ==> answered(resolver, schema_uri(entries[k]), #[trigger] ea[k]),
    ensures
        ({
            let ext = ea + Seq::new((entries.len() - ea.len()) as nat, |t: int| None::<Json>);
            &&& ext.len() == entries.len()
            &&& forall|k: int| 0 <= k < entries.len() && entries_verdict(entries, declared, ext, k as nat) is Ok && consults_resolver(entries[k])
                ==> answered(resolver, schema_uri(entries[k]), #[trigger] ext[k])
            &&& entries_verdict(entries, declared, ext, entries.len()) == entries_verdict(entries, declared, ea, ea.len())
        }),
{
    let ext = ea + Seq::new((entries.len() - ea.len()) as nat, |t: int| None::<Json>);
    lemma_entries_prefix(entries, declared, ea, ext, ea.len());
    lemma_entries_stays(entries, declared, ext, ea.len(), entries.len());
    assert forall|k: int| 0 <= k < entries.len() && entries_verdict(entries, declared, ext, k as nat) is Ok && consults_resolver(entries[k])
        implies answered(resolver, schema_uri(entries[k]), #[trigger] ext[k]) by {
        if k < ea.len() {
            lemma_entries_prefix(entries, declared, ea, ext, k as nat);
            assert(ext[k] == ea[k]);
        } else {
            lemma_entries_stays(entries, declared, ext, ea.len(), k as nat);
        }
    }
}

/// Extending event answers that fit by one more fitting answer.
proof fn lemma_events_step<R: Fn(&str) -> Option<JsonValue>>(
    resolver: R,
    decls: Seq<EventSchemaDecl>,
    sa: Seq<Option<Json>>,
    x: Option<Json>,
)
    requires
        sa.len() < decls.len(),
        events_verdict(decls, sa, sa.len()) is Ok,
        forall|k: int| 0 <= k < sa.len() && events_verdict(decls, sa, k as nat) is Ok && event_precheck(decls, k) is None
            ==> answered(resolver, event_uri(decls[k]), #[trigger] sa[k]),
        event_precheck(decls, sa.len() as int) is None ==> answered(resolver, event_uri(decls[sa.len() as int]), x),
    ensures
        events_verdict(decls, sa.push(x), (sa.len() + 1) as nat) == event_verdict(decls, sa.len() as int, x),
        forall|k: int| 0 <= k < sa.len() + 1 && events_verdict(decls, sa.push(x), k as nat) is Ok && event_precheck(decls, k) is None
            ==> answered(resolver, event_uri(decls[k]), #[trigger] sa.push(x)[k]),
{
    let ext = sa.push(x);
    lemma_events_prefix(decls, sa, ext, sa.len());
    assert forall|k: int| 0 <= k < sa.len() + 1 && events_verdict(decls, ext, k as nat) is Ok && event_precheck(decls, k) is None
        implies answered(resolver, event_uri(decls[k]), #[trigger] ext[k]) by {
        if k < sa.len() {
            lemma_events_prefix(decls, sa, ext, k as nat);
            assert(ext[k] == sa[k]);
        }
    }
}

/// Closing the event answers after a failure at the last position.
proof fn lemma_events_close<R: Fn(&str) -> Option<JsonValue>>(
    resolver: R,
    decls: Seq<EventSchemaDecl>,
    sa: Seq<Option<Json>>,
)
    requires
        sa.len() <= decls.len(),
        sa.len() > 0,
        events_verdict(decls, sa, sa.len()) is Err,
        forall|k: int| 0 <= k < sa.len() && events_verdict(decls, sa, k as nat) is Ok && event_precheck(decls, k) is None
            ==> answered(resolver, event_uri(decls[k]), #[trigger] sa[k]),
    ensures
        ({
            let ext = sa + Seq::new((decls.len() - sa.len()) as nat, |t: int| None::<Json>);
            &&& events_fit(resolver, decls, ext)
            &&& events_verdict(decls, ext, decls.len()) == events_verdict(decls, sa, sa.len())
        }),
{
    let ext = sa + Seq::new((decls.len() - sa.len()) as nat, |t: int| None::<Json>);
    lemma_events_prefix(decls, sa, ext, sa.len());
    lemma_events_stays(decls, ext, sa.len(), decls.len());
    assert forall|k: int| 0 <= k < decls.len() && events_verdict(decls, ext, k as nat) is Ok && event_precheck(decls, k) is None
        implies answered(resolver, event_uri(decls[k]), #[trigger] ext[k]) by {
        if k < sa.len() {
            lemma_events_prefix(decls, sa, ext, k as nat);
            assert(ext[k] == sa[k]);
        } else {
            lemma_events_stays(decls, ext, sa.len(), k as nat);
        }
    }
}

/// Once a binding fails, the verdict on any longer prefix is that failure.
proof fn lemma_binding_stays(
    deps: Seq<SourceBinding>,
    declared: Seq<Seq<char>>,
    dynamic: bool,
    literals: Seq<Seq<char>>,
    k: nat,
    n: nat,
)
    requires
        k <= n <= deps.len(),
        binding_verdict(deps, declared, dynamic, literals, k) is Err,
    ensures
        binding_verdict(deps, declared, dynamic, literals, n) == binding_verdict(deps, declared, dynamic, literals, k),
    decreases n - k,
{
    if k < n {
        lemma_binding_stays(deps, declared, dynamic, literals, k, (n - 1) as nat);
    }
}

fn copy_strings(v: &Vec<String>) -> (r: Vec<String>)
    ensures
        r@ == v@,
{
    let mut out: Vec<String> = Vec::new();
    let mut i: usize = 0;
    while i < v.len()
        invariant
            i <= v@.len(),
            out@ == v@.take(i as int),
        decreases v.len() - i,
    {
        out.push(v[i].clone());
        i = i + 1;
        assert(out@ =~= v@.take(i as int));
    }
    assert(v@.take(v@.len() as int) =~= v@);
    out
}

/// The result of a successful import check: the run configuration of the bundle.
#[derive(Debug, PartialEq, Eq)]
pub struct ImportResult {
    pub bundle_id: String,
    pub dataset_id: String,
    pub source_version: String,
    pub selection_mode: crate::version::VersionSelectionMode,
    /// The resolved version for a pinned selection; none when the version is picked per
    /// event date at run time.
    pub resolved_version: Option<String>,
    pub entry_count: usize,
    pub verdict: TestVerdict,
}

/// How a result of the import gate matches a verdict.
pub open spec fn import_matches(r: Result<ImportResult, BundleError>, b: DatasetBundle, v: Result<Option<Seq<char>>, Rejection>) -> bool {
    match (r, v) {
        (Ok(res), Ok(rv)) => {
            &&& res.bundle_id@ == b.bundle_id@
            &&& res.dataset_id@ == b.dataset.dataset_id@
            &&& res.source_version@ == b.audit.source_version@
            &&& res.selection_mode == selection_mode(b)
            &&& match res.resolved_version {
                Some(s) => rv == Some(s@),
                None => rv is None,
            }
            &&& res.entry_count == b.entries@.len()
            &&& res.verdict == b.tests.verdict
        },
        (Err(e), Err(x)) => e@ == x,
        _ => false,
    }
}

/// Answers for `n` checks that were never asked.
pub open spec fn no_answers(n: nat) -> Seq<Option<Json>> {
    Seq::new(n, |t: int| None::<Json>)
}

/// Import gate.
pub struct BundleImporter;

impl BundleImporter {
    fn validate_rule_entry(entry: &BundleEntry, declared_services: &[String]) -> (r: Result<(), BundleError>)
        ensures
            verdict_of(r) == rule_entry_verdict(*entry, crate::text::views(declared_services@)),
    {
        match crate::structure::validate_rule_structure(&entry.rule_body) {
            Err(errors) => {
                return Err(BundleError::InvalidEntryStructure { entry: entry.entry_id.clone(), errors });
            },
            Ok(()) => {},
        }
        let has_dynamic = crate::symbols::has_dynamic_service_ref(&entry.rule_body);
        let body_services = crate::symbols::io_services_from_rule_body(&entry.rule_body);
        let ghost declared = crate::text::views(declared_services@);
        let ghost literals = crate::symbols::literal_services(entry.rule_body@);
        let mut i: usize = 0;
        while i < entry.dependencies.len()
            invariant
                i <= entry.dependencies@.len(),
                crate::structure::structure_verdict(entry.rule_body@) is Ok,
                has_dynamic == crate::symbols::has_dynamic(entry.rule_body@),
                crate::text::views(body_services@) == literals,
                declared == crate::text::views(declared_services@),
                literals == crate::symbols::literal_services(entry.rule_body@),
                binding_verdict(entry.dependencies@, declared, has_dynamic, literals, i as nat) is Ok,
            decreases entry.dependencies.len() - i,
        {
            let name = entry.dependencies[i].service_name.as_str();
            proof {
                if binding_verdict(entry.dependencies@, declared, has_dynamic, literals, (i + 1) as nat) is Err {
                    lemma_binding_stays(entry.dependencies@, declared, has_dynamic, literals, (i + 1) as nat, entry.dependencies@.len());
                }
            }
            if !crate::text::strings_contain(declared_services, name) {
                return Err(BundleError::ServiceNotDeclared { service: entry.dependencies[i].service_name.clone() });
            }
            if !has_dynamic && !crate::text::strings_contain(body_services.as_slice(), name) {
                return Err(BundleError::ServiceNotInRuleBody { service: entry.dependencies[i].service_name.clone() });
            }
            i = i + 1;
        }
        Ok(())
    }

    fn validate_knowledge_entry<R: Fn(&str) -> Option<JsonValue>>(entry: &BundleEntry, schema_resolver: &R) -> (r: Result<(), BundleError>)
        requires
            forall|u: &str| schema_resolver.requires((u,)),
        ensures
            exists|a: Option<JsonValue>|
                #![trigger crate::json::opt_json(a)]
                (consults_resolver(*entry) ==> resolver_gave(*schema_resolver, schema_uri(*entry), a))
                && verdict_of(r) == knowledge_verdict(*entry, crate::json::opt_json(a)),
    {
        if entry.dependencies.len() > 0 {
            let r = Err(BundleError::KnowledgeWithDependencies { entry: entry.entry_id.clone() });
            assert(verdict_of(r) == knowledge_verdict(*entry, crate::json::opt_json(None)));
            return r;
        }
        let empty = String::new();
        let uri: &str = match &entry.schema_ref {
            Some(s) => s.as_str(),
            None => empty.as_str(),
        };
        if uri.is_empty() {
            let r = Err(BundleError::KnowledgeMissingSchemaRef { entry: entry.entry_id.clone() });
            assert(verdict_of(r) == knowledge_verdict(*entry, crate::json::opt_json(None)));
            return r;
        }
        let answer = schema_resolver(uri);
        assert(resolver_gave(*schema_resolver, schema_uri(*entry), answer));
        match &answer {
            None => {
                let r = Err(BundleError::SchemaNotResolved { entry: entry.entry_id.clone(), uri: String::from_str(uri) });
                assert(verdict_of(r) == knowledge_verdict(*entry, crate::json::opt_json(answer)));
                r
            },
            Some(schema) => {
                let r = Self::check_knowledge_payload(entry, uri, schema);
                assert(verdict_of(r) == knowledge_verdict(*entry, crate::json::opt_json(answer)));
                r
            },
        }
    }

    /// The entry gate shared by the governance side (before an entry is stored) and the
    /// execution side (on import). A rule entry needs a valid structure and consistent
    /// service bindings: each binding names a service in `declared_services` and, unless
    /// the body names services dynamically, one of the body's `io_request` services. A
    /// knowledge entry needs no bindings, a schema URI, a schema from `schema_resolver`
    /// for it, and a payload that the schema accepts.
    pub fn validate_entry<R: Fn(&str) -> Option<JsonValue>>(
        entry: &BundleEntry,
        declared_services: &[String],
        schema_resolver: &R,
    ) -> (r: Result<(), BundleError>)
        requires
            forall|u: &str| schema_resolver.requires((u,)),
        ensures
            exists|a: Option<JsonValue>|
                #![trigger crate::json::opt_json(a)]
                (consults_resolver(*entry) ==> resolver_gave(*schema_resolver, schema_uri(*entry), a))
                && verdict_of(r) == entry_verdict(*entry, crate::text::views(declared_services@), crate::json::opt_json(a)),
    {
        match entry.entry_kind {
            EntryKind::Rule => {
                let r = Self::validate_rule_entry(entry, declared_services);
                assert(verdict_of(r) == entry_verdict(*entry, crate::text::views(declared_services@), crate::json::opt_json(None)));
                r
            },
            EntryKind::Knowledge => Self::validate_knowledge_entry(entry, schema_resolver),
        }
    }

    /// The import gate, in order: bundle schema version `1.0`; the recorded content
    /// hash equals the recomputed one; the version chain is intact; every entry passes
    /// the entry gate against the dataset's declared services; event declarations are
    /// unique and their schemas resolve and compile; a pinned selection resolves against
    /// the chain, or else the law carries an effective date; the test verdict is `Pass`.
    /// The first failure is returned.
    pub fn validate<R: Fn(&str) -> Option<JsonValue>>(bundle: &DatasetBundle, schema_resolver: &R) -> (r: Result<ImportResult, BundleError>)
        requires
            forall|u: &str| schema_resolver.requires((u,)),
        ensures
            exists|ea: Seq<Option<Json>>, sa: Seq<Option<Json>>|
                #![trigger import_verdict(*bundle, ea, sa)]
                answers_fit(*schema_resolver, *bundle, ea, sa) && import_matches(r, *bundle, import_verdict(*bundle, ea, sa)),
            r is Ok ==> {
                &&& bundle.bundle_schema_version@ == "1.0"@
                &&& bundle.audit.content_hash@ == content_hash_of(*bundle)
                &&& bundle.tests.verdict == TestVerdict::Pass
                &&& !(bundle.dataset.version_selection matches Some(s) && s.mode == crate::version::VersionSelectionMode::Pinned)
                    ==> (bundle.dataset.law_ref matches Some(l) && l.effective_from is Some)
            },
    {
        let ghost n = bundle.entries@.len();
        if !crate::text::str_eq(bundle.bundle_schema_version.as_str(), BUNDLE_SCHEMA_VERSION) {
            let r = Err(BundleError::UnsupportedSchema { found: bundle.bundle_schema_version.clone() });
            assert(import_matches(r, *bundle, import_verdict(*bundle, no_answers(n), Seq::empty())));
            return r;
        }
        match bundle.verify_content_hash() {
            Err(e) => {
                let r = Err(e);
                assert(import_matches(r, *bundle, import_verdict(*bundle, no_answers(n), Seq::empty())));
                return r;
            },
            Ok(()) => {},
        }
        match bundle.dataset.versioning.validate() {
            Err(e) => {
                let r = Err(BundleError::Version(e));
                assert(import_matches(r, *bundle, import_verdict(*bundle, no_answers(n), Seq::empty())));
                return r;
            },
            Ok(()) => {},
        }
        assert(precheck(*bundle) is Ok);
        let declared = declared_names(bundle);
        assert(crate::text::views(declared@) == declared_of(*bundle));
        let ghost mut ea: Seq<Option<Json>> = Seq::empty();
        let mut i: usize = 0;
        while i < bundle.entries.len()
            invariant
                i <= bundle.entries@.len(),
                ea.len() == i,
                precheck(*bundle) is Ok,
                forall|u: &str| schema_resolver.requires((u,)),
                crate::text::views(declared@) == declared_of(*bundle),
                entries_verdict(bundle.entries@, declared_of(*bundle), ea, i as nat) is Ok,
                forall|k: int| 0 <= k < ea.len() && entries_verdict(bundle.entries@, declared_of(*bundle), ea, k as nat) is Ok
                    && consults_resolver(bundle.entries@[k])
                    ==> answered(*schema_resolver, schema_uri(bundle.entries@[k]), #[trigger] ea[k]),
            decreases bundle.entries.len() - i,
        {
            let res = Self::validate_entry(&bundle.entries[i], declared.as_slice(), schema_resolver);
            let ghost a = choose|a: Option<JsonValue>|
                #![trigger crate::json::opt_json(a)]
                (consults_resolver(bundle.entries@[i as int]) ==> resolver_gave(*schema_resolver, schema_uri(bundle.entries@[i as int]), a))
                && verdict_of(res) == entry_verdict(bundle.entries@[i as int], crate::text::views(declared@), crate::json::opt_json(a));
            let ghost x = crate::json::opt_json(a);
            proof {
                assert(entry_answer_fits(*schema_resolver, bundle.entries@[i as int], x));
                lemma_entries_step(*schema_resolver, bundle.entries@, declared_of(*bundle), ea, x);
            }
            match res {
                Err(e) => {
                    let r = Err(e);
                    proof {
                        let ea1 = ea.push(x);
                        lemma_entries_close(*schema_resolver, bundle.entries@, declared_of(*bundle), ea1);
                        let ext = ea1 + Seq::new((bundle.entries@.len() - ea1.len()) as nat, |t: int| None::<Json>);
                        assert(answers_fit(*schema_resolver, *bundle, ext, Seq::empty()));
                        assert(import_matches(r, *bundle, import_verdict(*bundle, ext, Seq::empty())));
                    }
                    return r;
                },
                Ok(()) => {},
            }
            proof {
                ea = ea.push(x);
            }
            i = i + 1;
        }
        let ev = Self::validate_event_schemas(&bundle.dataset.event_schemas, schema_resolver);
        let ghost sa = choose|sa: Seq<Option<Json>>|
            events_fit(*schema_resolver, bundle.dataset.event_schemas@, sa)
            && verdict_of(ev) == #[trigger] events_verdict(bundle.dataset.event_schemas@, sa, bundle.dataset.event_schemas@.len());
        assert(answers_fit(*schema_resolver, *bundle, ea, sa));
        match ev {
            Err(e) => {
                let r = Err(e);
                assert(import_matches(r, *bundle, import_verdict(*bundle, ea, sa)));
                return r;
            },
            Ok(()) => {},
        }
        let resolved: Option<String> = match &bundle.dataset.version_selection {
            Some(sel) if sel.mode == crate::version::VersionSelectionMode::Pinned => {
                match crate::resolve::VersionResolver::resolve_pinned(sel, &bundle.dataset.versioning.chain) {
                    Ok(v) => Some(v),
                    Err(e) => {
                        let r = Err(BundleError::Resolve(e));
                        assert(import_matches(r, *bundle, import_verdict(*bundle, ea, sa)));
                        return r;
                    },
                }
            },
            _ => {
                let has_base = match &bundle.dataset.law_ref {
                    Some(l) => l.effective_from.is_some(),
                    None => false,
                };
                if !has_base {
                    let r = Err(BundleError::MissingEffectiveBase);
                    assert(import_matches(r, *bundle, import_verdict(*bundle, ea, sa)));
                    return r;
                }
                None
            },
        };
        if bundle.tests.verdict != TestVerdict::Pass {
            let r = Err(BundleError::TestsNotPassed { verdict: bundle.tests.verdict });
            assert(import_matches(r, *bundle, import_verdict(*bundle, ea, sa)));
            return r;
        }
        let mode = match &bundle.dataset.version_selection {
            Some(sel) => sel.mode,
            None => crate::version::VersionSelectionMode::AutoByEffectiveDate,
        };
        let r = Ok(ImportResult {
            bundle_id: bundle.bundle_id.clone(),
            dataset_id: bundle.dataset.dataset_id.clone(),
            source_version: bundle.audit.source_version.clone(),
            selection_mode: mode,
            resolved_version: resolved,
            entry_count: bundle.entries.len(),
            verdict: bundle.tests.verdict,
        });
        assert(import_matches(r, *bundle, import_verdict(*bundle, ea, sa)));
        proof {
            lemma_accepted_bundle(*bundle, ea, sa);
        }
        r
    }

    fn event_name_taken(decls: &Vec<EventSchemaDecl>, j: usize) -> (r: bool)
        requires
            j < decls@.len(),
        ensures
            r == name_taken(decls@, j as int),
    {
        let mut k: usize = 0;
        while k < j
            invariant
                k <= j < decls@.len(),
                forall|t: int| 0 <= t < k ==> (#[trigger] decls@[t]).name@ != decls@[j as int].name@,
            decreases j - k,
        {
            if crate::text::str_eq(decls[k].name.as_str(), decls[j].name.as_str()) {
                return true;
            }
            k = k + 1;
        }
        false
    }

    /// Dataset-level event declarations: names are unique, each has a schema URI, the
    /// resolver has a schema for it, and that schema compiles.
    fn validate_event_schemas<R: Fn(&str) -> Option<JsonValue>>(decls: &Vec<EventSchemaDecl>, schema_resolver: &R) -> (r: Result<(), BundleError>)
        requires
            forall|u: &str| schema_resolver.requires((u,)),
        ensures
            exists|sa: Seq<Option<Json>>|
                events_fit(*schema_resolver, decls@, sa) && verdict_of(r) == #[trigger] events_verdict(decls@, sa, decls@.len()),
    {
        let ghost mut sa: Seq<Option<Json>> = Seq::empty();
        let mut j: usize = 0;
        while j < decls.len()
            invariant
                j <= decls@.len(),
                sa.len() == j,
                forall|u: &str| schema_resolver.requires((u,)),
                events_verdict(decls@, sa, j as nat) is Ok,
                forall|k: int| 0 <= k < sa.len() && events_verdict(decls@, sa, k as nat) is Ok && event_precheck(decls@, k) is None
                    ==> answered(*schema_resolver, event_uri(decls@[k]), #[trigger] sa[k]),
            decreases decls.len() - j,
        {
            let d = &decls[j];
            let taken = Self::event_name_taken(decls, j);
            let cs = crate::text::chars_of(d.schema_ref.as_str());
            let tc = crate::text::trim_chars(cs.as_slice());
            let uri = crate::text::string_of(tc.as_slice());
            let failure: Option<BundleError>;
            let ghost x: Option<Json>;
            if taken {
                failure = Some(BundleError::EventSchemaDuplicate { name: d.name.clone() });
                proof { x = None; }
            } else if tc.len() == 0 {
                failure = Some(BundleError::EventSchemaMissingRef { name: d.name.clone() });
                proof { x = None; }
            } else {
                let answer = schema_resolver(uri.as_str());
                proof {
                    x = crate::json::opt_json(answer);
                    assert(resolver_gave(*schema_resolver, event_uri(decls@[j as int]), answer));
                    assert(answered(*schema_resolver, event_uri(decls@[j as int]), x));
                }
                match &answer {
                    None => {
                        failure = Some(BundleError::EventSchemaNotResolved { name: d.name.clone(), uri: uri.clone() });
                    },
                    Some(schema) => {
                        let text = crate::json::to_json_text(schema);
                        match crate::schema::compile_schema(text.as_str()) {
                            Ok(_) => {
                                failure = None;
                            },
                            Err(m) => {
                                let mut msg = String::from_str("领域 schema 本身非法: ");
                                msg.append(m.as_str());
                                let mut errors: Vec<String> = Vec::new();
                                errors.push(msg);
                                assert(crate::text::views(errors@) =~= seq![invalid_schema_message(m@)]);
                                failure = Some(BundleError::EventSchemaInvalid { name: d.name.clone(), uri: uri.clone(), errors });
                            },
                        }
                    },
                }
            }
            proof {
                lemma_events_step(*schema_resolver, decls@, sa, x);
            }
            assert(match failure {
                Some(e) => event_verdict(decls@, j as int, x) == Err::<(), Rejection>(e@),
                None => event_verdict(decls@, j as int, x) is Ok,
            });
            match failure {
                Some(e) => {
                    proof {
                        let sa1 = sa.push(x);
                        lemma_events_close(*schema_resolver, decls@, sa1);
                        let ext = sa1 + Seq::new((decls@.len() - sa1.len()) as nat, |t: int| None::<Json>);
                        assert(events_fit(*schema_resolver, decls@, ext));
                    }
                    return Err(e);
                },
                None => {},
            }
            proof {
                sa = sa.push(x);
            }
            j = j + 1;
        }
        Ok(())
    }

    /// Checks a knowledge payload against the domain schema the resolver gave for `uri`:
    /// the schema must compile, and the payload must raise no violation.
    pub fn check_knowledge_payload(entry: &BundleEntry, uri: &str, schema: &JsonValue) -> (r: Result<(), BundleError>)
        ensures
            verdict_of(r) == payload_verdict(*entry, uri@, schema@),
    {
        let schema_text = crate::json::to_json_text(schema);
        let compiled = match crate::schema::compile_schema(schema_text.as_str()) {
            Ok(c) => c,
            Err(m) => {
                let mut msg = String::from_str("领域 schema 本身非法: ");
                msg.append(m.as_str());
                let mut errors: Vec<String> = Vec::new();
                errors.push(msg);
                assert(crate::text::views(errors@) =~= seq![invalid_schema_message(m@)]);
                return Err(BundleError::PayloadSchemaViolation {
                    entry: entry.entry_id.clone(),
                    uri: String::from_str(uri),
                    errors,
                });
            },
        };
        let body_text = crate::json::to_json_text(&entry.rule_body);
        let found = crate::schema::violations(&compiled, body_text.as_str());
        let ghost pairs = found@.map_values(|p: (String, String)| (p.0@, p.1@));
        let mut errors: Vec<String> = Vec::new();
        let mut i: usize = 0;
        while i < found.len()
            invariant
                i <= found@.len(),
                errors@.len() == i,
                pairs == found@.map_values(|p: (String, String)| (p.0@, p.1@)),
                crate::text::views(errors@) == pairs.take(i as int).map_values(|p: (Seq<char>, Seq<char>)| violation_message(p)),
            decreases found.len() - i,
        {
            let (path, message) = &found[i];
            let m = if path.as_str().is_empty() {
                message.clone()
            } else {
                let mut t = path.clone();
                t.append(": ");
                t.append(message.as_str());
                t
            };
            proof {
                assert(pairs[i as int] == (path@, message@));
            }
            let ghost prev = errors@;
            errors.push(m);
            proof {
                assert forall|k: int| 0 <= k < i implies errors@[k]@ == violation_message(pairs[k]) by {
                    assert(errors@[k] == prev[k]);
                    assert(crate::text::views(prev)[k] == pairs.take(i as int).map_values(|p: (Seq<char>, Seq<char>)| violation_message(p))[k]);
                }
            }
            i = i + 1;
            assert(crate::text::views(errors@) =~= pairs.take(i as int).map_values(|p: (Seq<char>, Seq<char>)| violation_message(p)));
        }
        assert(pairs.take(found@.len() as int) =~= pairs);
        if errors.len() == 0 {
            Ok(())
        } else {
            Err(BundleError::PayloadSchemaViolation { entry: entry.entry_id.clone(), uri: String::from_str(uri), errors })
        }
    }
}

} // verus!
