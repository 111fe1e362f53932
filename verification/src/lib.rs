//! Shared checks for dataset bundles, the single transport form between the governance
//! side and the execution side of a rule platform.
//!
//! - `DatasetBundle`: a rule dataset with entries, dependencies, test evidence and a
//!   tamper-evident content hash;
//! - `BundleImporter::validate`: the import gate (schema version, content hash, version
//!   chain, entry structure and service symbols, event declarations, version resolution,
//!   test verdict), and `BundleImporter::validate_entry`, the entry gate both sides share;
//! - `BundleTrimmer`: views holding a subset of the entries, pointing at the original;
//! - `EntryFilter`: entry queries;
//! - models for versions, resolution, dependencies and provenance, and the rule-body
//!   checks (`validate_rule_structure`, `io_services_from_rule_body`).

pub mod json;
pub mod text;
pub mod structure;
pub mod symbols;
pub mod dependency;
pub mod provenance;
pub mod version;
pub mod resolve;
pub mod bundle;
pub mod entry_filter;
pub mod trim;
mod digest;
pub mod schema;

pub use bundle::{
    BundleAudit, BundleDatasetMeta, BundleEntry, BundleError, BundleImporter, BundleTests,
    DatasetBundle, EntryKind, ImportResult, TestVerdict, ViewRef,
    BUNDLE_SCHEMA_VERSION,
};
pub use dependency::{
    DataDependencies, EventDirection, EventSchemaDecl, InputDecl, IoContract, ServiceDecl,
    ServiceTemplate, SourceBinding,
};
pub use entry_filter::EntryFilter;
pub use json::JsonValue;
pub use provenance::Provenance;
pub use resolve::{ResolveError, VersionResolver};
pub use structure::{validate_rule_structure, META_INSTRUCTION_TYPES};
pub use symbols::{has_dynamic_service_ref, io_services_from_rule_body};
pub use trim::BundleTrimmer;
pub use version::{
    BumpKind, LawRef, Version, VersionError, VersionSelection, VersionSelectionMode, Versioning,
};
