use evorule_bundle::{
    BumpKind, BundleAudit, BundleDatasetMeta, BundleEntry, BundleError, BundleImporter,
    BundleTests, BundleTrimmer, DataDependencies, DatasetBundle, EntryFilter, EntryKind,
    EventDirection, EventSchemaDecl, InputDecl, JsonValue, LawRef, Provenance, ServiceDecl,
    SourceBinding, TestVerdict, VersionSelection, VersionSelectionMode, Versioning,
    BUNDLE_SCHEMA_VERSION,
};

fn to_value(v: &serde_json::Value) -> JsonValue {
    match v {
        serde_json::Value::Null => JsonValue::Null,
        serde_json::Value::Bool(b) => JsonValue::Bool(*b),
        serde_json::Value::Number(n) => JsonValue::Number(n.to_string()),
        serde_json::Value::String(s) => JsonValue::Str(s.clone()),
        serde_json::Value::Array(a) => JsonValue::Array(a.iter().map(to_value).collect()),
        serde_json::Value::Object(m) => {
            JsonValue::Object(m.iter().map(|(k, x)| (k.clone(), to_value(x))).collect())
        }
    }
}

fn js(text: &str) -> JsonValue {
    let v: serde_json::Value = serde_json::from_str(text).unwrap();
    to_value(&v)
}

fn provenance(source: &str, effective_from: Option<&str>) -> Provenance {
    Provenance {
        source: source.into(),
        clause: None,
        document_id: None,
        effective_from: effective_from.map(|s| s.to_string()),
        effective_to: None,
        last_verified: None,
        verified_by: None,
    }
}

fn passed_tests() -> BundleTests {
    BundleTests {
        subset: vec!["case-1".into()],
        fixtures: vec!["fx-payroll-1".into()],
        verdict: TestVerdict::Pass,
    }
}

fn bundle_with_entries(entries: Vec<BundleEntry>) -> DatasetBundle {
    DatasetBundle {
        bundle_schema_version: BUNDLE_SCHEMA_VERSION.into(),
        bundle_id: "bundle-ds-tax-2024-v1".into(),
        dataset: BundleDatasetMeta {
            dataset_id: "ds-tax-2024".into(),
            name: "2024 年度企业所得税合规规则集".into(),
            tenant_id: "org-evorule".into(),
            instance_id: "org-evorule".into(),
            versioning: Versioning::default(),
            law_ref: Some(LawRef {
                document_id: "gov-tax-2023-001".into(),
                law_version: Some("2023 修订版".into()),
                effective_from: Some("2024-01-01".into()),
                effective_to: None,
            }),
            version_selection: Some(VersionSelection {
                mode: VersionSelectionMode::AutoByEffectiveDate,
                pinned_version: None,
                pinned_include_patch: None,
            }),
            view_of: None,
            event_schemas: vec![],
        },
        entries,
        data_dependencies: Some(DataDependencies {
            inputs: vec![InputDecl {
                name: "payroll_event".into(),
                schema: None,
                description: None,
                empty_allowed: false,
            }],
            services: vec![ServiceDecl {
                service_name: "payroll_svc".into(),
                version: None,
                io_contract: None,
                sensitive: false,
                description: None,
                template: None,
            }],
        }),
        tests: passed_tests(),
        audit: BundleAudit {
            exported_at: "2026-08-21T12:00:00Z".into(),
            exported_by: "publisher-01".into(),
            source_version: "v1".into(),
            content_hash: String::new(),
            hash_algo: "blake3".into(),
        },
    }
}

fn entry(entry_id: &str, domain: &str) -> BundleEntry {
    let body = format!(
        r#"{{"rule_id": {}, "version": "0.1.0", "transform": [{{"type": "io_request", "params": {{"service_name": "payroll_svc"}}}}]}}"#,
        serde_json::to_string(entry_id).unwrap()
    );
    BundleEntry {
        entry_id: entry_id.into(),
        entry_kind: EntryKind::Rule,
        rule_body: js(&body),
        schema_ref: None,
        provenance: provenance("《企业所得税法》", Some("2024-01-01")),
        domain: domain.into(),
        tags: vec![domain.into()],
        dependencies: vec![SourceBinding {
            rule_ref: "transform[0]".into(),
            service_name: "payroll_svc".into(),
        }],
    }
}

fn no_resolver(_: &str) -> Option<JsonValue> {
    None
}

fn scenario_schema() -> JsonValue {
    js(r#"{
        "$schema": "https://json-schema.org/draft/2020-12/schema",
        "type": "object",
        "required": ["scenario_id", "gravity", "bodies"],
        "properties": {
            "scenario_id": {"type": "string"},
            "gravity": {"type": "array", "items": {"type": "number"}, "minItems": 3, "maxItems": 3},
            "restitution": {"type": "number", "minimum": 0, "maximum": 1},
            "bodies": {"type": "array", "items": {"type": "object"}}
        }
    }"#)
}

fn scenario_resolver(uri: &str) -> Option<JsonValue> {
    if uri == "https://rpsm.evorule.org/schemas/scenario/v1.0.json" {
        Some(scenario_schema())
    } else {
        None
    }
}

fn knowledge_entry(entry_id: &str) -> BundleEntry {
    BundleEntry {
        entry_id: entry_id.into(),
        entry_kind: EntryKind::Knowledge,
        rule_body: js(r#"{
            "scenario_id": "spring-single-particle",
            "gravity": [0.0, -9.81, 0.0],
            "restitution": 1.0,
            "bodies": [{"id": "particle-1"}]
        }"#),
        schema_ref: Some("https://rpsm.evorule.org/schemas/scenario/v1.0.json".into()),
        provenance: provenance("rpsm 内置场景", None),
        domain: "physics".into(),
        tags: vec!["physics".into()],
        dependencies: vec![],
    }
}

fn resign(b: &mut DatasetBundle) {
    let h = b.compute_content_hash();
    b.audit.content_hash = h;
}

fn exported_bundle() -> DatasetBundle {
    let mut b = bundle_with_entries(vec![entry("entry-tax-001", "tax"), entry("entry-labor-002", "labor")]);
    resign(&mut b);
    b
}

fn filter_ids(entries: &[BundleEntry], spec: &str) -> Vec<String> {
    EntryFilter::apply(entries, spec).unwrap().into_iter().map(|e| e.entry_id).collect()
}

fn event_decl(name: &str, uri: &str) -> EventSchemaDecl {
    EventSchemaDecl { name: name.into(), schema_ref: uri.into(), direction: EventDirection::Push, description: None }
}

#[test]
fn test_entry_filter_segments() {
    let entries = vec![entry("e1", "tax"), entry("e2", "tax"), {
        let mut e = entry("e3", "rpsm");
        e.tags.push("core".into());
        e
    }];
    assert_eq!(filter_ids(&entries, "domain:rpsm"), vec!["e3"]);
    assert_eq!(filter_ids(&entries, "tag:core"), vec!["e3"]);
    assert_eq!(filter_ids(&entries, "ids:e1, e3"), vec!["e1", "e3"]);
    assert_eq!(filter_ids(&entries, "q:e2"), vec!["e2"]);
    assert_eq!(filter_ids(&entries, "q:e1"), vec!["e1"]);
    assert_eq!(filter_ids(&entries, "domain:tax;ids:e1,e2;q:e2"), vec!["e2"]);
    assert_eq!(filter_ids(&entries, ";"), vec!["e1", "e2", "e3"]);
    assert_eq!(filter_ids(&entries, ""), vec!["e1", "e2", "e3"]);
}

#[test]
fn test_entry_filter_rejects_bad_segments() {
    let entries = vec![entry("e1", "tax")];
    for bad in ["noseg", "kind:whatever", "tag:", "domain:", "ids:", "q: "] {
        let err = EntryFilter::apply(&entries, bad).unwrap_err();
        assert!(matches!(err, BundleError::BadFilterSegment(_)), "{bad}: {err:?}");
    }
    let err = EntryFilter::apply(&entries, "domain:tax;noseg").unwrap_err();
    assert!(matches!(err, BundleError::BadFilterSegment(_)));
}

#[test]
fn test_entry_filter_kind_segment() {
    let mut k = entry("k1", "rpsm");
    k.entry_kind = EntryKind::Knowledge;
    k.schema_ref = Some("https://rpsm.evorule.org/schemas/scenario/v1.0.json".into());
    let entries = vec![entry("e1", "tax"), k];
    assert_eq!(filter_ids(&entries, "kind:rule"), vec!["e1"]);
    assert_eq!(filter_ids(&entries, "kind:knowledge"), vec!["k1"]);
    assert_eq!(filter_ids(&entries, "kind:knowledge;domain:rpsm"), vec!["k1"]);
}

#[test]
fn test_export_bundle_fields_and_hash() {
    let bundle = exported_bundle();
    assert_eq!(bundle.bundle_schema_version, "1.0");
    assert_eq!(bundle.audit.source_version, "v1");
    assert_eq!(bundle.dataset.instance_id, "org-evorule");
    assert_eq!(bundle.entries.len(), 2);
    assert!(bundle.audit.content_hash.starts_with("blake3:"));
    bundle.verify_content_hash().unwrap();
    let mut tampered = exported_bundle();
    tampered.entries[0].rule_body = js(r#"{"rule_id": "hacked"}"#);
    assert!(matches!(tampered.verify_content_hash(), Err(BundleError::ContentHashMismatch { .. })));
}

#[test]
fn test_import_valid_bundle() {
    let bundle = exported_bundle();
    let r = BundleImporter::validate(&bundle, &no_resolver).unwrap();
    assert_eq!(r.dataset_id, "ds-tax-2024");
    assert_eq!(r.entry_count, 2);
    assert_eq!(r.selection_mode, VersionSelectionMode::AutoByEffectiveDate);
    assert_eq!(r.resolved_version, None);
    assert_eq!(r.verdict, TestVerdict::Pass);
}

#[test]
fn test_import_rejects_unsupported_schema() {
    let mut b = exported_bundle();
    b.bundle_schema_version = "2.0".into();
    match BundleImporter::validate(&b, &no_resolver) {
        Err(BundleError::UnsupportedSchema { found }) => assert_eq!(found, "2.0"),
        _ => panic!("expected UnsupportedSchema"),
    }
}

#[test]
fn test_import_rejects_fail_verdict() {
    let mut b = exported_bundle();
    b.tests.verdict = TestVerdict::Fail;
    resign(&mut b);
    let err = BundleImporter::validate(&b, &no_resolver).unwrap_err();
    assert!(matches!(err, BundleError::TestsNotPassed { .. }));
}

#[test]
fn test_import_rejects_undeclared_service() {
    let mut b = exported_bundle();
    b.entries[0].dependencies[0].service_name = "ghost_svc".into();
    resign(&mut b);
    match BundleImporter::validate(&b, &no_resolver) {
        Err(BundleError::ServiceNotDeclared { service }) => assert_eq!(service, "ghost_svc"),
        _ => panic!("expected ServiceNotDeclared"),
    }
}

#[test]
fn test_import_rejects_service_not_in_rule_body() {
    let mut b = exported_bundle();
    b.entries[0].rule_body = js(r#"{
        "rule_id": "entry-tax-001",
        "transform": [{"type": "set", "params": {"x": 1}}]
    }"#);
    resign(&mut b);
    match BundleImporter::validate(&b, &no_resolver) {
        Err(BundleError::ServiceNotInRuleBody { service }) => assert_eq!(service, "payroll_svc"),
        _ => panic!("expected ServiceNotInRuleBody"),
    }
}

#[test]
fn test_validate_entry_rejects_invalid_structure() {
    let entry = BundleEntry {
        entry_id: "e1".into(),
        entry_kind: EntryKind::Rule,
        rule_body: js(r#"{"rule_id": "e1", "transform": []}"#),
        schema_ref: None,
        provenance: provenance("test", None),
        domain: "tax".into(),
        tags: vec![],
        dependencies: vec![],
    };
    let declared = vec!["payroll_svc".to_string()];
    let err = BundleImporter::validate_entry(&entry, &declared, &no_resolver).unwrap_err();
    assert!(matches!(err, BundleError::InvalidEntryStructure { ref entry, .. } if entry == "e1"));
}

#[test]
fn test_knowledge_entry_passes_with_resolver() {
    let declared: Vec<String> = vec![];
    BundleImporter::validate_entry(&knowledge_entry("d-scenario-1"), &declared, &scenario_resolver).unwrap();
}

#[test]
fn test_knowledge_entry_requires_schema_ref() {
    let mut e = knowledge_entry("d-no-ref");
    e.schema_ref = None;
    let err = BundleImporter::validate_entry(&e, &[], &scenario_resolver).unwrap_err();
    assert!(matches!(err, BundleError::KnowledgeMissingSchemaRef { ref entry } if entry == "d-no-ref"));
}

#[test]
fn test_knowledge_entry_resolver_miss_rejected() {
    let mut e = knowledge_entry("d-unknown-ref");
    e.schema_ref = Some("https://unknown.example/schema.json".into());
    let err = BundleImporter::validate_entry(&e, &[], &scenario_resolver).unwrap_err();
    assert!(matches!(
        err,
        BundleError::SchemaNotResolved { ref entry, ref uri }
            if entry == "d-unknown-ref" && uri == "https://unknown.example/schema.json"
    ));
}

#[test]
fn test_knowledge_entry_payload_violation_rejected() {
    let mut e = knowledge_entry("d-bad-payload");
    e.rule_body = js(r#"{
        "scenario_id": "bad",
        "gravity": [0.0, -9.81],
        "bodies": []
    }"#);
    let err = BundleImporter::validate_entry(&e, &[], &scenario_resolver).unwrap_err();
    assert!(matches!(err, BundleError::PayloadSchemaViolation { ref entry, .. } if entry == "d-bad-payload"));
}

#[test]
fn test_knowledge_entry_with_dependencies_rejected() {
    let mut e = knowledge_entry("d-with-dep");
    e.dependencies = vec![SourceBinding { rule_ref: "n/a".into(), service_name: "payroll_svc".into() }];
    let err = BundleImporter::validate_entry(&e, &["payroll_svc".to_string()], &scenario_resolver).unwrap_err();
    assert!(matches!(err, BundleError::KnowledgeWithDependencies { ref entry } if entry == "d-with-dep"));
}

#[test]
fn test_mixed_bundle_validates() {
    let mut b = bundle_with_entries(vec![entry("entry-tax-001", "tax"), knowledge_entry("d-scenario-1")]);
    resign(&mut b);
    BundleImporter::validate(&b, &scenario_resolver).unwrap();
}

#[test]
fn test_knowledge_bundle_end_to_end_import() {
    let mut b = bundle_with_entries(vec![knowledge_entry("d-scenario-1")]);
    b.data_dependencies = None;
    resign(&mut b);
    let r = BundleImporter::validate(&b, &scenario_resolver).unwrap();
    assert_eq!(r.entry_count, 1);
    assert_eq!(r.verdict, TestVerdict::Pass);
}

#[test]
fn test_event_schema_unknown_ref_rejected() {
    let mut b = exported_bundle();
    b.dataset.event_schemas = vec![event_decl("e1", "https://unknown.example/e.json")];
    resign(&mut b);
    let err = BundleImporter::validate(&b, &scenario_resolver).unwrap_err();
    assert!(matches!(
        err,
        BundleError::EventSchemaNotResolved { ref name, ref uri }
            if name == "e1" && uri == "https://unknown.example/e.json"
    ));
}

#[test]
fn test_event_schema_duplicate_and_missing_ref_rejected() {
    let mut b = exported_bundle();
    let uri = "https://rpsm.evorule.org/schemas/scenario/v1.0.json";
    b.dataset.event_schemas = vec![event_decl("e1", uri), event_decl("e1", uri)];
    resign(&mut b);
    let err = BundleImporter::validate(&b, &scenario_resolver).unwrap_err();
    assert!(matches!(err, BundleError::EventSchemaDuplicate { ref name } if name == "e1"));
    let mut b2 = exported_bundle();
    b2.dataset.event_schemas = vec![event_decl("e1", "   ")];
    resign(&mut b2);
    let err = BundleImporter::validate(&b2, &scenario_resolver).unwrap_err();
    assert!(matches!(err, BundleError::EventSchemaMissingRef { ref name } if name == "e1"));
}

#[test]
fn test_import_pinned_resolves() {
    let mut b = exported_bundle();
    b.dataset.versioning = b.dataset.versioning.bump(BumpKind::Patch).unwrap();
    b.dataset.version_selection = Some(VersionSelection {
        mode: VersionSelectionMode::Pinned,
        pinned_version: Some("v1".into()),
        pinned_include_patch: None,
    });
    resign(&mut b);
    let r = BundleImporter::validate(&b, &no_resolver).unwrap();
    assert_eq!(r.resolved_version.as_deref(), Some("v1.p1"));
    assert_eq!(r.selection_mode, VersionSelectionMode::Pinned);
}

#[test]
fn test_import_auto_requires_effective_base() {
    let mut b = exported_bundle();
    b.dataset.law_ref = None;
    resign(&mut b);
    let err = BundleImporter::validate(&b, &no_resolver).unwrap_err();
    assert!(matches!(err, BundleError::MissingEffectiveBase));
}

#[test]
fn test_trim_by_ids_is_view() {
    let bundle = exported_bundle();
    let view = BundleTrimmer::trim_by_ids(&bundle, &["entry-tax-001".into()], "si-company", "2026-08-21T14:00:00Z").unwrap();
    assert_eq!(view.entries.len(), 1);
    assert_eq!(view.entries[0].entry_id, "entry-tax-001");
    let v = view.dataset.view_of.as_ref().unwrap();
    assert_eq!(v.original_dataset_id, "ds-tax-2024");
    assert_eq!(v.view_of_version, "v1");
    assert_eq!(view.dataset.versioning.chain, bundle.dataset.versioning.chain);
    assert_eq!(view.audit.source_version, "v1");
    assert!(view.data_dependencies.as_ref().unwrap().has_service("payroll_svc"));
    assert_eq!(view.audit.exported_by, "si-company");
    view.verify_content_hash().unwrap();
    BundleImporter::validate(&view, &no_resolver).unwrap();
}

#[test]
fn test_trim_by_filter_domain() {
    let bundle = exported_bundle();
    let view = BundleTrimmer::trim_by_filter(&bundle, Some("labor"), &[], "si-company", "t").unwrap();
    assert_eq!(view.entries.len(), 1);
    assert_eq!(view.entries[0].domain, "labor");
}

#[test]
fn test_trim_empty_rejected() {
    let bundle = exported_bundle();
    let err = BundleTrimmer::trim_by_ids(&bundle, &["nope".into()], "x", "t").unwrap_err();
    assert!(matches!(err, BundleError::EmptyView));
    let err = BundleTrimmer::trim_by_filter(&bundle, Some("nope"), &[], "x", "t").unwrap_err();
    assert!(matches!(err, BundleError::EmptyView));
}
