use evorule_bundle::json::{to_json_text, ToJson};
use evorule_bundle::{
    has_dynamic_service_ref, io_services_from_rule_body, validate_rule_structure, BumpKind,
    BundleAudit, BundleDatasetMeta, BundleEntry, BundleError, BundleImporter, BundleTests,
    BundleTrimmer, DataDependencies, DatasetBundle, EntryFilter, EntryKind, EventDirection,
    EventSchemaDecl, InputDecl, JsonValue, LawRef, Provenance, ResolveError, ServiceDecl,
    SourceBinding, TestVerdict, Version, VersionError, VersionResolver, VersionSelection,
    VersionSelectionMode, Versioning,
};

fn to_value(v: &serde_json::Value) -> JsonValue {
    match v {
        serde_json::Value::Null => JsonValue::Null,
        serde_json::Value::Bool(b) => JsonValue::Bool(*b),
        serde_json::Value::Number(n) => JsonValue::Number(n.to_string()),
        serde_json::Value::String(s) => JsonValue::Str(s.clone()),
        serde_json::Value::Array(a) => JsonValue::Array(a.iter().map(to_value).collect()),
        serde_json::Value::Object(m) => {
            JsonValue::Object(m.iter().map(|(k, x)| (k.clone(), to_value(x))).collect())
        }
    }
}

fn js(text: &str) -> JsonValue {
    let v: serde_json::Value = serde_json::from_str(text).unwrap();
    to_value(&v)
}

fn plain_provenance() -> Provenance {
    Provenance {
        source: "statute".into(),
        clause: None,
        document_id: None,
        effective_from: None,
        effective_to: None,
        last_verified: None,
        verified_by: None,
    }
}

fn service(name: &str) -> ServiceDecl {
    ServiceDecl {
        service_name: name.into(),
        version: None,
        io_contract: None,
        sensitive: false,
        description: None,
        template: None,
    }
}

fn rule_entry(id: &str, domain: &str, svc: &str) -> BundleEntry {
    let body = format!(
        r#"{{"rule_id": {}, "transform": [{{"type": "io_request", "params": {{"service_name": {}}}}}]}}"#,
        serde_json::to_string(id).unwrap(),
        serde_json::to_string(svc).unwrap()
    );
    BundleEntry {
        entry_id: id.into(),
        entry_kind: EntryKind::Rule,
        rule_body: js(&body),
        schema_ref: None,
        provenance: plain_provenance(),
        domain: domain.into(),
        tags: vec![domain.into()],
        dependencies: vec![SourceBinding { rule_ref: "transform[0]".into(), service_name: svc.into() }],
    }
}

const SCENARIO: &str = "https://rpsm.evorule.org/schemas/scenario/v1.0.json";

fn scenario_resolver(uri: &str) -> Option<JsonValue> {
    if uri == SCENARIO {
        Some(js(r#"{"type": "object", "required": ["scenario_id", "gravity"],
            "properties": {"scenario_id": {"type": "string"},
                           "gravity": {"type": "array", "minItems": 3, "maxItems": 3}}}"#))
    } else if uri == "https://bad.example/schema.json" {
        Some(js(r#"{"type": 12}"#))
    } else {
        None
    }
}

fn no_resolver(_: &str) -> Option<JsonValue> {
    None
}

fn knowledge(id: &str) -> BundleEntry {
    BundleEntry {
        entry_id: id.into(),
        entry_kind: EntryKind::Knowledge,
        rule_body: js(r#"{"scenario_id": "s", "gravity": [0.0, -9.81, 0.0]}"#),
        schema_ref: Some(SCENARIO.into()),
        provenance: plain_provenance(),
        domain: "physics".into(),
        tags: vec!["physics".into()],
        dependencies: vec![],
    }
}

fn bundle(entries: Vec<BundleEntry>, services: Vec<&str>) -> DatasetBundle {
    let mut b = DatasetBundle {
        bundle_schema_version: "1.0".into(),
        bundle_id: "b1".into(),
        dataset: BundleDatasetMeta {
            dataset_id: "ds".into(),
            name: "set".into(),
            tenant_id: "t".into(),
            instance_id: "i".into(),
            versioning: Versioning::default(),
            version_selection: None,
            law_ref: Some(LawRef {
                document_id: "law".into(),
                law_version: None,
                effective_from: Some("2024-01-01".into()),
                effective_to: None,
            }),
            view_of: None,
            event_schemas: vec![],
        },
        entries,
        data_dependencies: Some(DataDependencies {
            inputs: vec![],
            services: services.into_iter().map(service).collect(),
        }),
        tests: BundleTests { subset: vec![], fixtures: vec![], verdict: TestVerdict::Pass },
        audit: BundleAudit {
            exported_at: "at".into(),
            exported_by: "by".into(),
            source_version: "v1".into(),
            content_hash: String::new(),
            hash_algo: "blake3".into(),
        },
    };
    resign(&mut b);
    b
}

fn resign(b: &mut DatasetBundle) {
    let h = b.compute_content_hash();
    b.audit.content_hash = h;
}

fn ids(entries: &[BundleEntry]) -> Vec<String> {
    entries.iter().map(|e| e.entry_id.clone()).collect()
}

fn three_entries() -> Vec<BundleEntry> {
    let mut e3 = rule_entry("e3", "rpsm", "svc_a");
    e3.tags.push("core".into());
    vec![rule_entry("e1", "tax", "svc_a"), rule_entry("e2", "tax", "svc_b"), e3]
}

#[test]
fn recorded_hash_does_not_enter_the_content_hash() {
    let mut b = bundle(vec![rule_entry("e1", "tax", "svc_a")], vec!["svc_a"]);
    let signed = b.compute_content_hash();
    b.audit.content_hash = "forged".into();
    assert_eq!(b.compute_content_hash(), signed);
    match b.verify_content_hash() {
        Err(BundleError::ContentHashMismatch { recorded, actual }) => {
            assert_eq!(recorded, "forged");
            assert_eq!(actual, signed);
        }
        other => panic!("expected ContentHashMismatch, got {other:?}"),
    }
    resign(&mut b);
    b.verify_content_hash().unwrap();
}

#[test]
fn content_hash_is_prefixed_digest_of_canonical_text() {
    let mut b = bundle(vec![rule_entry("e1", "tax", "svc_a")], vec!["svc_a"]);
    let h = b.compute_content_hash();
    assert!(h.starts_with("blake3:"));
    assert_eq!(h.len(), "blake3:".len() + 64);
    assert!(h["blake3:".len()..].chars().all(|c| c.is_ascii_hexdigit()));
    b.audit.content_hash = String::new();
    let text = to_json_text(&b.to_json());
    assert_eq!(h, evorule_hash::prefixed(&evorule_hash::digest(text.as_bytes())));
}

#[test]
fn content_hash_changes_with_content() {
    let b = bundle(vec![rule_entry("e1", "tax", "svc_a")], vec!["svc_a"]);
    let mut c = bundle(vec![rule_entry("e1", "tax", "svc_a")], vec!["svc_a"]);
    assert_eq!(b.audit.content_hash, c.audit.content_hash);
    c.entries[0].domain = "labor".into();
    assert_ne!(c.compute_content_hash(), b.audit.content_hash);
    assert!(matches!(c.verify_content_hash(), Err(BundleError::ContentHashMismatch { .. })));
}

#[test]
fn canonical_text_of_a_small_bundle() {
    let mut b = bundle(vec![rule_entry("e1", "tax", "svc_a")], vec!["svc_a"]);
    b.audit.content_hash = String::new();
    let expected = [
        r#"{"bundle_schema_version":"1.0","bundle_id":"b1","#,
        r#""dataset":{"dataset_id":"ds","name":"set","tenant_id":"t","instance_id":"i","#,
        r#""versioning":{"chain":[{"major":1,"patch":0}]},"law_ref":{"document_id":"law","effective_from":"2024-01-01"}},"#,
        r#""entries":[{"entry_id":"e1","entry_kind":"rule","#,
        r#""rule_body":{"rule_id":"e1","transform":[{"params":{"service_name":"svc_a"},"type":"io_request"}]},"#,
        r#""provenance":{"source":"statute"},"domain":"tax","tags":["tax"],"#,
        r#""dependencies":[{"rule_ref":"transform[0]","service_name":"svc_a"}]}],"#,
        r#""data_dependencies":{"services":[{"service_name":"svc_a","sensitive":false}]},"#,
        r#""tests":{"verdict":"pass"},"#,
        r#""audit":{"exported_at":"at","exported_by":"by","source_version":"v1","content_hash":"","hash_algo":"blake3"}}"#,
    ]
    .join("");
    assert_eq!(to_json_text(&b.to_json()), expected);
}

#[test]
fn json_text_matches_serde_json_compact_form() {
    let samples = [
        r#"{"b": [1, 2.5, -9.81, 1e5, true, null], "a": "q\"uo\\te\n\t\u0001é中"}"#,
        r#"[{}, [], "", {"z": {"y": 0}}]"#,
        r#""\u007f\u001f/""#,
    ];
    for s in samples {
        let v: serde_json::Value = serde_json::from_str(s).unwrap();
        assert_eq!(to_json_text(&to_value(&v)), serde_json::to_string(&v).unwrap());
    }
}

#[test]
fn view_of_an_accepted_bundle_is_accepted() {
    let mut b = bundle(
        vec![rule_entry("e1", "tax", "svc_a"), knowledge("k1"), rule_entry("e2", "labor", "svc_b")],
        vec!["svc_a", "svc_b"],
    );
    b.dataset.event_schemas =
        vec![EventSchemaDecl { name: "ev".into(), schema_ref: SCENARIO.into(), direction: EventDirection::Push, description: None }];
    resign(&mut b);
    BundleImporter::validate(&b, &scenario_resolver).unwrap();
    let view = BundleTrimmer::trim_by_ids(&b, &["k1".into(), "e2".into()], "svc-co", "now").unwrap();
    assert_eq!(ids(&view.entries), vec!["k1", "e2"]);
    let r = BundleImporter::validate(&view, &scenario_resolver).unwrap();
    assert_eq!(r.bundle_id, "b1_view");
    assert_eq!(r.entry_count, 2);
    assert_eq!(r.verdict, TestVerdict::Pass);
}

#[test]
fn view_declares_only_bound_services() {
    let mut b = bundle(three_entries(), vec!["svc_b", "svc_a", "svc_unused"]);
    b.data_dependencies.as_mut().unwrap().inputs =
        vec![InputDecl { name: "ev".into(), schema: None, description: None, empty_allowed: false }];
    resign(&mut b);
    let view = BundleTrimmer::trim_by_filter(&b, Some("tax"), &[], "x", "t").unwrap();
    let dd = view.data_dependencies.as_ref().unwrap();
    let names: Vec<&str> = dd.services.iter().map(|s| s.service_name.as_str()).collect();
    assert_eq!(names, vec!["svc_b", "svc_a"]);
    assert_eq!(dd.inputs.len(), 1);
    assert!(!dd.has_service("svc_unused"));

    let plain = bundle(vec![knowledge("k1"), rule_entry("e1", "tax", "svc_a")], vec!["svc_a"]);
    let kview = BundleTrimmer::trim_by_ids(&plain, &["k1".into()], "x", "t").unwrap();
    assert!(kview.data_dependencies.is_none());
}

#[test]
fn trimming_keeps_bundle_order_and_version_chain() {
    let b = bundle(three_entries(), vec!["svc_a", "svc_b"]);
    let view = BundleTrimmer::trim_by_ids(&b, &["e3".into(), "e1".into(), "nope".into()], "x", "t").unwrap();
    assert_eq!(ids(&view.entries), vec!["e1", "e3"]);
    assert_eq!(view.dataset.versioning.chain, b.dataset.versioning.chain);
    let r = view.dataset.view_of.as_ref().unwrap();
    assert_eq!(r.original_dataset_id, "ds");
    assert_eq!(r.view_of_version, "v1");
    assert_eq!(view.audit.exported_at, "t");
    view.verify_content_hash().unwrap();
    let tagged = BundleTrimmer::trim_by_filter(&b, None, &["core", "labor"], "x", "t").unwrap();
    assert_eq!(ids(&tagged.entries), vec!["e3"]);
}

#[test]
fn trimming_reports_an_undeclared_bound_service() {
    let b = bundle(vec![rule_entry("e1", "tax", "svc_a"), rule_entry("e2", "tax", "ghost")], vec!["svc_a"]);
    match BundleTrimmer::trim_by_filter(&b, Some("tax"), &[], "x", "t") {
        Err(BundleError::ServiceNotDeclared { service }) => assert_eq!(service, "ghost"),
        other => panic!("expected ServiceNotDeclared, got {other:?}"),
    }
}

#[test]
fn joined_query_is_the_intersection() {
    let entries = three_entries();
    let a = ids(&EntryFilter::apply(&entries, "domain:tax").unwrap());
    let b = ids(&EntryFilter::apply(&entries, "q:svc_a").unwrap());
    let both = ids(&EntryFilter::apply(&entries, "domain:tax;q:svc_a").unwrap());
    let expected: Vec<String> = a.iter().filter(|x| b.contains(x)).cloned().collect();
    assert_eq!(both, expected);
    assert_eq!(both, vec!["e1"]);
}

#[test]
fn blank_queries_keep_every_entry() {
    let entries = three_entries();
    for q in ["", " ", ";;", "  ;  ; "] {
        assert_eq!(ids(&EntryFilter::apply(&entries, q).unwrap()), vec!["e1", "e2", "e3"]);
    }
}

#[test]
fn bad_segment_rejects_whatever_the_entries() {
    for entries in [vec![], three_entries()] {
        match EntryFilter::apply(&entries, "domain:tax;  noseg  ") {
            Err(BundleError::BadFilterSegment(s)) => assert_eq!(s, "noseg"),
            other => panic!("expected BadFilterSegment, got {other:?}"),
        }
    }
    match EntryFilter::apply(&[], "kind:other") {
        Err(BundleError::BadFilterSegment(s)) => assert_eq!(s, "kind:other"),
        other => panic!("expected BadFilterSegment, got {other:?}"),
    }
}

#[test]
fn query_q_reads_the_body_text_and_ids_trim() {
    let entries = three_entries();
    assert_eq!(ids(&EntryFilter::apply(&entries, "q:svc_b").unwrap()), vec!["e2"]);
    assert_eq!(ids(&EntryFilter::apply(&entries, "q:\"type\":\"io_request\"").unwrap()), vec!["e1", "e2", "e3"]);
    assert_eq!(ids(&EntryFilter::apply(&entries, "ids: e3 ,, e2 ").unwrap()), vec!["e2", "e3"]);
    assert_eq!(ids(&EntryFilter::apply(&entries, "tag:core").unwrap()), vec!["e3"]);
}

#[test]
fn literal_services_never_hold_dynamic_references() {
    let body = js(r#"{"transform": [
        {"type": "io_request", "params": {"service_name": "__exec__.instruction.params.s"}},
        {"type": "io_request", "params": {"service_name": "a.b"}},
        {"type": "branch", "params": {"on_true": [{"type": "io_request", "params": {"service_name": "plain"}}]}}
    ]}"#);
    let names = io_services_from_rule_body(&body);
    assert_eq!(names, vec!["plain"]);
    assert!(names.iter().all(|n| !n.starts_with("__") && !n.contains('.')));
    assert!(has_dynamic_service_ref(&body));
    assert!(!has_dynamic_service_ref(&js(r#"{"type": "io_request", "params": {"service_name": "x"}}"#)));
}

#[test]
fn dynamic_reference_waives_the_body_match() {
    let mut e = rule_entry("e1", "tax", "svc_a");
    e.rule_body = js(r#"{"transform": [{"type": "io_request", "params": {"service_name": "__exec__.instruction.params.service_name"}}]}"#);
    BundleImporter::validate_entry(&e, &["svc_a".to_string()], &no_resolver).unwrap();
    match BundleImporter::validate_entry(&e, &[], &no_resolver) {
        Err(BundleError::ServiceNotDeclared { service }) => assert_eq!(service, "svc_a"),
        other => panic!("expected ServiceNotDeclared, got {other:?}"),
    }
}

#[test]
fn path_grammar_edges() {
    let step = |p: &str| js(&format!(r#"[{{"type": "set", "params": {{"attr": {}}}}}]"#, serde_json::to_string(p).unwrap()));
    for bad in ["a.", ".a", "a..b", "a[0", "a[]", "a b.c", "a.[x]", "a.[0].b"] {
        assert_eq!(
            validate_rule_structure(&step(bad)),
            Err(vec![format!("transform[0] 路径语法非法: '{bad}'")]),
            "{bad}"
        );
    }
    for good in ["a.b", "a[10].b", "a.[0]", "a.[0]b", "x-y\\z.$s", "__io_results__.k"] {
        assert_eq!(validate_rule_structure(&step(good)), Ok(()), "{good}");
    }
}

#[test]
fn version_chain_checks_and_labels() {
    let v = Versioning::default();
    assert_eq!(v.validate(), Ok(()));
    let p = v.bump(BumpKind::Patch).unwrap();
    let m = p.bump(BumpKind::Major).unwrap();
    let labels: Vec<String> = m.chain.iter().map(|x| x.label()).collect();
    assert_eq!(labels, vec!["v1", "v1.p1", "v2"]);
    assert_eq!(m.validate(), Ok(()));
    assert_eq!(Versioning { chain: vec![] }.validate(), Err(VersionError::EmptyChain));
    assert_eq!(Versioning { chain: vec![Version { major: 2, patch: 0 }] }.validate(), Err(VersionError::BadStart));
    let broken = Versioning { chain: vec![Version { major: 1, patch: 0 }, Version { major: 1, patch: 2 }] };
    assert_eq!(broken.validate(), Err(VersionError::BrokenChain { position: 1 }));
    assert_eq!(Versioning { chain: vec![] }.bump(BumpKind::Patch).unwrap_err(), VersionError::EmptyChain);
    let top = Versioning { chain: vec![Version { major: 1, patch: u32::MAX }] };
    assert_eq!(top.bump(BumpKind::Patch).unwrap_err(), VersionError::Overflow);
    assert_eq!(Version { major: 12, patch: 3 }.label(), "v12.p3");
}

#[test]
fn pinned_resolution_cases() {
    let chain = Versioning::default().bump(BumpKind::Patch).unwrap().bump(BumpKind::Major).unwrap().chain;
    let pin = |v: Option<&str>, inc: Option<bool>| VersionSelection {
        mode: VersionSelectionMode::Pinned,
        pinned_version: v.map(|s| s.to_string()),
        pinned_include_patch: inc,
    };
    assert_eq!(VersionResolver::resolve_pinned(&pin(Some("v1"), None), &chain), Ok("v1.p1".to_string()));
    assert_eq!(VersionResolver::resolve_pinned(&pin(Some("v1"), Some(false)), &chain), Ok("v1".to_string()));
    assert_eq!(VersionResolver::resolve_pinned(&pin(Some("v2"), Some(true)), &chain), Ok("v2".to_string()));
    assert_eq!(VersionResolver::resolve_pinned(&pin(None, None), &chain), Err(ResolveError::MissingPinnedVersion));
    assert_eq!(
        VersionResolver::resolve_pinned(&pin(Some("v9"), None), &chain),
        Err(ResolveError::PinnedVersionNotFound { version: "v9".into() })
    );
}

#[test]
fn import_reports_version_and_resolution_errors() {
    let mut b = bundle(vec![rule_entry("e1", "tax", "svc_a")], vec!["svc_a"]);
    b.dataset.versioning = Versioning { chain: vec![Version { major: 1, patch: 0 }, Version { major: 3, patch: 0 }] };
    resign(&mut b);
    assert!(matches!(
        BundleImporter::validate(&b, &no_resolver),
        Err(BundleError::Version(VersionError::BrokenChain { position: 1 }))
    ));
    let mut c = bundle(vec![rule_entry("e1", "tax", "svc_a")], vec!["svc_a"]);
    c.dataset.version_selection =
        Some(VersionSelection { mode: VersionSelectionMode::Pinned, pinned_version: Some("v7".into()), pinned_include_patch: None });
    resign(&mut c);
    match BundleImporter::validate(&c, &no_resolver) {
        Err(BundleError::Resolve(ResolveError::PinnedVersionNotFound { version })) => assert_eq!(version, "v7"),
        other => panic!("expected PinnedVersionNotFound, got {other:?}"),
    }
    c.dataset.version_selection =
        Some(VersionSelection { mode: VersionSelectionMode::Pinned, pinned_version: None, pinned_include_patch: None });
    resign(&mut c);
    assert!(matches!(BundleImporter::validate(&c, &no_resolver), Err(BundleError::Resolve(ResolveError::MissingPinnedVersion))));
}

#[test]
fn import_checks_schema_version_before_the_hash() {
    let mut b = bundle(vec![rule_entry("e1", "tax", "svc_a")], vec!["svc_a"]);
    b.bundle_schema_version = "0.9".into();
    b.audit.content_hash = "stale".into();
    assert!(matches!(
        BundleImporter::validate(&b, &no_resolver),
        Err(BundleError::UnsupportedSchema { ref found }) if found == "0.9"
    ));
    b.bundle_schema_version = "1.0".into();
    assert!(matches!(BundleImporter::validate(&b, &no_resolver), Err(BundleError::ContentHashMismatch { .. })));
}

#[test]
fn event_schema_that_does_not_compile_is_rejected() {
    let mut b = bundle(vec![rule_entry("e1", "tax", "svc_a")], vec!["svc_a"]);
    b.dataset.event_schemas = vec![EventSchemaDecl {
        name: "ev".into(),
        schema_ref: "  https://bad.example/schema.json ".into(),
        direction: EventDirection::Push,
        description: None,
    }];
    resign(&mut b);
    match BundleImporter::validate(&b, &scenario_resolver) {
        Err(BundleError::EventSchemaInvalid { name, uri, errors }) => {
            assert_eq!(name, "ev");
            assert_eq!(uri, "https://bad.example/schema.json");
            assert_eq!(errors.len(), 1);
            assert!(errors[0].starts_with("领域 schema 本身非法: "));
        }
        other => panic!("expected EventSchemaInvalid, got {other:?}"),
    }
}

#[test]
fn payload_violations_name_their_instance_path() {
    let mut e = knowledge("k1");
    e.rule_body = js(r#"{"scenario_id": 5, "gravity": [1]}"#);
    match BundleImporter::validate_entry(&e, &[], &scenario_resolver) {
        Err(BundleError::PayloadSchemaViolation { entry, uri, errors }) => {
            assert_eq!(entry, "k1");
            assert_eq!(uri, SCENARIO);
            assert_eq!(errors.len(), 2);
            assert!(errors.iter().any(|m| m.starts_with("/gravity: ")));
            assert!(errors.iter().any(|m| m.starts_with("/scenario_id: ")));
        }
        other => panic!("expected PayloadSchemaViolation, got {other:?}"),
    }
    let mut root = knowledge("k2");
    root.rule_body = js(r#"{"gravity": [1, 2, 3]}"#);
    match BundleImporter::validate_entry(&root, &[], &scenario_resolver) {
        Err(BundleError::PayloadSchemaViolation { errors, .. }) => {
            assert_eq!(errors.len(), 1);
            assert!(!errors[0].starts_with('/'));
        }
        other => panic!("expected PayloadSchemaViolation, got {other:?}"),
    }
    let mut bad_schema = knowledge("k3");
    bad_schema.schema_ref = Some("https://bad.example/schema.json".into());
    match BundleImporter::validate_entry(&bad_schema, &[], &scenario_resolver) {
        Err(BundleError::PayloadSchemaViolation { errors, .. }) => {
            assert_eq!(errors.len(), 1);
            assert!(errors[0].starts_with("领域 schema 本身非法: "));
        }
        other => panic!("expected PayloadSchemaViolation, got {other:?}"),
    }
}

#[test]
fn knowledge_entry_with_empty_schema_ref_is_rejected() {
    let mut e = knowledge("k1");
    e.schema_ref = Some(String::new());
    assert!(matches!(
        BundleImporter::validate_entry(&e, &[], &scenario_resolver),
        Err(BundleError::KnowledgeMissingSchemaRef { ref entry }) if entry == "k1"
    ));
}

#[test]
fn small_values_and_names() {
    let u = BundleTests::unverified();
    assert_eq!(u.verdict, TestVerdict::Fail);
    assert!(u.subset.is_empty() && u.fixtures.is_empty());
    assert_eq!(BundleTests::default().verdict, TestVerdict::Pass);
    assert_eq!(TestVerdict::Pass.to_string(), "pass");
    assert_eq!(TestVerdict::Fail.to_string(), "fail");
    assert_eq!(EntryKind::Rule.to_string(), "rule");
    assert_eq!(EntryKind::Knowledge.to_string(), "knowledge");
    assert_eq!(EntryKind::default(), EntryKind::Rule);
    assert_eq!(evorule_bundle::bundle::default_hash_algo(), "blake3");
    let dd = DataDependencies { inputs: vec![], services: vec![service("a"), service("b")] };
    assert!(dd.has_service("b"));
    assert!(!dd.has_service("c"));
}
