use evorule_bundle::{has_dynamic_service_ref, io_services_from_rule_body, JsonValue};

fn to_value(v: &serde_json::Value) -> JsonValue {
    match v {
        serde_json::Value::Null => JsonValue::Null,
        serde_json::Value::Bool(b) => JsonValue::Bool(*b),
        serde_json::Value::Number(n) => JsonValue::Number(n.to_string()),
        serde_json::Value::String(s) => JsonValue::Str(s.clone()),
        serde_json::Value::Array(a) => JsonValue::Array(a.iter().map(to_value).collect()),
        serde_json::Value::Object(m) => {
            JsonValue::Object(m.iter().map(|(k, x)| (k.clone(), to_value(x))).collect())
        }
    }
}

fn js(text: &str) -> JsonValue {
    let v: serde_json::Value = serde_json::from_str(text).unwrap();
    to_value(&v)
}

#[test]
fn test_extracts_io_services() {
    let body = js(r#"{
        "rule_id": "r1",
        "transform": [
            { "type": "io_request", "params": { "service_name": "payroll_svc" } },
            { "type": "set", "params": { "path": "a", "value": 1 } }
        ]
    }"#);
    assert_eq!(io_services_from_rule_body(&body), vec!["payroll_svc"]);
}

#[test]
fn test_empty_when_no_io_or_bad_structure() {
    assert!(io_services_from_rule_body(&js(r#"{"rule_id": "r1"}"#)).is_empty());
    assert!(io_services_from_rule_body(&js(r#"{"transform": []}"#)).is_empty());
    let body = js(r#"{ "transform": [ { "type": "io_request", "params": {} } ] }"#);
    assert!(io_services_from_rule_body(&body).is_empty());
}

#[test]
fn test_dynamic_service_ref_excluded_from_literals() {
    let body = js(r#"{
        "rule_id": "r1",
        "transform": [
            { "type": "io_request", "params": { "service_name": "__exec__.instruction.params.service_name" } },
            { "type": "io_request", "params": { "service_name": "payroll_svc" } }
        ]
    }"#);
    assert_eq!(io_services_from_rule_body(&body), vec!["payroll_svc"]);
}

#[test]
fn test_has_dynamic_service_ref() {
    let dyn_body = js(r#"{
        "transform": [
            { "type": "io_request", "params": { "service_name": "__exec__.instruction.params.sampling_service" } }
        ]
    }"#);
    assert!(has_dynamic_service_ref(&dyn_body));
    let literal_body = js(r#"{
        "transform": [
            { "type": "io_request", "params": { "service_name": "robot_move_service" } }
        ]
    }"#);
    assert!(!has_dynamic_service_ref(&literal_body));
    assert!(!has_dynamic_service_ref(&js(r#"{"rule_id": "r1"}"#)));
    assert!(!has_dynamic_service_ref(&js(r#"{"transform": []}"#)));
}

#[test]
fn test_extracts_nested_io_services_in_branch() {
    let body = js(r#"{
        "transform": [
            {
                "type": "branch",
                "params": {
                    "domain": { "type": "instruction", "instruction_type": "audit_alert" },
                    "on_true": [
                        {
                            "type": "branch",
                            "params": {
                                "domain": { "type": "exists", "path": "__exec__.payload.__io_results__.call_service" },
                                "on_false": [
                                    { "type": "set", "params": { "attr": "_llm_args.model", "operation": "set", "value": "gpt" } },
                                    {
                                        "type": "io_request",
                                        "params": { "io_type": "call_service", "service_name": "llm_advisor", "args": "__exec__.payload._llm_args" }
                                    }
                                ],
                                "on_true": []
                            }
                        }
                    ]
                }
            }
        ]
    }"#);
    let services = io_services_from_rule_body(&body);
    assert_eq!(services, vec!["llm_advisor"]);
    assert!(!has_dynamic_service_ref(&body));
}

#[test]
fn test_extracts_nested_dynamic_and_literal_mixed() {
    let body = js(r#"{
        "transform": [
            {
                "type": "branch",
                "params": {
                    "domain": { "type": "instruction", "instruction_type": "compute_ik" },
                    "on_true": [
                        {
                            "type": "branch",
                            "params": {
                                "domain": { "type": "exists", "path": "__exec__.payload.__io_results__.call_service" },
                                "on_false": [
                                    {
                                        "type": "io_request",
                                        "params": { "io_type": "call_service", "service_name": "__exec__.instruction.params.service_name", "args": "__exec__.payload._ik_args" }
                                    }
                                ],
                                "on_true": [
                                    {
                                        "type": "io_request",
                                        "params": { "io_type": "call_service", "service_name": "shadow_ik_solver", "args": "__exec__.payload.service_result" }
                                    }
                                ]
                            }
                        }
                    ]
                }
            }
        ]
    }"#);
    let services = io_services_from_rule_body(&body);
    assert_eq!(services, vec!["shadow_ik_solver"]);
    assert!(has_dynamic_service_ref(&body));
}

#[test]
fn dynamic_reference_by_double_underscore_prefix_only() {
    let body = js(r#"[{"type": "io_request", "params": {"service_name": "__svc"}}]"#);
    assert!(has_dynamic_service_ref(&body));
    assert!(io_services_from_rule_body(&body).is_empty());
}
