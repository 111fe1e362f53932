use evorule_bundle::{validate_rule_structure, JsonValue};

fn to_value(v: &serde_json::Value) -> JsonValue {
    match v {
        serde_json::Value::Null => JsonValue::Null,
        serde_json::Value::Bool(b) => JsonValue::Bool(*b),
        serde_json::Value::Number(n) => JsonValue::Number(n.to_string()),
        serde_json::Value::String(s) => JsonValue::Str(s.clone()),
        serde_json::Value::Array(a) => JsonValue::Array(a.iter().map(to_value).collect()),
        serde_json::Value::Object(m) => {
            JsonValue::Object(m.iter().map(|(k, x)| (k.clone(), to_value(x))).collect())
        }
    }
}

fn js(text: &str) -> JsonValue {
    let v: serde_json::Value = serde_json::from_str(text).unwrap();
    to_value(&v)
}

fn ok(v: JsonValue) -> bool {
    validate_rule_structure(&v).is_ok()
}

fn set_attr(path: &str) -> JsonValue {
    let text = format!(
        r#"{{"transform": [{{"type": "set", "params": {{"attr": {}, "operation": "set", "value": 1}}}}]}}"#,
        serde_json::to_string(path).unwrap()
    );
    js(&text)
}

#[test]
fn valid_transform_array_passes() {
    let v = js(r#"{
        "transform": [
            {"type": "branch", "params": {
                "domain": {"type": "instruction", "instruction_type": "compute_ik"},
                "on_true": [],
                "on_false": []
            }},
            {"type": "set", "params": {"attr": "a.b", "operation": "set", "value": 1}}
        ]
    }"#);
    assert!(ok(v));
}

#[test]
fn bare_array_passes() {
    let v = js(r#"[
        {"type": "set", "params": {"attr": "a", "operation": "set", "value": 1}}
    ]"#);
    assert!(ok(v));
}

#[test]
fn non_array_or_object_rejected() {
    assert!(!ok(js("123")));
    assert!(!ok(js(r#""x""#)));
    assert!(!ok(js("null")));
}

#[test]
fn empty_transform_rejected() {
    assert!(!ok(js(r#"{"transform": []}"#)));
}

#[test]
fn illegal_meta_instruction_rejected() {
    let v = js(r#"{"transform": [{"type": "increment", "params": {"attr": "x"}}]}"#);
    assert!(!ok(v));
    let v2 = js(r#"{"transform": [{"type": "save_memory", "params": {}}]}"#);
    assert!(!ok(v2));
}

#[test]
fn singular_io_result_rejected() {
    let v = js(r#"{"transform": [{"type": "branch", "params": {
        "domain": {"type": "exists", "path": "__exec__.payload.__io_result__"},
        "on_true": []}}]}"#);
    assert!(!ok(v));
}

#[test]
fn plural_io_results_passes() {
    let v = js(r#"{"transform": [{"type": "branch", "params": {
        "domain": {"type": "exists", "path": "__exec__.payload.__io_results__.call_service"},
        "on_true": []}}]}"#);
    assert!(ok(v));
}

#[test]
fn path_syntax_negative_rejected() {
    for bad in ["x.", ".x", "x..y", "items[0]..name", "[0", "[]", "[abc]", "[0]abc"] {
        assert!(!ok(set_attr(bad)), "应拒绝路径: {bad}");
    }
}

#[test]
fn non_path_plain_value_passes() {
    let v = js(r#"{"transform": [{"type": "set", "params": {"attr": "a.b", "operation": "set", "value": "foo bar"}}]}"#);
    assert!(ok(v));
}

#[test]
fn free_text_with_dot_passes() {
    let v = js(r#"{"transform": [{"type": "set", "params": {
        "attr": "_patch_args.system", "operation": "set",
        "value": "你生成的规则必须严格遵守core_eval.json规范，且只能针对参数阈值进行调整。"}
    }]}"#);
    assert!(ok(v), "含点的自由文本不应被误判为非法路径");
}

#[test]
fn free_text_singular_io_result_still_rejected() {
    let v = js(r#"{"transform": [{"type": "set", "params": {
        "attr": "a", "operation": "set",
        "value": "引用 __io_result__ 的说明文本" }
    }]}"#);
    assert!(!ok(v));
}

#[test]
fn path_syntax_positive_passes() {
    for good in [
        "__exec__.payload.$schema",
        "data[0]",
        "data.[0]",
        "payload.a.b[2].c",
        "__exec__.payload.__io_results__.call_service",
    ] {
        assert!(ok(set_attr(good)), "应通过路径: {good}");
    }
}

#[test]
fn structure_messages_name_step_and_whitelist() {
    let v = js(r#"{"transform": [{"type": "set", "params": {}}, {"type": "increment"}, {"params": {"path": "x..y"}}]}"#);
    let errors = validate_rule_structure(&v).unwrap_err();
    assert_eq!(
        errors,
        vec![
            "transform[1].type='increment' 不是元指令（白名单: set/push/branch/io_request/collect/merge）".to_string(),
            "transform[2] 缺 type".to_string(),
            "transform[2] 路径语法非法: 'x..y'".to_string(),
        ]
    );
}

#[test]
fn structure_messages_for_shape_and_empty() {
    assert_eq!(
        validate_rule_structure(&js("123")).unwrap_err(),
        vec!["rule_body 必须是 transform 数组或含 transform 字段的对象".to_string()]
    );
    assert_eq!(
        validate_rule_structure(&js(r#"{"transform": []}"#)).unwrap_err(),
        vec!["transform 数组不能为空".to_string()]
    );
}

#[test]
fn singular_io_result_message_counts_each_string() {
    let v = js(r#"[{"type": "set", "params": {"attr": "__io_result__.x", "value": "__io_result__"}}]"#);
    let errors = validate_rule_structure(&v).unwrap_err();
    assert_eq!(errors.len(), 2);
    assert_eq!(errors[0], "transform[0] 引用单数 '__io_result__'，必须用复数 '__io_results__'");
}
