use cutforge::json::{JNum, Json};
use cutforge::schema::{try_validate_node, validate_node};
use serde_json::Value;

fn to_json(v: &Value) -> Json {
    match v {
        Value::Null => Json::Null,
        Value::Bool(b) => Json::Bool(*b),
        Value::Number(n) => {
            if let Some(u) = n.as_u64() {
                Json::Num(JNum::PosInt(u))
            } else if let Some(i) = n.as_i64() {
                Json::Num(JNum::NegInt(i))
            } else {
                Json::Num(JNum::Float(n.to_string()))
            }
        },
        Value::String(s) => Json::Str(s.clone()),
        Value::Array(a) => Json::Arr(a.iter().map(to_json).collect()),
        Value::Object(m) => Json::Obj(m.iter().map(|(k, v)| (k.clone(), to_json(v))).collect()),
    }
}

fn j(text: &str) -> Json {
    to_json(&serde_json::from_str(text).unwrap())
}

fn check(schema: &str, data: &str) -> Vec<String> {
    let s = j(schema);
    validate_node(&s, &s, &j(data), "$")
}

#[test]
fn early_errors_stop_the_node() {
    assert_eq!(check(r#"{"type": "string", "minLength": 3}"#, "5"), vec!["$: type 期望 \"string\" 实际 integer"]);
    assert_eq!(check(r#"{"type": ["null", "integer"]}"#, "7"), Vec::<String>::new());
    assert_eq!(check(r#"{"type": ["null", "integer"]}"#, "1.5"), vec!["$: type 期望 [\"null\",\"integer\"] 实际 number"]);
    assert_eq!(check(r#"{"const": 1}"#, "2"), vec!["$: const 期望 1 实际 2"]);
    assert_eq!(check(r#"{"enum": ["a", 1, null]}"#, "\"b\""), vec![
        "$: enum [String(\"a\"), Number(1), Null] 不含 \"b\""
    ]);
    assert!(check(r#"{"enum": ["a", 1]}"#, "1").is_empty());
}

#[test]
fn objects_arrays_and_refs_report_every_path() {
    let schema = r##"{
        "$defs": {"pos": {"type": "integer", "minimum": 0}},
        "type": "object",
        "required": ["id", "t"],
        "properties": {
            "id": {"type": "string"},
            "t": {"$ref": "#/$defs/pos"},
            "xs": {"type": "array", "items": {"type": "string", "minLength": 2}, "maxItems": 1}
        },
        "additionalProperties": false
    }"##;
    assert_eq!(check(schema, r#"{"t": -5, "xs": ["a", "bb"], "zz": 1}"#), vec![
        "$: 缺必填键 'id'",
        "$.t: minimum 0 实际 -5",
        "$.xs: maxItems 1 实际 2",
        "$.xs[0]: minLength 2 实际长度 1",
        "$: additionalProperties=false 拒绝多余键 'zz'",
    ]);
    assert!(check(schema, r#"{"id": "c1", "t": 3, "xs": ["ab"]}"#).is_empty());
}

#[test]
fn numeric_and_length_bounds() {
    assert_eq!(check(r#"{"maximum": 10}"#, "11"), vec!["$: maximum 10 实际 11"]);
    assert_eq!(check(r#"{"exclusiveMinimum": 0}"#, "0"), vec!["$: exclusiveMinimum 0 实际 0"]);
    assert_eq!(check(r#"{"maxLength": 2}"#, "\"语速太快\""), vec!["$: maxLength 2 实际长度 4"]);
    assert_eq!(check(r#"{"minItems": 2}"#, "[1]"), vec!["$: minItems 2 实际 1"]);
}

#[test]
fn pattern_matches_anywhere_and_bad_patterns_are_reported() {
    assert_eq!(check(r#"{"pattern": "^[a-z]+$"}"#, "\"AB\""), vec!["$: pattern \"^[a-z]+$\" 不匹配 \"AB\""]);
    assert!(check(r#"{"pattern": "b"}"#, "\"abc\"").is_empty());
    let s = j(r#"{"pattern": "("}"#);
    assert!(try_validate_node(&s, &s, &j("\"x\""), "$").is_none());
}

#[test]
fn dangling_or_foreign_refs_cannot_be_checked() {
    let s = j(r##"{"$ref": "#/$defs/none"}"##);
    assert!(try_validate_node(&s, &s, &j("1"), "$").is_none());
    let s = j(r#"{"$ref": "other.json#/a"}"#);
    assert!(try_validate_node(&s, &s, &j("1"), "$").is_none());
    let s = j(r##"{"$defs": {"a/b": {"type": "string"}}, "$ref": "#/$defs/a~1b"}"##);
    assert_eq!(try_validate_node(&s, &s, &j("1"), "$"), Some(vec!["$: type 期望 \"string\" 实际 integer".to_string()]));
}

#[test]
fn remove_requires_a_passed_guard() {
    let schema = r#"{"x-removeRequiresGuardOk": true}"#;
    assert_eq!(check(schema, r#"{"action": "remove", "guard": {"ok": false, "wordClipped": true}}"#), vec![
        "$: action=remove 但 guard 判定 ok=Some(Bool(false))",
        "$: action=remove 但 wordClipped=true(任何 reason 下硬失败)",
    ]);
    assert_eq!(check(schema, r#"{"action": "remove", "guard": {}}"#), vec![
        "$: action=remove 但 guard 为空(guard_passed 视为未过)"
    ]);
    assert_eq!(check(schema, r#"{"action": "remove", "guard": {"okByReason": true}}"#), Vec::<String>::new());
    assert_eq!(check(schema, r#"{"action": "keep"}"#), Vec::<String>::new());
}

#[test]
fn keep_spans_cover_the_timeline() {
    let schema = r#"{"x-keepCoversTimeline": true}"#;
    assert_eq!(check(schema, r#"{"keep": [[0, 100], [200, 300]], "srcTotalMs": 500}"#), vec![
        "$: keep 覆盖到 300 ≠ srcTotalMs 500"
    ]);
    assert_eq!(check(schema, r#"{"keep": [[0, 100], [50, 60]], "srcTotalMs": 60}"#), vec!["$: keep 区间无序/重叠/非法"]);
    assert!(check(schema, r#"{"keep": [[0, 100], [100, 500]], "srcTotalMs": 500}"#).is_empty());
}
