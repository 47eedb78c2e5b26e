use cutforge::json::{json_to_text, JNum, Json};
use cutforge::mcp::{
    check_rel_path, codes, count_sfx_near, envelope, is_readonly_tool, media_kind, merge_patch, mime_of, next_clip_id_for, pct_decode,
    produces_rev_mutation, reject_code, sanitize_slug, script_arg_to_string, tool_names,
};
use cutforge::state::sample_project;

fn to_json(v: &serde_json::Value) -> Json {
    match v {
        serde_json::Value::Null => Json::Null,
        serde_json::Value::Bool(b) => Json::Bool(*b),
        serde_json::Value::Number(n) => {
            if let Some(u) = n.as_u64() {
                Json::Num(JNum::PosInt(u))
            } else if let Some(i) = n.as_i64() {
                Json::Num(JNum::NegInt(i))
            } else {
                Json::Num(JNum::Float(n.to_string()))
            }
        },
        serde_json::Value::String(s) => Json::Str(s.clone()),
        serde_json::Value::Array(a) => Json::Arr(a.iter().map(to_json).collect()),
        serde_json::Value::Object(m) => Json::Obj(m.iter().map(|(k, v)| (k.clone(), to_json(v))).collect()),
    }
}

fn j(text: &str) -> Json {
    to_json(&serde_json::from_str(text).unwrap())
}

#[test]
fn mutation_classification() {
    for q in [
        "project_get",
        "timeline_get",
        "oplog_tail",
        "notes_list",
        "conflict_list",
        "render_probe",
        "stage_status",
        "media_probe",
        "media_browse",
        "capability_matrix",
        "render_run",
        "render_progress",
        "project_new",
    ] {
        assert!(!produces_rev_mutation(q), "{q} is no session change");
    }
    for w in [
        "clip_update",
        "clip_add",
        "clip_delete",
        "clip_split",
        "clip_move",
        "track_add",
        "undo",
        "redo",
        "cut_apply",
        "notes_add",
    ] {
        assert!(produces_rev_mutation(w), "{w} is a session change");
    }
}

#[test]
fn script_args_serialization() {
    assert_eq!(script_arg_to_string(&j(r#""--force""#)).unwrap(), "--force");
    assert_eq!(script_arg_to_string(&j("42")).unwrap(), "42");
    assert_eq!(script_arg_to_string(&j("1.5")).unwrap(), "1.5");
    assert_eq!(script_arg_to_string(&j("true")).unwrap(), "true");
    assert!(script_arg_to_string(&j(r#"{"a": 1}"#)).is_err());
}

#[test]
fn readonly_tools_and_codes() {
    assert!(is_readonly_tool("project_get"));
    assert!(is_readonly_tool("conflict_list"));
    assert!(!is_readonly_tool("clip_update"));
    let table = codes();
    assert_eq!(table.len(), 10);
    assert_eq!(table[0], "OK");
    assert_eq!(reject_code("PRECONDITION_FAILED: expectRev"), "PRECONDITION_FAILED");
    assert_eq!(reject_code("NOTHING_TO_UNDO"), "PRECONDITION_FAILED");
    assert_eq!(reject_code("CONFLICT at $/a"), "CONFLICT");
    assert_eq!(reject_code("boom"), "INTERNAL");
    assert!(table.contains(&reject_code("anything else")));
}

#[test]
fn envelope_has_the_four_fields() {
    let e = envelope(false, "PRECONDITION_FAILED", "缺参数", Json::Obj(vec![]));
    let text = json_to_text(&e);
    assert_eq!(text, r#"{"code":"PRECONDITION_FAILED","data":{},"message":"缺参数","ok":false}"#);
}

#[test]
fn media_kinds_and_mime() {
    assert_eq!(media_kind("mp4"), "video");
    assert_eq!(media_kind("flac"), "audio");
    assert_eq!(media_kind("png"), "image");
    assert_eq!(mime_of("mp4"), "video/mp4");
}

#[test]
fn clip_ids_and_sfx_counts() {
    let p = sample_project();
    assert_eq!(next_clip_id_for(&p, "V1"), "V1-003");
    assert_eq!(next_clip_id_for(&p, "A1"), "A1-002");
    assert_eq!(count_sfx_near(&p, 8500, 200), 1);
    assert_eq!(count_sfx_near(&p, 20000, 200), 0);
}

#[test]
fn merge_patch_follows_rfc7386() {
    let target = j(r#"{"a": "b", "c": {"d": "e", "f": "g"}}"#);
    let patch = j(r#"{"a": "z", "c": {"f": null}}"#);
    let out = merge_patch(target, &patch);
    assert_eq!(json_to_text(&out), r#"{"a":"z","c":{"d":"e"}}"#);
}

#[test]
fn percent_decoding_and_slugs() {
    assert_eq!(pct_decode("a%20b%E4%B8%AD"), "a b中");
    assert_eq!(pct_decode("100%"), "100%");
    assert_eq!(sanitize_slug("我的 工程/1"), "我的 工程_1");
    assert_eq!(sanitize_slug("a<b>c:d\"e|f?g*h\\i\u{1}"), "a_b_c_d_e_f_g_h_i_");
}

#[test]
fn tool_names_come_from_the_registry() {
    let doc = j(r#"{"tools": [{"name": "project_get"}, {"title": "nameless"}, {"name": "clip_update"}]}"#);
    assert_eq!(tool_names(&doc), vec!["project_get".to_string(), "clip_update".to_string()]);
    assert!(tool_names(&j("{}")).is_empty());
}

#[test]
fn relative_paths_are_checked_before_lookup() {
    assert_eq!(check_rel_path(""), Err("路径为空"));
    assert_eq!(check_rel_path("/etc/passwd"), Err("非法路径"));
    assert_eq!(check_rel_path("media/../../secret"), Err("非法路径"));
    assert_eq!(check_rel_path("media\\..\\x"), Err("非法路径"));
    assert_eq!(check_rel_path("media/..x/a.mp4"), Ok(()));
    assert_eq!(check_rel_path("01_原始素材/a.mp4"), Ok(()));
}
