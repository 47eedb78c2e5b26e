use cutforge::anchor::{Anchor, AnchorKind};
use cutforge::json::{json_to_text, JNum, Json};
use cutforge::notes::{NoteAuthor, NotesStore};
use cutforge::shell::{
    actor_counts, note_counts, open_document, oplog_summary, orphan_ids, project_view, sort_by_rev, timeline_rows,
    validate_answer, validate_answer_with,
};
use cutforge::state::sample_project;

fn to_json(v: &serde_json::Value) -> Json {
    match v {
        serde_json::Value::Null => Json::Null,
        serde_json::Value::Bool(b) => Json::Bool(*b),
        serde_json::Value::Number(n) => {
            if let Some(u) = n.as_u64() {
                Json::Num(JNum::PosInt(u))
            } else if let Some(i) = n.as_i64() {
                Json::Num(JNum::NegInt(i))
            } else {
                Json::Num(JNum::Float(n.to_string()))
            }
        },
        serde_json::Value::String(s) => Json::Str(s.clone()),
        serde_json::Value::Array(a) => Json::Arr(a.iter().map(to_json).collect()),
        serde_json::Value::Object(m) => Json::Obj(m.iter().map(|(k, v)| (k.clone(), to_json(v))).collect()),
    }
}

fn j(text: &str) -> Json {
    to_json(&serde_json::from_str(text).unwrap())
}

fn ops() -> Vec<Json> {
    vec![
        j(r#"{"opId":"a","rev":3,"actor":{"kind":"agent"}}"#),
        j(r#"{"opId":"b","rev":1,"actor":{"kind":"user"}}"#),
        j(r#"{"opId":"c","rev":3,"actor":{"kind":"agent"}}"#),
        j(r#"{"opId":"d","rev":2}"#),
        j(r#"{"opId":"e","rev":1,"actor":{"kind":"agent"}}"#),
    ]
}

#[test]
fn ops_sort_by_rev_stably() {
    let sorted = sort_by_rev(&ops());
    let ids: Vec<String> = sorted
        .iter()
        .map(|o| match o {
            Json::Obj(fs) => match &fs.iter().find(|(k, _)| k == "opId").unwrap().1 {
                Json::Str(s) => s.clone(),
                _ => panic!(),
            },
            _ => panic!(),
        })
        .collect();
    assert_eq!(ids, vec!["b", "e", "d", "a", "c"], "equal revisions keep their order");
}

#[test]
fn counts_by_actor_in_string_order() {
    let c = actor_counts(&ops());
    assert_eq!(c, vec![("?".to_string(), 1), ("agent".to_string(), 3), ("user".to_string(), 1)]);
    let text = json_to_text(&oplog_summary(&ops()));
    assert!(text.starts_with(r#"{"byActor":{"?":1,"agent":3,"user":1},"ops":[{"#), "{text}");
    assert!(text.ends_with(r#""total":5}"#), "{text}");
    assert_eq!(json_to_text(&oplog_summary(&Vec::new())), r#"{"byActor":{},"ops":[],"total":0}"#);
}

#[test]
fn shell_timeline_rows() {
    let rows = timeline_rows(&sample_project());
    assert_eq!(rows.len(), 3);
    assert_eq!(json_to_text(&rows[0]), r#"{"endMs":8400,"id":"V1-001","startMs":0,"track":"V1"}"#);
    assert_eq!(json_to_text(&rows[2]), r#"{"endMs":8800,"id":"A1-001","startMs":8400,"track":"A1"}"#);
}

#[test]
fn opens_old_documents_by_upgrading() {
    let old = j(r#"{"version":1,"slug":"s","fps":30,"canvas":{"width":1080,"height":1920},
        "tracks":[{"kind":"video","clips":[{"startMs":0,"durationMs":10}]}]}"#);
    let p = open_document(&old).unwrap();
    assert_eq!(p.tracks[0].id, "V1");
    assert_eq!(p.tracks[0].clips[0].id, "V1-001");
    let view = json_to_text(&project_view(&p));
    assert!(view.ends_with(r#","rev":0}"#), "{view}");
    assert!(view.starts_with(r#"{"project":{"backends":["ffmpeg"]"#), "{view}");
    assert!(open_document(&j(r#"{"slug":3}"#)).is_err());
    assert!(open_document(&j("[1,2]")).is_err());
}

#[test]
fn validate_answers() {
    let ok = json_to_text(&validate_answer(&to_json(&serde_json::to_value(sample_doc_value()).unwrap())));
    assert_eq!(ok, r#"{"code":"OK","data":{},"message":"通过 v2 契约","ok":true}"#);
    let bad = json_to_text(&validate_answer(&j(r#"{"version":"x"}"#)));
    assert!(bad.starts_with(r#"{"code":"SCHEMA_INVALID","data":{"errors":[""#), "{bad}");
    assert!(bad.ends_with(r#""ok":false}"#), "{bad}");
}

fn sample_doc_value() -> serde_json::Value {
    serde_json::from_str(&json_to_text(&cutforge::codec::project_to_json(&sample_project()))).unwrap()
}

#[test]
fn notes_panel_counts() {
    let mut store = NotesStore::new();
    let a = |id: &str| Anchor { kind: AnchorKind::Clip, ref_: Some(id.into()), t_ms: 0, span: None };
    store.add(a("V1-001"), "x".into(), NoteAuthor::User, vec![]);
    let n2 = store.add(a("V9-001"), "y".into(), NoteAuthor::Agent, vec![]);
    store.add(a("V1-002"), "z".into(), NoteAuthor::User, vec![]);
    store.reject(&n2.id, "不改".into()).unwrap();
    assert_eq!(
        json_to_text(&note_counts(&store)),
        r#"{"open":2,"orphan":0,"rejected":1,"resolved":0,"total":3}"#
    );
    assert!(orphan_ids(&store).is_empty());
    let (_, orphaned) = store.relocate_all(&sample_project(), 500);
    assert_eq!(orphaned, 0, "rejected notes are not relocated");
    let lost = store.add(
        Anchor { kind: AnchorKind::Clip, ref_: Some("X9-001".into()), t_ms: 99_999, span: None },
        "w".into(),
        NoteAuthor::User,
        vec![],
    );
    let (_, orphaned) = store.relocate_all(&sample_project(), 500);
    assert_eq!(orphaned, 1);
    assert_eq!(orphan_ids(&store), vec![lost.id.clone()]);
    assert_eq!(
        json_to_text(&note_counts(&store)),
        r#"{"open":2,"orphan":1,"rejected":1,"resolved":0,"total":4}"#
    );
}

#[test]
fn shell_rows_equal_the_engine_timeline() {
    let eng = cutforge::engine::Engine::new(sample_project()).unwrap();
    let rows: Vec<String> = match eng.query(cutforge::engine::Query::Timeline) {
        cutforge::engine::Answer::Timeline(tl) => tl
            .into_iter()
            .map(|(id, s, e, t)| format!(r#"{{"endMs":{e},"id":"{id}","startMs":{s},"track":"{t}"}}"#))
            .collect(),
        _ => panic!("a timeline answer"),
    };
    let shell: Vec<String> = timeline_rows(&sample_project()).iter().map(json_to_text).collect();
    assert_eq!(rows, shell, "both shells show the same rows");
}

#[test]
fn validate_answers_report_the_schema_violations() {
    let doc = to_json(&serde_json::to_value(sample_doc_value()).unwrap());
    let closed = json_to_text(&validate_answer_with(&doc, &j(r#"{"required": ["nope", "nada"]}"#)));
    assert_eq!(
        closed,
        r#"{"code":"SCHEMA_INVALID","data":{"errors":["$: 缺必填键 'nope'","$: 缺必填键 'nada'"]},"message":"$: 缺必填键 'nope'; $: 缺必填键 'nada'","ok":false}"#
    );
    let open = json_to_text(&validate_answer_with(&doc, &j("{}")));
    assert_eq!(open, r#"{"code":"OK","data":{},"message":"通过 v2 契约","ok":true}"#);
}
