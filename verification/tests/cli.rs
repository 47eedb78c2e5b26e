use cutforge::anchor::AnchorKind;
use cutforge::cli::{
    actor_from, actor_kind_flag, clippatch_fields, comma_list, exit_code, note_author_flag, note_state_flag, notes_add_flags,
    parse_args,
};
use cutforge::dispatch::NotesCall;
use cutforge::notes::{NoteAuthor, NoteState};
use cutforge::json::{JNum, Json};
use cutforge::oplog::ActorKind;
use cutforge::state::{canonical_json, patch, sample_project};

fn words(ws: &[&str]) -> Vec<String> {
    ws.iter().map(|s| s.to_string()).collect()
}

#[test]
fn args_flags_and_positionals() {
    let a = parse_args(&words(&["proj", "--duration-ms", "8000", "--text=你好", "--open", "--json", "V1-001", "--last"]));
    assert_eq!(a.positional, vec!["proj".to_string(), "V1-001".to_string()]);
    assert!(a.json);
    assert_eq!(a.flag("duration-ms").map(|s| s.as_str()), Some("8000"));
    assert_eq!(a.flag("text").map(|s| s.as_str()), Some("你好"));
    assert_eq!(a.flag("open").map(|s| s.as_str()), Some(""), "a flag followed by a flag has an empty value");
    assert_eq!(a.flag("last").map(|s| s.as_str()), Some(""));
    assert!(a.flag("missing").is_none());
    let b = parse_args(&words(&["--k", "1", "--k", "2"]));
    assert_eq!(b.flag("k").map(|s| s.as_str()), Some("2"), "a later flag wins");
}

#[test]
fn actor_flag_forms() {
    let a = actor_from(Some(&"agent:bot-7".to_string()));
    assert_eq!(a.kind, ActorKind::Agent);
    assert_eq!(a.id, "bot-7");
    let s = actor_from(Some(&"script:ci:nightly".to_string()));
    assert_eq!(s.kind, ActorKind::Script);
    assert_eq!(s.id, "ci:nightly", "split at the first colon");
    let u = actor_from(Some(&"robot:x".to_string()));
    assert_eq!(u.kind, ActorKind::User);
    assert_eq!(u.id, "cli");
    let n = actor_from(None);
    assert_eq!(n.kind, ActorKind::User);
    assert_eq!(n.id, "cli");
}

#[test]
fn exit_codes() {
    assert_eq!(exit_code("OK"), 0);
    assert_eq!(exit_code("NO_CONFIG"), 3);
    assert_eq!(exit_code("DEP_MISSING"), 3);
    assert_eq!(exit_code("PRECONDITION_FAILED"), 2);
}

#[test]
fn patch_fields_from_source() {
    let src = "use x;\n\n/// doc\npub struct ClipPatch {\n    pub start_ms: Option<u64>,\r\n    pub duration_ms: Option<u64>,\n    /// note\n    pub text: Option<String>,\n}\n\npub struct Other {\n    pub zz_top: u8,\n}\n";
    assert_eq!(clippatch_fields(src), vec!["startMs".to_string(), "durationMs".to_string(), "text".to_string()]);
    assert!(clippatch_fields("pub struct Nothing {}").is_empty());
}

#[test]
fn canonical_text_ignores_member_order() {
    let a = Json::Obj(vec![("b".into(), Json::Num(JNum::PosInt(1))), ("a".into(), Json::Str("x".into()))]);
    let b = Json::Obj(vec![("a".into(), Json::Str("x".into())), ("b".into(), Json::Num(JNum::PosInt(1)))]);
    assert_eq!(canonical_json(&a), canonical_json(&b));
    assert_eq!(canonical_json(&a), r#"{"a":"x","b":1}"#);
}

#[test]
fn sample_project_and_patch() {
    let p = sample_project();
    assert_eq!(p.tracks.len(), 2);
    assert_eq!(p.tracks[0].clips[0].source_in_ms, Some(12000));
    assert_eq!(p.notes, "notes.json");
    let q = patch(8000);
    assert_eq!(q.duration_ms, Some(8000));
    assert!(q.start_ms.is_none() && q.volume.is_none());
}

#[test]
fn comma_lists_trim_and_drop_blanks() {
    assert_eq!(comma_list(" op-1, op-2 ,,op-3 "), vec!["op-1", "op-2", "op-3"]);
    assert_eq!(comma_list(""), Vec::<String>::new());
    assert_eq!(comma_list(" , "), Vec::<String>::new());
}

#[test]
fn notes_add_flag_rules() {
    let argv = |xs: &[&str]| -> Vec<String> { xs.iter().map(|s| s.to_string()).collect() };
    match notes_add_flags(&parse_args(&argv(&["root", "--ref", "V1-001", "--t-ms", "4000", "--body", "太快", "--tag", "节奏"]))) {
        Ok(NotesCall::Add { anchor, body, author, tags, request_id }) => {
            assert_eq!(anchor.kind, AnchorKind::Clip);
            assert_eq!(anchor.ref_.as_deref(), Some("V1-001"));
            assert_eq!(anchor.t_ms, 4000);
            assert_eq!(body, "太快");
            assert_eq!(author, NoteAuthor::User);
            assert_eq!(tags, vec!["节奏".to_string()]);
            assert!(request_id.is_none());
        },
        _ => panic!("notes-add flags must parse"),
    }
    match notes_add_flags(&parse_args(&argv(&["root", "--kind", "subtitlecard", "--ref", "", "--t-ms", "x", "--body", "b", "--author", "agent"]))) {
        Ok(NotesCall::Add { anchor, author, .. }) => {
            assert_eq!(anchor.kind, AnchorKind::SubtitleCard);
            assert!(anchor.ref_.is_none(), "an empty ref is none");
            assert_eq!(anchor.t_ms, 0, "no number gives 0");
            assert_eq!(author, NoteAuthor::Agent);
        },
        _ => panic!("notes-add flags must parse"),
    }
    assert_eq!(notes_add_flags(&parse_args(&argv(&["root", "--kind", "bogus"]))).err().unwrap(), "body 必填");
    assert_eq!(notes_add_flags(&parse_args(&argv(&["root", "--kind", "bogus", "--body", "b"]))).err().unwrap(), "未知锚点类型: bogus");
}

#[test]
fn filter_flag_names() {
    assert_eq!(note_state_flag("orphan"), Some(NoteState::Orphan));
    assert_eq!(note_state_flag("Open"), None);
    assert_eq!(note_author_flag("agent"), Some(NoteAuthor::Agent));
    assert_eq!(note_author_flag("bot"), None);
    assert_eq!(actor_kind_flag("script"), Some(ActorKind::Script));
    assert_eq!(actor_kind_flag("human"), None);
}
