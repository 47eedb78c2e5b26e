use cutforge::anchor::AnchorKind;
use cutforge::command::Command;
use cutforge::dispatch::{
    actor_filter, apply_opts_from, arg_strs, batch_of, clip_add_command, clip_add_target, keep_last, limit_of,
    guarded_write_command, has_id_room, new_project_request, notes_call, notes_filter, probed_duration,
    receipt_envelope, route_tool, script_for, write_command, NotesCall, ToolRoute,
};
use cutforge::engine::OpReceipt;
use cutforge::json::{json_to_text, JNum, Json};
use cutforge::mcp::{timeline_checked, timeline_projection};
use cutforge::model::{Role, TrackKind};
use cutforge::notes::{NoteAuthor, NoteState};
use cutforge::oplog::ActorKind;
use cutforge::state::sample_project;

fn to_json(v: &serde_json::Value) -> Json {
    match v {
        serde_json::Value::Null => Json::Null,
        serde_json::Value::Bool(b) => Json::Bool(*b),
        serde_json::Value::Number(n) => {
            if let Some(u) = n.as_u64() {
                Json::Num(JNum::PosInt(u))
            } else if let Some(i) = n.as_i64() {
                Json::Num(JNum::NegInt(i))
            } else {
                Json::Num(JNum::Float(n.to_string()))
            }
        },
        serde_json::Value::String(s) => Json::Str(s.clone()),
        serde_json::Value::Array(a) => Json::Arr(a.iter().map(to_json).collect()),
        serde_json::Value::Object(m) => Json::Obj(m.iter().map(|(k, v)| (k.clone(), to_json(v))).collect()),
    }
}

fn args(text: &str) -> Json {
    to_json(&serde_json::from_str(text).unwrap())
}

fn refusal(r: Result<Command, (String, String)>) -> (String, String) {
    match r {
        Ok(c) => panic!("expected a refusal, got {c:?}"),
        Err(e) => e,
    }
}

#[test]
fn write_tools_refuse_missing_arguments() {
    let p = sample_project();
    let cases = [
        ("clip_update", "缺 clipId"),
        ("clip_split", "缺 clipId/tMs"),
        ("clip_delete", "缺 clipId"),
        ("clip_move", "缺 clipId/startMs"),
        ("clip_duplicate", "缺 clipId/startMs"),
        ("subtitle_set", "缺 clipId"),
        ("subtitle_retime", "缺 clipId"),
        ("overlay_add", "缺 trackId/element.src/atMs/durationMs"),
        ("sfx_add", "缺 tMs/src"),
    ];
    for (name, msg) in cases {
        let (code, m) = refusal(write_command(name, &args("{}"), &p));
        assert_eq!(code, "PRECONDITION_FAILED", "{name}");
        assert_eq!(m, msg, "{name}");
    }
    let (code, m) = refusal(write_command("cut_magic", &args("{}"), &p));
    assert_eq!((code.as_str(), m.as_str()), ("INTERNAL", "工具已注册但未实现: cut_magic"));
}

#[test]
fn clip_update_reads_the_patch() {
    let p = sample_project();
    let r = write_command(
        "clip_update",
        &args(r#"{"clipId":"V1-001","patch":{"startMs":100,"volume":0.5,"text":"hi","speed":"fast"}}"#),
        &p,
    );
    match r {
        Ok(Command::ClipUpdate { clip_id, patch }) => {
            assert_eq!(clip_id, "V1-001");
            assert_eq!(patch.start_ms, Some(100));
            assert!(matches!(patch.volume, Some(JNum::Float(ref s)) if s == "0.5"));
            assert_eq!(patch.text.as_deref(), Some("hi"));
            assert!(patch.speed.is_none(), "a string is no speed");
            assert!(patch.duration_ms.is_none());
        },
        other => panic!("{other:?}"),
    }
    // no patch object: an empty patch
    match write_command("clip_update", &args(r#"{"clipId":"V1-001"}"#), &p) {
        Ok(Command::ClipUpdate { patch, .. }) => assert!(patch.start_ms.is_none() && patch.text.is_none()),
        other => panic!("{other:?}"),
    }
}

#[test]
fn split_move_delete_commands() {
    let p = sample_project();
    assert!(matches!(
        write_command("clip_split", &args(r#"{"clipId":"V1-001","tMs":4000}"#), &p),
        Ok(Command::ClipSplit { ref clip_id, t_ms: 4000 }) if clip_id == "V1-001"
    ));
    assert!(matches!(
        write_command("clip_move", &args(r#"{"clipId":"V1-002","startMs":9000,"toTrack":"V2"}"#), &p),
        Ok(Command::ClipMove { ref clip_id, new_start_ms: 9000, to_track: Some(ref t) }) if clip_id == "V1-002" && t == "V2"
    ));
    assert!(matches!(
        write_command("clip_delete", &args(r#"{"clipId":"A1-001"}"#), &p),
        Ok(Command::ClipDelete { ref clip_id }) if clip_id == "A1-001"
    ));
    match write_command("subtitle_retime", &args(r#"{"clipId":"V1-001","startMs":5,"durationMs":6}"#), &p) {
        Ok(Command::ClipUpdate { patch, .. }) => {
            assert_eq!((patch.start_ms, patch.duration_ms), (Some(5), Some(6)));
            assert!(patch.text.is_none());
        },
        other => panic!("{other:?}"),
    }
}

#[test]
fn duplicate_copies_with_a_new_id() {
    let p = sample_project();
    match write_command("clip_duplicate", &args(r#"{"clipId":"V1-001","startMs":20000,"requestId":"d-1"}"#), &p) {
        Ok(Command::ClipInsert { to_track, clip, request_id }) => {
            assert_eq!(to_track, "V1");
            assert_eq!(clip.id, "V1-003");
            assert_eq!(clip.start_ms, 20000);
            assert_eq!(clip.duration_ms, 8400);
            assert_eq!(clip.source_in_ms, Some(12000));
            assert_eq!(request_id.as_deref(), Some("d-1"));
        },
        other => panic!("{other:?}"),
    }
    let (code, m) = refusal(write_command("clip_duplicate", &args(r#"{"clipId":"X-1","startMs":0}"#), &p));
    assert_eq!((code.as_str(), m.as_str()), ("PRECONDITION_FAILED", "clip 不存在: X-1"));
    let (code, m) = refusal(write_command("clip_duplicate", &args(r#"{"clipId":"V1-001","startMs":0,"toTrack":"V9"}"#), &p));
    assert_eq!((code.as_str(), m.as_str()), ("PRECONDITION_FAILED", "track 不存在: V9"));
    let (code, m) = refusal(write_command("clip_duplicate", &args(r#"{"clipId":"V1-001","startMs":0,"toTrack":"A1"}"#), &p));
    assert_eq!((code.as_str(), m.as_str()), ("GUARD_FAILED", "跨 kind 复制拒绝"));
}

#[test]
fn sfx_add_guards_density_and_picks_the_audio_track() {
    let p = sample_project();
    match write_command("sfx_add", &args(r#"{"tMs":30000,"src":"pop.wav"}"#), &p) {
        Ok(Command::ClipInsert { to_track, clip, .. }) => {
            assert_eq!(to_track, "A1");
            assert_eq!(clip.id, "A1-002");
            assert_eq!(clip.duration_ms, 400);
            assert_eq!(clip.role, Some(Role::Sfx));
            assert!(matches!(clip.volume, Some(JNum::Float(ref s)) if s == "0.8"));
        },
        other => panic!("{other:?}"),
    }
    // one sound effect nearby is allowed; build a second one and the guard trips
    let mut p2 = sample_project();
    if let Ok(Command::ClipInsert { clip, .. }) = write_command("sfx_add", &args(r#"{"tMs":9000,"src":"b.wav"}"#), &p2) {
        p2.tracks[1].clips.push(clip);
    } else {
        panic!("the first extra sound effect must pass");
    }
    let (code, m) = refusal(write_command("sfx_add", &args(r#"{"tMs":9000,"src":"c.wav"}"#), &p2));
    assert_eq!(code, "GUARD_FAILED");
    assert_eq!(m, "音效密度超限:9000ms ±15s 内已有 2 个");
}

#[test]
fn overlay_add_builds_a_silent_clip() {
    let p = sample_project();
    let a = args(r#"{"trackId":"V1","element":{"src":"logo.png","atMs":100,"durationMs":2000,"overlay":{"x":1,"y":2,"w":3,"h":4}}}"#);
    match write_command("overlay_add", &a, &p) {
        Ok(Command::ClipInsert { to_track, clip, request_id }) => {
            assert_eq!(to_track, "V1");
            assert_eq!(clip.id, "V1-003");
            assert!(matches!(clip.volume, Some(JNum::PosInt(0))));
            assert!(matches!(clip.overlay, Some(Json::Obj(ref f)) if f.len() == 4));
            assert!(request_id.is_none());
        },
        other => panic!("{other:?}"),
    }
    let bad = args(r#"{"trackId":"V1","element":{"src":"logo.png","atMs":100,"durationMs":2000,"overlay":7}}"#);
    let (code, _) = refusal(write_command("overlay_add", &bad, &p));
    assert_eq!(code, "SCHEMA_INVALID");
}

#[test]
fn routes_by_tool() {
    assert!(matches!(route_tool("nope", &args("{}"), false),
        ToolRoute::Refuse { ref code, ref message } if code == "INTERNAL" && message == "未知工具: nope"));
    assert!(matches!(route_tool("capability_matrix", &args("{}"), true), ToolRoute::Capability));
    assert!(matches!(route_tool("project_get", &args("{}"), true),
        ToolRoute::Refuse { ref code, ref message } if code == "PRECONDITION_FAILED" && message == "缺 root(工程目录)"));
    assert!(matches!(route_tool("project_get", &args(r#"{"root":"/p"}"#), true),
        ToolRoute::Workspace { ref root, readonly: true } if root == "/p"));
    assert!(matches!(route_tool("clip_update", &args(r#"{"root":"/p"}"#), true),
        ToolRoute::Workspace { readonly: false, .. }));
    assert!(matches!(route_tool("render", &args(r#"{"root":"/p","backend":"cutforge","ass":"s.ass"}"#), true),
        ToolRoute::RenderLocal { ass: Some(ref a), .. } if a == "s.ass"));
    assert!(matches!(route_tool("render", &args(r#"{"root":"/p"}"#), true), ToolRoute::Workspace { readonly: false, .. }));
    assert!(matches!(route_tool("render_progress", &args(r#"{"root":"/p"}"#), true),
        ToolRoute::Refuse { ref message, .. } if message == "缺 runId"));
    assert!(matches!(route_tool("media_probe", &args(r#"{"root":"/p"}"#), true), ToolRoute::Standalone { .. }));
}

#[test]
fn reads_options_and_filters() {
    let a = args(r#"{"requestId":"r1","summary":"s","causedBy":["op-1",2,"op-3"],"expectRev":4,"batch":3,"actor":"script","limit":2,"state":"resolved","author":"agent"}"#);
    let o = apply_opts_from(&a);
    assert_eq!(o.request_id.as_deref(), Some("r1"));
    assert_eq!(o.summary.as_deref(), Some("s"));
    assert_eq!(o.caused_by, vec!["op-1".to_string(), "op-3".to_string()]);
    assert_eq!(o.expect_rev, Some(4));
    assert!(o.op_id.is_none() && !o.non_undoable);
    assert_eq!(batch_of(&a), 3);
    assert_eq!(batch_of(&args("{}")), 1);
    assert_eq!(actor_filter(&a), Some(ActorKind::Script));
    assert_eq!(actor_filter(&args(r#"{"actor":"bot"}"#)), Some(ActorKind::Agent));
    assert_eq!(actor_filter(&args("{}")), None);
    assert_eq!(limit_of(&a), 2);
    assert_eq!(limit_of(&args("{}")), 50);
    assert_eq!(notes_filter(&a), (Some(NoteState::Resolved), Some(NoteAuthor::Agent)));
    assert_eq!(notes_filter(&args(r#"{"state":"weird","author":"x"}"#)), (None, Some(NoteAuthor::User)));
    assert_eq!(arg_strs(&args(r#"{"t":"x"}"#), "t"), Vec::<String>::new());
    assert_eq!(script_for("verify_run"), Some("rs_verify.py"));
    assert_eq!(script_for("clip_update"), None);
    assert_eq!(keep_last(vec![1, 2, 3, 4], 2), vec![3, 4]);
    assert_eq!(keep_last(vec![1, 2], 5), vec![1, 2]);
}

#[test]
fn notes_calls() {
    match notes_call("notes_add", &args(r#"{"anchor":{"kind":"time","tMs":1500},"body":"b","author":"agent","tags":["t"]}"#)) {
        Ok(NotesCall::Add { anchor, body, author, tags, request_id }) => {
            assert_eq!(anchor.kind, AnchorKind::Time);
            assert_eq!(anchor.t_ms, 1500);
            assert!(anchor.ref_.is_none());
            assert_eq!(body, "b");
            assert_eq!(author, NoteAuthor::Agent);
            assert_eq!(tags, vec!["t".to_string()]);
            assert!(request_id.is_none());
        },
        _ => panic!("notes_add must parse"),
    }
    match notes_call("notes_add", &args(r#"{"anchor":{"ref":"V1-001"},"body":"b"}"#)) {
        Ok(NotesCall::Add { anchor, author, .. }) => {
            assert_eq!(anchor.kind, AnchorKind::Clip);
            assert_eq!(anchor.ref_.as_deref(), Some("V1-001"));
            assert_eq!(anchor.t_ms, 0);
            assert_eq!(author, NoteAuthor::User);
        },
        _ => panic!("notes_add must parse"),
    }
    match notes_call("notes_add", &args(r#"{"anchor":"V1-001","body":"b"}"#)) {
        Err((c, m)) => assert_eq!((c.as_str(), m.as_str()), ("PRECONDITION_FAILED", "缺 anchor/body")),
        _ => panic!("an anchor must be an object"),
    }
    match notes_call("notes_resolve", &args(r#"{"noteId":"n-1","reply":"ok","opIds":["op-2"]}"#)) {
        Ok(NotesCall::Resolve { note_id, reply, op_ids }) => {
            assert_eq!((note_id.as_str(), reply.as_str()), ("n-1", "ok"));
            assert_eq!(op_ids, vec!["op-2".to_string()]);
        },
        _ => panic!("notes_resolve must parse"),
    }
    match notes_call("notes_reject", &args(r#"{"noteId":"n-1"}"#)) {
        Err((c, m)) => assert_eq!((c.as_str(), m.as_str()), ("PRECONDITION_FAILED", "缺 noteId/reason")),
        _ => panic!("a reason is required"),
    }
}

#[test]
fn project_new_settings() {
    let r = new_project_request(&args("{}"), Some("剪辑台")).ok().unwrap();
    assert_eq!(r.slug, "剪辑台");
    assert_eq!((r.fps, r.width, r.height), (30, 1080, 1920));
    assert_eq!(r.kinds, vec![TrackKind::Video, TrackKind::Audio]);
    let r = new_project_request(&args(r#"{"slug":"s","fps":25,"canvasW":1920,"canvasH":1080,"tracks":["text"]}"#), None)
        .ok()
        .unwrap();
    assert_eq!((r.slug.as_str(), r.fps, r.width, r.height), ("s", 25, 1920, 1080));
    assert_eq!(r.kinds, vec![TrackKind::Text]);
    assert_eq!(new_project_request(&args("{}"), None).ok().unwrap().slug, "cutforge-project");
    match new_project_request(&args(r#"{"tracks":["video","drums",3]}"#), None) {
        Err((c, m)) => {
            assert_eq!(c, "PRECONDITION_FAILED");
            assert_eq!(m, "未知轨道类型: Some(\"drums\")(允许 video/audio/text)");
        },
        Ok(_) => panic!("an unknown kind must be refused"),
    }
    match new_project_request(&args(r#"{"tracks":[3]}"#), None) {
        Err((_, m)) => assert_eq!(m, "未知轨道类型: None(允许 video/audio/text)"),
        Ok(_) => panic!("a number names no kind"),
    }
}

#[test]
fn clip_add_parts() {
    let p = sample_project();
    let (code, m) = clip_add_target(&args(r#"{"trackId":"V9","src":"a.mp4","startMs":0}"#), &p).unwrap_err();
    assert_eq!((code.as_str(), m.as_str()), ("PRECONDITION_FAILED", "track 不存在: V9"));
    let (_, m) = clip_add_target(&args(r#"{"trackId":"V1"}"#), &p).unwrap_err();
    assert_eq!(m, "缺 trackId/src/startMs");
    let a = args(r#"{"trackId":"V1","src":"01_materials/take1.mp4","startMs":999000,"durationMs":1500,"volume":0.5,"requestId":"add-1"}"#);
    let (tid, src, start) = clip_add_target(&a, &p).unwrap();
    match clip_add_command(&a, &p, tid, src, start, 1500) {
        Command::ClipInsert { to_track, clip, request_id } => {
            assert_eq!(to_track, "V1");
            assert_eq!(clip.id, "V1-003");
            assert_eq!(clip.source_in_ms, Some(0));
            assert_eq!((clip.start_ms, clip.duration_ms), (999000, 1500));
            assert!(matches!(clip.volume, Some(JNum::Float(ref s)) if s == "0.5"));
            assert_eq!(request_id.as_deref(), Some("add-1"));
        },
        other => panic!("{other:?}"),
    }
    assert_eq!(probed_duration(10_000, 2_500), 7_500);
    assert_eq!(probed_duration(1_000, 2_500), 1);
    assert_eq!(probed_duration(2_501, 2_500), 1);
}

#[test]
fn receipt_and_timeline_answers() {
    let rec = OpReceipt { op_ids: vec!["op-1".to_string(), "op-2".to_string()], rev: 7, idempotent: false };
    assert_eq!(
        json_to_text(&receipt_envelope(&rec)),
        r#"{"code":"OK","data":{"idempotent":false,"opIds":["op-1","op-2"],"rev":7},"message":"已应用","ok":true}"#
    );
    let rows = timeline_projection(&sample_project());
    assert_eq!(rows.len(), 3);
    let first = json_to_text(&rows[0]);
    assert!(first.contains(r#""endMs":8400"#), "{first}");
    assert!(first.contains(r#""track":"V1","trackKind":"video""#), "{first}");
    assert!(first.contains(r#""role":"voice""#), "{first}");
    assert!(json_to_text(&rows[2]).contains(r#""endMs":8800"#));
}

#[test]
fn guarded_write_passes_through_while_tracks_have_room() {
    let p = sample_project();
    assert!(has_id_room(&p));
    let (code, m) = refusal(guarded_write_command("cut_magic", &args("{}"), &p));
    assert_eq!((code.as_str(), m.as_str()), ("INTERNAL", "工具已注册但未实现: cut_magic"));
    let (code, m) = refusal(guarded_write_command("clip_update", &args("{}"), &p));
    assert_eq!((code.as_str(), m.as_str()), ("PRECONDITION_FAILED", "缺 clipId"));
}

#[test]
fn timeline_checked_refuses_an_overflowing_end() {
    let p = sample_project();
    let rows = timeline_checked(&p).expect("the sample's clip ends fit");
    let plain = timeline_projection(&p);
    assert_eq!(rows.len(), plain.len());
    for (a, b) in rows.iter().zip(plain.iter()) {
        assert_eq!(json_to_text(a), json_to_text(b));
    }
    let mut q = sample_project();
    q.tracks[0].clips[0].start_ms = u64::MAX - 1;
    q.tracks[0].clips[0].duration_ms = 5;
    assert!(timeline_checked(&q).is_none());
}
