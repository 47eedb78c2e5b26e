use cutforge::anchor::{Anchor, AnchorKind};
use cutforge::codec::project_from;
use cutforge::format_op_id;
use cutforge::json::{json_to_text, JNum, Json};
use cutforge::migrate::migrate_project_v1_to_v2;
use cutforge::model::{Backend, Project, TrackKind};
use cutforge::notes::{NoteAuthor, NoteReject, NoteState, NotesStore};
use cutforge::oplog::{Actor, ActorKind, Op, OpKind, OpLog, OpTarget};
use cutforge::state::sample_project;
use cutforge::timeutil::{format_unix_ms, now_date_compact, now_datetime_compact, now_rfc3339};

fn to_json(v: &serde_json::Value) -> Json {
    match v {
        serde_json::Value::Null => Json::Null,
        serde_json::Value::Bool(b) => Json::Bool(*b),
        serde_json::Value::Number(n) => {
            if let Some(u) = n.as_u64() {
                Json::Num(JNum::PosInt(u))
            } else if let Some(i) = n.as_i64() {
                Json::Num(JNum::NegInt(i))
            } else {
                Json::Num(JNum::Float(n.to_string()))
            }
        },
        serde_json::Value::String(s) => Json::Str(s.clone()),
        serde_json::Value::Array(a) => Json::Arr(a.iter().map(to_json).collect()),
        serde_json::Value::Object(m) => Json::Obj(m.iter().map(|(k, v)| (k.clone(), to_json(v))).collect()),
    }
}

fn j(text: &str) -> Json {
    to_json(&serde_json::from_str(text).unwrap())
}

fn clip_anchor(id: &str, t: u64) -> Anchor {
    Anchor { kind: AnchorKind::Clip, ref_: Some(id.into()), t_ms: t, span: None }
}

#[test]
fn add_resolve_reject_lifecycle() {
    let mut store = NotesStore::new();
    let n1 = store.add(clip_anchor("V1-001", 4000), "这里语速太快".into(), NoteAuthor::User, vec!["节奏".into()]);
    assert_eq!(n1.id, "n-0001");
    assert_eq!(n1.state, NoteState::Open);
    let n2 = store.add(clip_anchor("V1-002", 9000), "要不要删 300ms?".into(), NoteAuthor::Agent, vec![]);
    assert_eq!(n2.id, "n-0002");

    store.resolve("n-0001", "已删 320ms 并重烧字幕".into(), vec!["op-1".into()]).unwrap();
    let r = store.find("n-0001").unwrap();
    assert_eq!(r.state, NoteState::Resolved);
    assert_eq!(r.resolved_by.as_ref().unwrap().op_ids, vec!["op-1".to_string()]);
    assert!(store.resolve("n-0001", "已删 320ms 并重烧字幕".into(), vec!["op-1".into()]).is_ok());
    assert!(matches!(
        store.resolve("n-0001", "改口".into(), vec!["op-2".into()]),
        Err(NoteReject::AlreadyResolved(_))
    ));
    assert!(store.resolve("n-0002", "  ".into(), vec!["op-1".into()]).is_err());
    assert!(store.resolve("n-0002", "好".into(), vec![]).is_err());
    store.reject("n-0002", "先不动".into()).unwrap();
    assert_eq!(store.find("n-0002").unwrap().state, NoteState::Rejected);
    assert!(matches!(
        store.resolve("n-9999", "x".into(), vec!["op-1".into()]),
        Err(NoteReject::UnknownNote(_))
    ));
}

#[test]
fn relocate_all_classifies_and_never_drops() {
    let mut store = NotesStore::new();
    store.add(clip_anchor("V1-002", 9000), "会跟随".into(), NoteAuthor::User, vec![]);
    store.add(clip_anchor("V1-002", 8600), "会重挂".into(), NoteAuthor::User, vec![]);
    store.add(clip_anchor("V1-002", 20000), "会孤儿".into(), NoteAuthor::User, vec![]);
    store.add(clip_anchor("V1-002", 3000), "已结案不迁移".into(), NoteAuthor::User, vec![]);
    store.resolve("n-0004", "done".into(), vec!["op-9".into()]).unwrap();

    let mut p = sample_project();
    p.tracks[0].clips.remove(1);
    let (moved, orphaned) = store.relocate_all(&p, 500);
    assert_eq!(moved, 2);
    assert_eq!(orphaned, 1);
    assert_eq!(store.notes().len(), 4, "no note is dropped");
    assert_eq!(store.orphans().len(), 1);
    assert!(store.orphans()[0].orphan_reason.as_deref().unwrap().contains("V1-002"));
    let resolved = store.find("n-0004").unwrap();
    assert_eq!(resolved.state, NoteState::Resolved);
    assert!(resolved.relocated.is_none());
}

#[test]
fn note_mut_edits_in_place() {
    let mut store = NotesStore::new();
    store.add(clip_anchor("V1-001", 4000), "正文".into(), NoteAuthor::User, vec![]);
    store.note_mut("n-0001").unwrap().body = "改过".into();
    assert_eq!(store.find("n-0001").unwrap().body, "改过");
    assert!(store.note_mut("n-0404").is_none());
}

fn mk(id: &str, rev: u64, kind: ActorKind) -> Op {
    Op {
        op_id: id.into(),
        ts: String::new(),
        actor: Actor { kind, id: "t".into() },
        target: OpTarget { file: "project.json".into(), path: "/slug".into() },
        op_kind: OpKind::SetValue,
        before: Json::Str("旧".into()),
        after: Json::Str("新".into()),
        base_rev: format!("rev-{rev}"),
        rev: Some(rev + 1),
        caused_by: None,
        summary: "测试".into(),
        request_id: None,
        auto: None,
    }
}

#[test]
fn push_dedups_op_id() {
    let mut log = OpLog::new();
    assert!(log.push(mk("op-1", 0, ActorKind::User)));
    assert!(!log.push(mk("op-1", 0, ActorKind::User)), "the same op id twice has no effect");
    assert_eq!(log.len(), 1);
}

#[test]
fn request_id_and_tail_filters() {
    let mut log = OpLog::new();
    let mut op = mk(&format_op_id(log.next_op_id().parse::<u64>().unwrap_or(0)), 0, ActorKind::Agent);
    op.op_id = "op-0".into();
    op.request_id = Some("req-1".into());
    assert!(log.push(op));
    assert!(log.has_request_id("req-1"));
    assert!(!log.has_request_id("req-2"));
    let mut op2 = mk("op-1", 1, ActorKind::User);
    op2.rev = Some(2);
    assert!(log.push(op2));
    assert_eq!(log.tail(Some(1), None).len(), 1);
    assert_eq!(log.tail(None, None).len(), 2);
    assert_eq!(log.tail(Some(1), Some(ActorKind::User)).len(), 1);
    assert_eq!(log.tail(Some(1), Some(ActorKind::Agent)).len(), 0);
    assert_eq!(log.last_rev(), Some(2));
}

#[test]
fn formats_known_epoch() {
    assert_eq!(format_unix_ms(0), "1970-01-01T00:00:00.000Z");
    assert_eq!(format_unix_ms(1_789_603_200_000), "2026-09-17T00:00:00.000Z");
    assert_eq!(format_unix_ms(1_789_603_200_123), "2026-09-17T00:00:00.123Z");
}

#[test]
fn leap_day() {
    assert_eq!(format_unix_ms(1_709_208_000_000), "2024-02-29T12:00:00.000Z");
}

#[test]
fn compact_variants() {
    assert_eq!(
        {
            let s = format_unix_ms(1_789_603_200_123);
            s[..10].replace('-', "") + "-" + &s[11..19].replace(':', "")
        },
        "20260917-000000"
    );
    let d = now_date_compact();
    assert_eq!(d.len(), 8);
    let dt = now_datetime_compact();
    assert_eq!(dt.len(), 15, "YYYYMMDD-HHMMSS");
}

#[test]
fn now_is_parseable_shape() {
    let s = now_rfc3339();
    assert!(s.ends_with('Z') && s.len() == 24, "got: {s}");
}

fn sample_doc() -> &'static str {
    r#"{
        "version": 1, "schemaVersion": "2.0.0",
        "slug": "测试工程", "fps": 30,
        "canvas": {"width": 1080, "height": 1920},
        "backends": ["ffmpeg", "cutforge"],
        "tracks": [
            {"id": "V1", "kind": "video", "clips": [
                {"id": "V1-001", "src": "a.mp4", "startMs": 0, "durationMs": 8400,
                 "sourceInMs": 12000, "role": "voice"},
                {"id": "V1-002", "src": "a.mp4", "startMs": 8400, "durationMs": 6200,
                 "transition": {"type": "fade", "durMs": 300, "reason": "topic"}}
            ]},
            {"id": "A1", "kind": "audio", "clips": [
                {"id": "A1-001", "src": "sfx.mp3", "startMs": 8400, "durationMs": 400,
                 "role": "sfx", "volume": 0.8}
            ]}
        ]
    }"#
}

fn sample() -> Project {
    project_from(&j(sample_doc())).unwrap()
}

#[test]
fn parse_and_validate_sample() {
    let p = sample();
    assert_eq!(p.tracks.len(), 2);
    assert_eq!(p.find_clip("V1-002"), Some((0, 1)));
    assert_eq!(p.find_clip("不存在"), None);
    assert_eq!(p.find_track("A1"), Some(1));
}

#[test]
fn migrate_v1_sample() {
    let mut v: serde_json::Value = serde_json::from_str(sample_doc()).unwrap();
    v.as_object_mut().unwrap().remove("schemaVersion");
    v.as_object_mut().unwrap().remove("backends");
    v["tracks"][0].as_object_mut().unwrap().remove("id");
    v["tracks"][0]["clips"][0].as_object_mut().unwrap().remove("id");
    let migrated = migrate_project_v1_to_v2(&to_json(&v));
    let p = project_from(&migrated).expect("the upgraded document reads back");
    assert_eq!(p.schema_version, "2.0.0");
    assert_eq!(p.tracks[0].id, "V1");
    assert_eq!(p.tracks[0].clips[0].id, "V1-001");
    assert!(matches!(p.backends.as_slice(), [Backend::Ffmpeg]));
}

#[test]
fn upgrade_twice_equals_upgrade_once() {
    let mut v: serde_json::Value = serde_json::from_str(sample_doc()).unwrap();
    v.as_object_mut().unwrap().remove("schemaVersion");
    v.as_object_mut().unwrap().remove("notes");
    v["tracks"][1].as_object_mut().unwrap().remove("id");
    v["tracks"][1]["clips"][0].as_object_mut().unwrap().remove("id");
    let once = migrate_project_v1_to_v2(&to_json(&v));
    let twice = migrate_project_v1_to_v2(&once);
    assert_eq!(json_to_text(&once), json_to_text(&twice), "upgrading twice equals upgrading once");
    let p = project_from(&once).unwrap();
    assert_eq!(p.tracks[1].id, "A2", "a generated track id is the kind letter and the 1-based position");
    assert_eq!(p.tracks[1].clips[0].id, "A2-001");
    assert_eq!(p.notes, "notes.json");
}

#[test]
fn overlap_detection() {
    let p = sample();
    assert!(Project::overlaps(&p.tracks[0]).is_empty());
    let mut t = p.tracks[0].duplicate();
    t.clips[1].start_ms = 100;
    let ov = Project::overlaps(&t);
    assert_eq!(ov, vec![("V1-001".to_string(), "V1-002".to_string())]);
}

#[test]
fn id_generation() {
    let p = sample();
    assert_eq!(Project::next_clip_id(&p.tracks[0]), "V1-003");
    assert_eq!(p.next_track_id(TrackKind::Video), "V2");
    assert_eq!(p.next_track_id(TrackKind::Text), "T1");
}

#[test]
fn pruning_keeps_the_newest_snapshots() {
    let names: Vec<String> = ["3.json", "x.txt", "10.json", "1.json", "7.json", "3.json"].iter().map(|s| s.to_string()).collect();
    // keep 2: 10 and 7 stay; 3, 1 and the first 3 go
    assert_eq!(cutforge::sync::bases_to_prune(&names, 2), vec![0, 3, 5]);
    assert_eq!(cutforge::sync::bases_to_prune(&names, 3), vec![0, 3], "of two equal revisions the later one stays");
    assert_eq!(cutforge::sync::bases_to_prune(&names, 10), Vec::<usize>::new());
    assert_eq!(cutforge::sync::bases_to_prune(&names, 0), vec![0, 2, 3, 4, 5]);
}

#[test]
fn next_note_id_is_numbered_above_every_existing_one() {
    let mut first = NotesStore::new();
    first.add(clip_anchor("V1-001", 4000), "一".into(), NoteAuthor::User, vec![]);
    let second = first.add(clip_anchor("V1-002", 9000), "二".into(), NoteAuthor::User, vec![]);
    assert_eq!(second.id, "n-0002");
    let mut store = NotesStore::from_notes(vec![second]);
    assert!(store.ids_fit());
    assert_eq!(store.next_id(), "n-0003");
    let third = store.add(clip_anchor("V1-001", 100), "三".into(), NoteAuthor::Agent, vec![]);
    assert_eq!(third.id, "n-0003");
}

#[test]
fn rfc3339_text_keeps_its_shape_up_to_year_9999() {
    assert_eq!(format_unix_ms(253402300799999), "9999-12-31T23:59:59.999Z");
    let t = format_unix_ms(951782400123);
    assert_eq!(t, "2000-02-29T00:00:00.123Z");
    assert_eq!(t.chars().count(), 24);
}

#[test]
fn relocating_a_store_twice_does_nothing_more() {
    let mut p = sample_project();
    p.tracks[0].clips[1].start_ms += 700;
    let mut store = NotesStore::new();
    store.add(clip_anchor("V1-002", 9000), "近邻".into(), NoteAuthor::User, vec![]);
    store.add(clip_anchor("V1-002", 20000), "越界".into(), NoteAuthor::User, vec![]);
    store.add(clip_anchor("GONE", 90000), "孤立".into(), NoteAuthor::User, vec![]);
    let first = store.relocate_all(&p, 500);
    assert_eq!(first, (2, 1));
    let ids: Vec<String> = store.notes().iter().map(|n| n.id.clone()).collect();
    let anchors: Vec<u64> = store.notes().iter().map(|n| n.anchor.t_ms).collect();
    assert_eq!(store.relocate_all(&p, 500), (0, 0));
    assert_eq!(store.notes().iter().map(|n| n.id.clone()).collect::<Vec<_>>(), ids);
    assert_eq!(store.notes().iter().map(|n| n.anchor.t_ms).collect::<Vec<_>>(), anchors);
}

#[test]
fn filtering_with_nothing_keeps_every_note_and_orphans_match_the_panel() {
    let p = sample_project();
    let mut store = NotesStore::new();
    store.add(clip_anchor("V1-001", 100), "一".into(), NoteAuthor::User, vec![]);
    store.add(clip_anchor("GONE", 90000), "二".into(), NoteAuthor::Agent, vec![]);
    store.relocate_all(&p, 500);
    assert_eq!(store.filter(None, None).len(), 2);
    let orphans: Vec<String> = store.orphans().iter().map(|n| n.id.clone()).collect();
    let filtered: Vec<String> = store.filter(Some(NoteState::Orphan), None).iter().map(|n| n.id.clone()).collect();
    assert_eq!(orphans, vec!["n-0002".to_string()]);
    assert_eq!(filtered, orphans);
}
