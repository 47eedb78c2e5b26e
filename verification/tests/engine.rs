use cutforge::anchor::{relocate, resolve, Anchor, AnchorKind, AnchorState, DEFAULT_NEAREST_MS};
use cutforge::command::{ClipPatch, Command};
use cutforge::engine::{Answer, ApplyOpts, Engine, Query, Reject};
use cutforge::json::{JNum, Json};
use cutforge::model::Clip;
use cutforge::oplog::{Actor, ActorKind, OpKind};
use cutforge::state::{patch, sample_project};

fn agent() -> Actor {
    Actor::agent("test")
}

fn member<'a>(j: &'a Json, k: &str) -> Option<&'a Json> {
    match j {
        Json::Obj(fs) => fs.iter().find(|(kk, _)| kk == k).map(|(_, v)| v),
        _ => None,
    }
}

fn num_u(j: Option<&Json>) -> Option<u64> {
    match j {
        Some(Json::Num(JNum::PosInt(n))) => Some(*n),
        _ => None,
    }
}

fn clip_duration(eng: &Engine, id: &str) -> Option<u64> {
    match eng.query(Query::Clip { id: id.to_string() }) {
        Answer::Clip(Some(c)) => num_u(member(&c, "durationMs")),
        other => panic!("unexpected: {other:?}"),
    }
}

fn copy_of(c: &Clip) -> Clip {
    c.duplicate()
}

#[test]
fn apply_update_sets_rev_and_op() {
    let mut eng = Engine::new(sample_project()).unwrap();
    let r = eng
        .apply(Command::ClipUpdate { clip_id: "V1-001".into(), patch: patch(8000) }, agent(), ApplyOpts::default())
        .unwrap();
    assert_eq!(r.rev, 1);
    assert_eq!(eng.rev(), 1);
    assert_eq!(clip_duration(&eng, "V1-001"), Some(8000));
    assert_eq!(eng.oplog().len(), 1);
    let op = &eng.oplog().ops()[0];
    assert_eq!(op.base_rev, "rev-0");
    assert_eq!(op.op_kind, OpKind::SetValue);
    assert_eq!(op.actor.kind, ActorKind::Agent);
}

#[test]
fn update_overlap_rejected_and_rolled_back() {
    let mut eng = Engine::new(sample_project()).unwrap();
    let before = format!("{:?}", eng.query(Query::Clip { id: "V1-001".into() }));
    let r = eng.apply(
        Command::ClipUpdate {
            clip_id: "V1-001".into(),
            patch: ClipPatch { start_ms: Some(9000), duration_ms: Some(2000), ..Default::default() },
        },
        agent(),
        ApplyOpts::default(),
    );
    assert!(matches!(r, Err(Reject::InvariantViolation(_))));
    assert_eq!(format!("{:?}", eng.query(Query::Clip { id: "V1-001".into() })), before, "a refused write changes nothing");
    assert_eq!(eng.oplog().len(), 0);
    assert_eq!(eng.rev(), 0);
}

#[test]
fn empty_patch_rejected() {
    let mut eng = Engine::new(sample_project()).unwrap();
    let r = eng.apply(
        Command::ClipUpdate { clip_id: "V1-001".into(), patch: ClipPatch::default() },
        agent(),
        ApplyOpts::default(),
    );
    assert!(matches!(r, Err(Reject::EmptyPatch(_))));
}

#[test]
fn precondition_and_unknown_targets() {
    let mut eng = Engine::new(sample_project()).unwrap();
    let r = eng.apply(
        Command::ClipDelete { clip_id: "V1-001".into() },
        agent(),
        ApplyOpts { expect_rev: Some(5), ..Default::default() },
    );
    assert!(matches!(r, Err(Reject::PreconditionFailed { expected: 5, actual: 0 })));
    let r = eng.apply(Command::ClipDelete { clip_id: "不存在".into() }, agent(), ApplyOpts::default());
    assert!(matches!(r, Err(Reject::UnknownClip(_))));
    let r = eng.apply(
        Command::ClipInsert {
            to_track: "T9".into(),
            clip: copy_of(&sample_project().tracks[0].clips[0]),
            request_id: None,
        },
        agent(),
        ApplyOpts::default(),
    );
    assert!(matches!(r, Err(Reject::UnknownTrack(_))));
}

#[test]
fn split_merge_and_idempotent_split() {
    let mut eng = Engine::new(sample_project()).unwrap();
    let r = eng
        .apply(Command::ClipSplit { clip_id: "V1-001".into(), t_ms: 4000 }, agent(), ApplyOpts::default())
        .unwrap();
    assert_eq!(r.rev, 1);
    match eng.query(Query::Timeline) {
        Answer::Timeline(tl) => {
            assert_eq!(tl.len(), 4);
            assert!(tl.iter().any(|(id, s, e, _)| id == "V1-003" && *s == 4000 && *e == 8400));
        },
        other => panic!("unexpected: {other:?}"),
    }
    let r2 = eng
        .apply(Command::ClipSplit { clip_id: "V1-001".into(), t_ms: 4000 }, agent(), ApplyOpts::default())
        .unwrap();
    assert_eq!(r2.rev, 1, "splitting at an existing boundary does not raise the revision");
    let r3 = eng
        .apply(
            Command::ClipMerge { left_id: "V1-001".into(), right_id: "V1-003".into() },
            agent(),
            ApplyOpts::default(),
        )
        .unwrap();
    assert_eq!(r3.rev, 2);
    assert_eq!(clip_duration(&eng, "V1-001"), Some(8400));
    let _ = eng
        .apply(Command::ClipSplit { clip_id: "V1-001".into(), t_ms: 4000 }, agent(), ApplyOpts::default())
        .unwrap();
    let r4 = eng.apply(
        Command::ClipMerge { left_id: "V1-001".into(), right_id: "V1-002".into() },
        agent(),
        ApplyOpts::default(),
    );
    assert!(matches!(r4, Err(Reject::NotAdjacent { .. })));
    let r5 = eng.apply(Command::ClipSplit { clip_id: "V1-001".into(), t_ms: 5000 }, agent(), ApplyOpts::default());
    assert!(matches!(r5, Err(Reject::SplitOutside { .. })));
}

#[test]
fn delete_insert_move_and_request_id_dedup() {
    let mut eng = Engine::new(sample_project()).unwrap();
    let r = eng.apply(Command::ClipDelete { clip_id: "A1-001".into() }, agent(), ApplyOpts::default()).unwrap();
    assert_eq!(r.rev, 1);
    let mut clip = copy_of(&sample_project().tracks[1].clips[0]);
    clip.id = "A1-002".into();
    let opts = ApplyOpts { request_id: Some("req-1".into()), ..Default::default() };
    let r2 = eng
        .apply(Command::ClipInsert { to_track: "A1".into(), clip, request_id: Some("req-1".into()) }, agent(), opts)
        .unwrap();
    assert!(!r2.idempotent);
    assert_eq!(eng.rev(), 2);
    let clip2 = {
        let mut c = copy_of(&sample_project().tracks[1].clips[0]);
        c.id = "A1-003".into();
        c
    };
    let r3 = eng
        .apply(
            Command::ClipInsert { to_track: "A1".into(), clip: clip2, request_id: Some("req-1".into()) },
            agent(),
            ApplyOpts { request_id: Some("req-1".into()), ..Default::default() },
        )
        .unwrap();
    assert!(r3.idempotent);
    assert_eq!(eng.rev(), 2);
    let r4 = eng.apply(
        Command::ClipMove { clip_id: "A1-002".into(), new_start_ms: 0, to_track: Some("V1".into()) },
        agent(),
        ApplyOpts::default(),
    );
    assert!(matches!(r4, Err(Reject::InvariantViolation(_))));
}

#[test]
fn duplicate_clip_id_rejected() {
    let mut eng = Engine::new(sample_project()).unwrap();
    let clip = copy_of(&sample_project().tracks[0].clips[0]);
    let r = eng.apply(Command::ClipInsert { to_track: "V1".into(), clip, request_id: None }, agent(), ApplyOpts::default());
    assert!(matches!(r, Err(Reject::DuplicateClipId(_))));
}

#[test]
fn oplog_tail_filters() {
    let mut eng = Engine::new(sample_project()).unwrap();
    eng.apply(Command::ClipDelete { clip_id: "A1-001".into() }, Actor::user("用户"), ApplyOpts::default()).unwrap();
    eng.apply(Command::ClipDelete { clip_id: "V1-002".into() }, Actor::agent("AI"), ApplyOpts::default()).unwrap();
    match eng.query(Query::OpLogTail { since_rev: Some(0), actor_kind: Some(ActorKind::Agent) }) {
        Answer::Ops(ops) => {
            assert_eq!(ops.len(), 1);
            assert_eq!(ops[0].actor.id, "AI");
        },
        other => panic!("unexpected: {other:?}"),
    }
    match eng.query(Query::OpLogTail { since_rev: None, actor_kind: None }) {
        Answer::Ops(ops) => assert_eq!(ops.len(), 2),
        other => panic!("unexpected: {other:?}"),
    }
}

#[test]
fn caused_by_and_summary_recorded() {
    let mut eng = Engine::new(sample_project()).unwrap();
    eng.apply(
        Command::ClipUpdate { clip_id: "V1-001".into(), patch: patch(8000) },
        agent(),
        ApplyOpts { caused_by: vec!["n-0001".into()], summary: Some("按标注缩短".into()), ..Default::default() },
    )
    .unwrap();
    let op = &eng.oplog().ops()[0];
    assert_eq!(op.caused_by.as_deref(), Some(&["n-0001".to_string()][..]));
    assert_eq!(op.summary, "按标注缩短");
}

#[test]
fn resolve_clip_track_time() {
    let p = sample_project();
    let a = Anchor { kind: AnchorKind::Clip, ref_: Some("V1-002".into()), t_ms: 9000, span: None };
    assert_eq!(resolve(&p, &a), Some("/tracks/0/clips/1".into()));
    let t = Anchor { kind: AnchorKind::Track, ref_: Some("A1".into()), t_ms: 0, span: None };
    assert_eq!(resolve(&p, &t), Some("/tracks/1".into()));
    let time = Anchor { kind: AnchorKind::Time, ref_: None, t_ms: 12340, span: None };
    assert_eq!(resolve(&p, &time), None);
}

#[test]
fn relocate_follows_moved_clip() {
    let mut p = sample_project();
    p.tracks[0].clips[1].start_ms = 9400;
    let anchor = Anchor { kind: AnchorKind::Clip, ref_: Some("V1-002".into()), t_ms: 9000, span: None };
    let r = relocate(&p, &anchor, DEFAULT_NEAREST_MS);
    assert_eq!(r.state, AnchorState::Relocated);
    assert_eq!(r.anchor.ref_.as_deref(), Some("V1-002"));
    assert_eq!(r.anchor.t_ms, 9400, "a point anchor snaps into the element's span");
}

#[test]
fn relocate_rehangs_to_nearest_then_orphans() {
    let mut p = sample_project();
    p.tracks[0].clips.remove(1);
    let near = Anchor { kind: AnchorKind::Clip, ref_: Some("V1-002".into()), t_ms: 8600, span: None };
    let r = relocate(&p, &near, DEFAULT_NEAREST_MS);
    assert_eq!(r.state, AnchorState::Relocated);
    assert_eq!(r.anchor.ref_.as_deref(), Some("A1-001"));
    assert_eq!(r.anchor.t_ms, 8600);
    let far = Anchor { kind: AnchorKind::Clip, ref_: Some("V1-002".into()), t_ms: 20000, span: None };
    let r2 = relocate(&p, &far, DEFAULT_NEAREST_MS);
    assert_eq!(r2.state, AnchorState::Orphan);
    assert!(r2.orphan_reason.unwrap().contains("V1-002"));
}

fn float(s: &str) -> Option<JNum> {
    Some(JNum::Float(s.to_string()))
}

fn sample_clip() -> Clip {
    let mut c = sample_project().tracks[0].clips[0].duplicate();
    c.src = None;
    c.role = None;
    c
}

fn num_text(n: &Option<JNum>) -> Option<String> {
    match n {
        Some(JNum::Float(s)) => Some(s.clone()),
        Some(JNum::PosInt(k)) => Some(k.to_string()),
        Some(JNum::NegInt(k)) => Some(k.to_string()),
        None => None,
    }
}

#[test]
fn full_patch_records_changes() {
    let mut c = sample_clip();
    let changes = ClipPatch {
        start_ms: Some(100),
        duration_ms: Some(8000),
        source_in_ms: Some(12100),
        speed: float("1.25"),
        volume: float("0.8"),
        opacity: float("0.5"),
        scale: float("1.1"),
        text: Some("字幕".into()),
        freeze_ms: Some(300),
    }
    .apply_to(&mut c);
    assert_eq!(changes.len(), 9);
    assert_eq!(c.start_ms, 100);
    assert_eq!(c.duration_ms, 8000);
    assert_eq!(c.source_in_ms, Some(12100));
    assert_eq!(num_text(&c.speed).as_deref(), Some("1.25"));
    assert_eq!(num_text(&c.volume).as_deref(), Some("0.8"));
    assert_eq!(num_text(&c.opacity).as_deref(), Some("0.5"));
    assert_eq!(num_text(&c.scale).as_deref(), Some("1.1"));
    assert_eq!(c.text.as_deref(), Some("字幕"));
    assert_eq!(c.freeze_ms, Some(300));
    let vol = changes.iter().find(|(p, _, _)| p == "/volume").unwrap();
    assert!(matches!(&vol.1, Json::Num(JNum::Float(s)) if s == "1.0"));
    assert!(matches!(&vol.2, Json::Num(JNum::Float(s)) if s == "0.8"));
}

#[test]
fn same_value_patch_yields_no_changes() {
    let mut c = sample_clip();
    let changes = ClipPatch { volume: float("1.0"), ..Default::default() }.apply_to(&mut c);
    assert!(changes.is_empty(), "a field set to its own value is no change");
}

#[test]
fn relocate_keeps_an_anchor_that_still_lands_in_its_clip() {
    let p = sample_project();
    let anchor = Anchor { kind: AnchorKind::Clip, ref_: Some("V1-002".into()), t_ms: 9000, span: None };
    let r = relocate(&p, &anchor, DEFAULT_NEAREST_MS);
    assert_eq!(r.state, AnchorState::Resolved);
    assert_eq!(r.anchor.ref_.as_deref(), Some("V1-002"));
    assert_eq!(r.anchor.t_ms, 9000);
    assert!(r.orphan_reason.is_none());
}

#[test]
fn bookkeeping_writes_are_marked_auto() {
    let mut eng = Engine::new(sample_project()).unwrap();
    let opts = ApplyOpts { non_undoable: true, ..ApplyOpts::default() };
    eng.apply(Command::ClipUpdate { clip_id: "V1-001".into(), patch: patch(8000) }, agent(), opts).unwrap();
    assert_eq!(eng.oplog().ops()[0].auto, Some(true));
    assert!(matches!(eng.undo(agent()), Err(Reject::NothingToUndo)));
    eng.apply(Command::ClipUpdate { clip_id: "V1-001".into(), patch: patch(7000) }, agent(), ApplyOpts::default())
        .unwrap();
    assert_eq!(eng.oplog().ops()[1].auto, None);
}

#[test]
fn writes_that_break_the_schema_are_refused_and_rolled_back() {
    let schema = Json::Obj(vec![(
        "required".to_string(),
        Json::Arr(vec![Json::Str("nope".to_string())]),
    )]);
    let mut eng = Engine::new(sample_project()).unwrap();
    eng.apply(Command::ClipUpdate { clip_id: "V1-001".into(), patch: patch(8000) }, agent(), ApplyOpts::default())
        .unwrap();
    eng.set_schema(schema);
    let r = eng.apply(Command::ClipUpdate { clip_id: "V1-001".into(), patch: patch(7000) }, agent(), ApplyOpts::default());
    match r {
        Err(Reject::SchemaInvalid(errs)) => assert_eq!(errs, vec!["$: 缺必填键 'nope'".to_string()]),
        other => panic!("expected a schema refusal, got {:?}", other),
    }
    assert_eq!(eng.rev(), 1);
    assert_eq!(clip_duration(&eng, "V1-001"), Some(8000));
    assert!(matches!(eng.undo(agent()), Err(Reject::SchemaInvalid(_))));
    assert_eq!(eng.rev(), 1);
    assert_eq!(clip_duration(&eng, "V1-001"), Some(8000));
}

#[test]
fn relocating_twice_changes_nothing_more() {
    let mut p = sample_project();
    p.tracks[0].clips[1].start_ms = 9400;
    let anchor = Anchor { kind: AnchorKind::Clip, ref_: Some("V1-002".into()), t_ms: 9000, span: None };
    let first = relocate(&p, &anchor, DEFAULT_NEAREST_MS);
    assert_eq!(first.state, AnchorState::Relocated);
    let second = relocate(&p, &first.anchor, DEFAULT_NEAREST_MS);
    assert_eq!(second.state, AnchorState::Resolved);
    assert_eq!(second.anchor.t_ms, first.anchor.t_ms);
    assert_eq!(second.anchor.ref_, first.anchor.ref_);
}

#[test]
fn rehang_goes_to_the_nearest_clip() {
    let mut p = sample_project();
    p.tracks[0].clips.remove(1);
    // V1-001 ends at 8400 and A1-001 spans 8400..8800: at 8900 the audio clip is nearer.
    let anchor = Anchor { kind: AnchorKind::Clip, ref_: Some("V1-002".into()), t_ms: 8900, span: None };
    let r = relocate(&p, &anchor, DEFAULT_NEAREST_MS);
    assert_eq!(r.state, AnchorState::Relocated);
    assert_eq!(r.anchor.ref_.as_deref(), Some("A1-001"));
    assert_eq!(r.anchor.t_ms, 8800);
}

#[test]
fn track_orphan_reason_in_debug_notation() {
    let p = sample_project();
    let a = Anchor { kind: AnchorKind::Track, ref_: Some("T\u{1}\"x".into()), t_ms: 0, span: None };
    let r = relocate(&p, &a, DEFAULT_NEAREST_MS);
    assert_eq!(r.state, AnchorState::Orphan);
    let expected = format!("轨道 {:?} 已不存在", Some("T\u{1}\"x"));
    assert_eq!(r.orphan_reason.as_deref(), Some(expected.as_str()));
}
