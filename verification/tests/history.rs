use cutforge::command::{ClipPatch, Command};
use cutforge::engine::{ApplyOpts, Engine, Reject};
use cutforge::json::{json_to_text, JNum, Json};
use cutforge::oplog::{Actor, OpKind};
use cutforge::state::sample_project;

fn agent() -> Actor {
    Actor::agent("undo-test")
}

fn to_json(v: &serde_json::Value) -> Json {
    match v {
        serde_json::Value::Null => Json::Null,
        serde_json::Value::Bool(b) => Json::Bool(*b),
        serde_json::Value::Number(n) => {
            if let Some(u) = n.as_u64() {
                Json::Num(JNum::PosInt(u))
            } else if let Some(i) = n.as_i64() {
                Json::Num(JNum::NegInt(i))
            } else {
                Json::Num(JNum::Float(n.to_string()))
            }
        },
        serde_json::Value::String(s) => Json::Str(s.clone()),
        serde_json::Value::Array(a) => Json::Arr(a.iter().map(to_json).collect()),
        serde_json::Value::Object(m) => Json::Obj(m.iter().map(|(k, v)| (k.clone(), to_json(v))).collect()),
    }
}

fn j(text: &str) -> Json {
    to_json(&serde_json::from_str(text).unwrap())
}

fn text_of(v: Option<&Json>) -> Option<String> {
    v.map(json_to_text)
}

fn vol(s: &str) -> ClipPatch {
    ClipPatch { volume: Some(JNum::Float(s.to_string())), ..Default::default() }
}

fn dur(ms: u64) -> ClipPatch {
    ClipPatch { duration_ms: Some(ms), ..Default::default() }
}

fn upd(id: &str, p: ClipPatch) -> Command {
    Command::ClipUpdate { clip_id: id.into(), patch: p }
}

fn split(id: &str, t: u64) -> Command {
    Command::ClipSplit { clip_id: id.into(), t_ms: t }
}

fn mv(id: &str, t: u64) -> Command {
    Command::ClipMove { clip_id: id.into(), new_start_ms: t, to_track: None }
}

fn roundtrip_seq() -> Vec<Command> {
    vec![
        upd("V1-001", dur(8000)),
        split("V1-001", 4000),
        upd("V1-003", vol("0.5")),
        mv("A1-001", 9000),
        Command::ClipDelete { clip_id: "V1-003".into() },
        upd("V1-002", vol("0.9")),
        mv("A1-001", 8400),
        split("V1-001", 2000),
    ]
}

#[test]
fn undo_redo_roundtrip() {
    let mut eng = Engine::new(sample_project()).unwrap();
    let initial_hash = eng.state_hash();
    let seq = roundtrip_seq();
    let n = seq.len();
    let mut applied = 0usize;
    for cmd in seq {
        if eng.apply(cmd, agent(), ApplyOpts::default()).is_ok() {
            applied += 1;
        }
    }
    assert_eq!(applied, n, "every step of the sequence is legal");
    let final_hash = eng.state_hash();
    assert_ne!(initial_hash, final_hash);
    for _ in 0..applied {
        eng.undo(agent()).expect("undo has something left");
    }
    assert_eq!(eng.state_hash(), initial_hash, "undoing everything gives the initial state");
    assert_eq!(eng.rev(), (applied * 2) as u64, "each undo is an op too");
    for _ in 0..applied {
        eng.redo(agent()).expect("redo has something left");
    }
    assert_eq!(eng.state_hash(), final_hash, "redoing everything gives the final state");
    eng.undo(agent()).unwrap();
    eng.redo(agent()).unwrap();
    assert_eq!(eng.state_hash(), final_hash);
}

#[test]
fn replay_is_equivalent_to_step_by_step() {
    let mut eng = Engine::new(sample_project()).unwrap();
    for cmd in [upd("V1-001", dur(8000)), split("V1-001", 4000), mv("A1-001", 9000)] {
        eng.apply(cmd, agent(), ApplyOpts::default()).unwrap();
    }
    let expected_hash = eng.state_hash();
    let replayed = Engine::replay(sample_project(), eng.oplog().ops()).unwrap();
    assert_eq!(replayed.state_hash(), expected_hash, "replay agrees with stepwise apply");
    assert_eq!(replayed.rev(), eng.rev());
}

#[test]
fn random_walk_undo_reduces_to_initial() {
    let mut eng = Engine::new(sample_project()).unwrap();
    let initial_hash = eng.state_hash();
    let mut seed: u64 = 20260918;
    let mut lcg = move || {
        seed = seed.wrapping_mul(6364136223846793005).wrapping_add(1442695040888963407);
        seed >> 33
    };
    let targets = ["V1-001", "V1-002", "A1-001"];
    let volumes = ["0.0", "0.1", "0.2", "0.3", "0.4", "0.5", "0.6", "0.7", "0.8", "0.9", "1.0", "1.1", "1.2", "1.3",
        "1.4", "1.5", "1.6", "1.7", "1.8", "1.9"];
    let mut applied = 0usize;
    for _ in 0..50 {
        let which = (lcg() as usize) % targets.len();
        let _dur = 100 + lcg() % 2000;
        let cmd = match (lcg() as usize) % 3 {
            0 => upd(targets[which], vol(volumes[(lcg() % 20) as usize])),
            1 => split(targets[which], 100 + lcg() % 1000),
            _ => mv(targets[which], lcg() % 500),
        };
        if eng.apply(cmd, agent(), ApplyOpts::default()).is_ok() {
            applied += 1;
        }
    }
    for _ in 0..applied {
        eng.undo(agent()).unwrap();
    }
    assert_eq!(eng.state_hash(), initial_hash, "{applied} ops all undone restore the start");
    assert_eq!(eng.rev(), (applied * 2) as u64);
}

#[test]
fn oplog_replay_hash_eq() {
    let mut eng = Engine::new(sample_project()).unwrap();
    let seq = vec![
        upd("V1-001", dur(8000)),
        split("V1-001", 4000),
        upd("V1-003", vol("0.5")),
        mv("A1-001", 9000),
        Command::ClipDelete { clip_id: "V1-003".into() },
        mv("V1-002", 4000),
        Command::ClipMerge { left_id: "V1-001".into(), right_id: "V1-002".into() },
        upd("V1-001", vol("0.9")),
    ];
    for cmd in seq {
        eng.apply(cmd, agent(), ApplyOpts::default()).unwrap();
    }
    eng.undo(agent()).unwrap();
    eng.redo(agent()).unwrap();
    let expected_hash = eng.state_hash();
    let expected_rev = eng.rev();
    let replayed = Engine::replay(sample_project(), eng.oplog().ops()).unwrap();
    assert_eq!(replayed.state_hash(), expected_hash, "full replay agrees with the live state");
    assert_eq!(replayed.rev(), expected_rev);
    let again = Engine::replay(sample_project(), replayed.oplog().ops()).unwrap();
    assert_eq!(again.state_hash(), expected_hash);
}

fn prefix_seq() -> Vec<Command> {
    vec![upd("V1-001", dur(8100)), split("V1-001", 3000), mv("A1-001", 9500), upd("V1-002", vol("0.7"))]
}

#[test]
fn replay_prefix_equals_stepwise_state() {
    let n = prefix_seq().len();
    let mut live = Engine::new(sample_project()).unwrap();
    for (i, cmd) in prefix_seq().into_iter().enumerate() {
        live.apply(cmd, agent(), ApplyOpts::default()).unwrap();
        let mut stepwise = Engine::new(sample_project()).unwrap();
        for c in prefix_seq().into_iter().take(i + 1) {
            stepwise.apply(c, agent(), ApplyOpts::default()).unwrap();
        }
        let replayed = Engine::replay(sample_project(), live.oplog().ops()).unwrap();
        assert_eq!(replayed.state_hash(), stepwise.state_hash(), "prefix {i} replays differently");
    }
    assert_eq!(live.rev(), n as u64);
}

#[test]
fn replay_after_undo_matches_undone_state() {
    let mut eng = Engine::new(sample_project()).unwrap();
    eng.apply(upd("V1-001", dur(8000)), agent(), ApplyOpts::default()).unwrap();
    eng.apply(upd("V1-002", vol("0.6")), agent(), ApplyOpts::default()).unwrap();
    eng.undo(agent()).unwrap();
    let replayed = Engine::replay(sample_project(), eng.oplog().ops()).unwrap();
    assert_eq!(replayed.state_hash(), eng.state_hash(), "a log with an undo replays to the undone state");
}

fn notes_before() -> Json {
    j(r#"{"version": 1, "items": []}"#)
}

#[test]
fn file_level_undo_routes_to_file_state_not_project() {
    let mut eng = Engine::new(sample_project()).unwrap();
    let after = r#"{"version": 1, "items": [{"id": "n-0001"}]}"#;
    let r = eng
        .record_file_change("notes.json", "/items", notes_before(), j(after), OpKind::Insert, agent(), ApplyOpts::default())
        .unwrap();
    assert_eq!(r.rev, 1);
    eng.undo(agent()).unwrap();
    assert_eq!(text_of(eng.file_state("notes.json")), Some(json_to_text(&notes_before())), "undo goes to the file state");
    assert_eq!(eng.rev(), 2);
    eng.redo(agent()).unwrap();
    assert_eq!(text_of(eng.file_state("notes.json")), Some(json_to_text(&j(after))));
    assert_eq!(eng.project().tracks.len(), sample_project().tracks.len());
}

#[test]
fn undo_depth_equals_real_gestures_auto_ops_excluded() {
    let mut eng = Engine::new(sample_project()).unwrap();
    eng.apply(Command::ClipDelete { clip_id: "A1-001".into() }, agent(), ApplyOpts::default()).unwrap();
    let r = eng
        .record_file_change(
            "notes.json",
            "/items",
            notes_before(),
            j(r#"{"version": 1, "items": [{"id": "n-0009"}]}"#),
            OpKind::SetValue,
            agent(),
            ApplyOpts { non_undoable: true, ..Default::default() },
        )
        .unwrap();
    assert_eq!(r.rev, 2);
    let op = eng.oplog().ops().last().unwrap();
    assert_eq!(op.auto, Some(true));
    eng.undo(agent()).unwrap();
    let err = eng.undo(agent());
    assert!(matches!(err, Err(Reject::NothingToUndo)), "bookkeeping ops are not on the undo stack");
}

#[test]
fn file_undo_rejects_when_base_drifted() {
    let mut eng = Engine::new(sample_project()).unwrap();
    let op1_after = r#"{"version": 1, "items": [{"id": "n-0001"}]}"#;
    eng.record_file_change("notes.json", "/items", notes_before(), j(op1_after), OpKind::Insert, agent(), ApplyOpts::default())
        .unwrap();
    let op2_after = r#"{"version": 1, "items": [{"id": "n-0001"}, {"id": "n-0002"}]}"#;
    eng.record_file_change("notes.json", "/items", j(op1_after), j(op2_after), OpKind::Insert, agent(), ApplyOpts::default())
        .unwrap();
    eng.undo(agent()).unwrap();
    eng.undo(agent()).unwrap();
    assert_eq!(text_of(eng.file_state("notes.json")), Some(json_to_text(&notes_before())));
    assert!(matches!(eng.undo(agent()), Err(Reject::NothingToUndo)));
}

#[test]
fn replay_routes_file_level_ops() {
    let mut eng = Engine::new(sample_project()).unwrap();
    eng.apply(Command::ClipDelete { clip_id: "A1-001".into() }, agent(), ApplyOpts::default()).unwrap();
    eng.record_file_change(
        "notes.json",
        "/items",
        notes_before(),
        j(r#"{"version": 1, "items": [{"id": "n-0001"}]}"#),
        OpKind::Insert,
        agent(),
        ApplyOpts::default(),
    )
    .unwrap();
    eng.undo(agent()).unwrap();
    let replayed = Engine::replay(sample_project(), eng.oplog().ops()).unwrap();
    assert_eq!(replayed.rev(), eng.rev());
    assert_eq!(text_of(replayed.file_state("notes.json")), text_of(eng.file_state("notes.json")));
    assert_eq!(replayed.state_hash(), eng.state_hash(), "the replayed project equals the stepwise one");
}

#[test]
fn undo_restores_each_kind_of_change() {
    let cmds = vec![
        upd("V1-001", dur(7000)),
        split("V1-002", 10000),
        Command::ClipDelete { clip_id: "A1-001".into() },
        mv("V1-002", 15000),
        Command::ClipMove { clip_id: "V1-002".into(), new_start_ms: 20000, to_track: Some("V1".into()) },
        Command::ClipMerge { left_id: "V1-001".into(), right_id: "V1-002".into() },
    ];
    for cmd in cmds {
        let mut eng = Engine::new(sample_project()).unwrap();
        let before = eng.state_hash();
        let label = format!("{cmd:?}");
        let r = eng.apply(cmd, agent(), ApplyOpts::default()).unwrap();
        assert!(!r.idempotent, "{label}");
        let changed = eng.state_hash();
        assert_ne!(before, changed, "{label}");
        eng.undo(agent()).unwrap();
        assert_eq!(eng.state_hash(), before, "undo restores the project: {label}");
        eng.redo(agent()).unwrap();
        assert_eq!(eng.state_hash(), changed, "redo gives the change back: {label}");
    }
}

#[test]
fn replay_after_undo_and_redo_matches_live_state() {
    let mut eng = Engine::new(sample_project()).unwrap();
    eng.apply(upd("V1-001", dur(8000)), agent(), ApplyOpts::default()).unwrap();
    eng.apply(split("V1-002", 10_000), agent(), ApplyOpts::default()).unwrap();
    eng.undo(agent()).unwrap();
    eng.undo(agent()).unwrap();
    eng.redo(agent()).unwrap();
    let replayed = Engine::replay(sample_project(), eng.oplog().ops()).unwrap();
    assert_eq!(replayed.state_hash(), eng.state_hash(), "undo and redo replay to the live state");
    assert_eq!(replayed.rev(), eng.rev());
}

#[test]
fn checked_replay_stops_at_the_first_write_that_breaks_the_schema() {
    let mut eng = Engine::new(sample_project()).unwrap();
    eng.apply(split("V1-001", 4000), agent(), ApplyOpts::default()).unwrap();
    let n = sample_project().tracks[0].clips.len();
    let schema = j(&format!(
        r#"{{"properties": {{"tracks": {{"items": {{"properties": {{"clips": {{"maxItems": {n}}}}}}}}}}}}}"#
    ));
    match Engine::replay_checked(sample_project(), eng.oplog().ops(), &schema) {
        Err(Reject::SchemaInvalid(errs)) => {
            assert_eq!(errs, vec![format!("$.tracks[0].clips: maxItems {n} 实际 {}", n + 1)]);
        },
        _ => panic!("the split breaks the clip bound"),
    }
    let open = j("{}");
    let replayed = Engine::replay_checked(sample_project(), eng.oplog().ops(), &open).unwrap();
    assert_eq!(replayed.state_hash(), eng.state_hash());
    let closed = j(r#"{"required": ["nope"]}"#);
    assert!(matches!(
        Engine::replay_checked(sample_project(), eng.oplog().ops(), &closed),
        Err(Reject::SchemaInvalid(_))
    ));
}

#[test]
fn partial_undo_and_redo_walk_the_intermediate_states() {
    let mut eng = Engine::new(sample_project()).unwrap();
    let mut hashes = vec![eng.state_hash()];
    for cmd in [upd("V1-001", dur(8000)), split("V1-001", 4000), mv("A1-001", 9000)] {
        eng.apply(cmd, agent(), ApplyOpts::default()).unwrap();
        hashes.push(eng.state_hash());
    }
    eng.undo(agent()).unwrap();
    assert_eq!(eng.state_hash(), hashes[2]);
    eng.undo(agent()).unwrap();
    assert_eq!(eng.state_hash(), hashes[1]);
    eng.redo(agent()).unwrap();
    assert_eq!(eng.state_hash(), hashes[2]);
    eng.undo(agent()).unwrap();
    eng.undo(agent()).unwrap();
    assert_eq!(eng.state_hash(), hashes[0]);
    for k in 1..=3 {
        eng.redo(agent()).unwrap();
        assert_eq!(eng.state_hash(), hashes[k]);
    }
    assert!(eng.redo(agent()).is_err(), "nothing is left to redo");
}
