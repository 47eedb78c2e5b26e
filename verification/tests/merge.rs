use cutforge::json::{JNum, Json};
use cutforge::json::json_to_text;
use cutforge::merge::{three_way_merge, Conflict, MergeOutcome};
use cutforge::sync::{base_snapshot, code_from_text, drift_step, reconcile_rev, strip_meta, sync_step, DriftStep, SyncStep};
use serde_json::Value;
use std::collections::BTreeMap;

fn to_json(v: &Value) -> Json {
    match v {
        Value::Null => Json::Null,
        Value::Bool(b) => Json::Bool(*b),
        Value::Number(n) => {
            if let Some(u) = n.as_u64() {
                Json::Num(JNum::PosInt(u))
            } else if let Some(i) = n.as_i64() {
                Json::Num(JNum::NegInt(i))
            } else {
                Json::Num(JNum::Float(n.to_string()))
            }
        },
        Value::String(s) => Json::Str(s.clone()),
        Value::Array(a) => Json::Arr(a.iter().map(to_json).collect()),
        Value::Object(m) => Json::Obj(m.iter().map(|(k, v)| (k.clone(), to_json(v))).collect()),
    }
}

fn back(j: &Json) -> Value {
    match j {
        Json::Null => Value::Null,
        Json::Bool(b) => Value::Bool(*b),
        Json::Num(JNum::PosInt(u)) => Value::from(*u),
        Json::Num(JNum::NegInt(i)) => Value::from(*i),
        Json::Num(JNum::Float(s)) => serde_json::from_str(s).unwrap(),
        Json::Str(s) => Value::String(s.clone()),
        Json::Arr(a) => Value::Array(a.iter().map(back).collect()),
        Json::Obj(fs) => {
            let mut m = serde_json::Map::new();
            for (k, v) in fs {
                m.insert(k.clone(), back(v));
            }
            Value::Object(m)
        },
    }
}

fn val(s: &str) -> Value {
    serde_json::from_str(s).unwrap()
}

fn merge(base: &Value, disk: &Value, local: &Value) -> Result<Value, Vec<Conflict>> {
    match three_way_merge(&to_json(base), &to_json(disk), &to_json(local)) {
        MergeOutcome::Merged(m) => Ok(back(&m)),
        MergeOutcome::Conflicts(c) => Err(c),
    }
}

fn merged(v: Value) -> Value {
    merge(&val("{}"), &v, &v).expect("merging a document with itself never conflicts")
}

fn expect_conflict(base: &Value, disk: &Value, local: &Value, code: &str) {
    match merge(base, disk, local) {
        Err(c) => {
            assert!(
                c.iter().any(|x| x.code.code() == code),
                "expected {code}, got {:?}",
                c.iter().map(|x| x.code.code().to_string()).collect::<Vec<_>>()
            );
        },
        Ok(_) => panic!("expected {code}: base={base} disk={disk} local={local}"),
    }
}

fn ids_of(v: &Value) -> Vec<String> {
    v.as_array().unwrap().iter().map(|e| e["id"].as_str().unwrap().to_string()).collect()
}

fn idn(ids: &[&str]) -> Value {
    Value::Array(ids.iter().map(|i| val(&format!(r#"{{"id": "{i}", "n": 1}}"#))).collect())
}

fn clip(id: &str, start: u64, dur: u64) -> Value {
    val(&format!(r#"{{"id": "{id}", "startMs": {start}, "durationMs": {dur}}}"#))
}

#[test]
fn merge_table_nine_rows() {
    match merge(&val(r#"{"a": 1}"#), &val(r#"{"a": 1}"#), &val(r#"{"a": 1}"#)) {
        Ok(v) => assert_eq!(v["a"], val("1")),
        _ => panic!(),
    }
    match merge(&val(r#"{"a": 1}"#), &val(r#"{"a": 2}"#), &val(r#"{"a": 1}"#)) {
        Ok(v) => assert_eq!(v["a"], val("2")),
        _ => panic!(),
    }
    match merge(&val(r#"{"a": 1}"#), &val(r#"{"a": 1}"#), &val(r#"{"a": 3}"#)) {
        Ok(v) => assert_eq!(v["a"], val("3")),
        _ => panic!(),
    }
    match merge(&val(r#"{"a": 1}"#), &val(r#"{"a": 9}"#), &val(r#"{"a": 9}"#)) {
        Ok(v) => assert_eq!(v["a"], val("9")),
        _ => panic!(),
    }
    match merge(&val(r#"{"a": 1}"#), &val(r#"{"a": 2}"#), &val(r#"{"a": 3}"#)) {
        Err(c) => {
            assert_eq!(c.len(), 1);
            assert_eq!(c[0].code.code(), "CF-001");
            assert_eq!(c[0].pointer, "$/a");
        },
        _ => panic!(),
    }
    match merge(&val(r#"{"a": 1, "b": 2}"#), &val(r#"{"a": 1}"#), &val(r#"{"a": 1, "b": 2}"#)) {
        Ok(v) => assert!(v.get("b").is_none()),
        _ => panic!(),
    }
    match merge(&val(r#"{"a": 1, "b": 2}"#), &val(r#"{"a": 1, "b": 2}"#), &val(r#"{"a": 1}"#)) {
        Ok(v) => assert!(v.get("b").is_none()),
        _ => panic!(),
    }
    match merge(&val(r#"{"a": 1, "b": 2}"#), &val(r#"{"a": 1}"#), &val(r#"{"a": 1, "b": 3}"#)) {
        Err(c) => assert_eq!(c[0].code.code(), "CF-002"),
        _ => panic!(),
    }
    match merge(&val(r#"{"a": 1, "b": 2}"#), &val(r#"{"a": 1, "b": 7}"#), &val(r#"{"a": 1}"#)) {
        Err(c) => assert_eq!(c[0].code.code(), "CF-002"),
        _ => panic!(),
    }
    match merge(&idn(&["A"]), &idn(&["A", "B"]), &idn(&["A", "C"])) {
        Ok(v) => assert_eq!(v.as_array().unwrap().len(), 3),
        _ => panic!(),
    }
    let d = val(r#"[{"id": "A", "n": 1}, {"id": "X", "n": 2}]"#);
    let l = val(r#"[{"id": "A", "n": 1}, {"id": "X", "n": 3}]"#);
    match merge(&idn(&["A"]), &d, &l) {
        Err(c) => assert_eq!(c[0].code.code(), "CF-003"),
        _ => panic!(),
    }
}

#[test]
fn nested_object_field_level_merge() {
    let base = val(r#"{"clip": {"durationMs": 100, "volume": 1.0}}"#);
    let disk = val(r#"{"clip": {"durationMs": 80, "volume": 1.0}}"#);
    let local = val(r#"{"clip": {"durationMs": 100, "volume": 0.5}}"#);
    match merge(&base, &disk, &local) {
        Ok(v) => {
            assert_eq!(v["clip"]["durationMs"], val("80"));
            assert_eq!(v["clip"]["volume"], val("0.5"));
        },
        _ => panic!("different fields never conflict"),
    }
    let local2 = val(r#"{"clip": {"durationMs": 120, "volume": 1.0}}"#);
    match merge(&base, &disk, &local2) {
        Err(c) => assert_eq!(c[0].pointer, "$/clip/durationMs"),
        _ => panic!(),
    }
}

#[test]
fn clip_array_mixed_ops_merge() {
    let base = Value::Array(vec![clip("V1-001", 0, 100), clip("V1-002", 100, 100)]);
    let disk = Value::Array(vec![clip("V1-001", 0, 90), clip("V1-003", 90, 50)]);
    let local = Value::Array(vec![clip("V1-001", 0, 100), clip("V1-002", 100, 100), clip("V1-004", 200, 30)]);
    match merge(&base, &disk, &local) {
        Ok(v) => {
            assert_eq!(ids_of(&v), vec!["V1-001", "V1-003", "V1-004"]);
            assert_eq!(v.as_array().unwrap()[0]["durationMs"], val("90"));
        },
        Err(c) => panic!("no conflict expected: {c:?}"),
    }
    let disk2 = Value::Array(vec![clip("V1-001", 10, 100), clip("V1-002", 100, 100)]);
    let local2 = Value::Array(vec![clip("V1-001", 20, 100), clip("V1-002", 100, 100)]);
    match merge(&base, &disk2, &local2) {
        Err(c) => assert!(!c.is_empty()),
        _ => panic!(),
    }
    let local3 = Value::Array(vec![clip("V1-001", 0, 100), clip("V1-002", 110, 100)]);
    match merge(&base, &disk, &local3) {
        Err(c) => assert_eq!(c[0].code.code(), "CF-002"),
        Ok(_) => panic!("delete against modify must conflict"),
    }
}

#[test]
fn merge_table_nine_rows_object_leaves() {
    assert_eq!(merged(val(r#"{"a": 1}"#))["a"], val("1"));
    match merge(&val(r#"{"a": 1}"#), &val(r#"{"a": 2}"#), &val(r#"{"a": 1}"#)) {
        Ok(v) => assert_eq!(v["a"], val("2")),
        _ => panic!(),
    }
    match merge(&val(r#"{"a": 1}"#), &val(r#"{"a": 1}"#), &val(r#"{"a": 3}"#)) {
        Ok(v) => assert_eq!(v["a"], val("3")),
        _ => panic!(),
    }
    match merge(&val(r#"{"a": 1}"#), &val(r#"{"a": 9}"#), &val(r#"{"a": 9}"#)) {
        Ok(v) => assert_eq!(v["a"], val("9")),
        _ => panic!(),
    }
    expect_conflict(&val(r#"{"a": 1}"#), &val(r#"{"a": 2}"#), &val(r#"{"a": 3}"#), "CF-001");
    match merge(&val(r#"{"a": 1, "b": 2}"#), &val(r#"{"a": 1}"#), &val(r#"{"a": 1, "b": 2}"#)) {
        Ok(v) => assert!(v.get("b").is_none()),
        _ => panic!(),
    }
    match merge(&val(r#"{"a": 1, "b": 2}"#), &val(r#"{"a": 1, "b": 2}"#), &val(r#"{"a": 1}"#)) {
        Ok(v) => assert!(v.get("b").is_none()),
        _ => panic!(),
    }
    expect_conflict(&val(r#"{"a": 1, "b": 2}"#), &val(r#"{"a": 1}"#), &val(r#"{"a": 1, "b": 3}"#), "CF-002");
    expect_conflict(&val(r#"{"a": 1, "b": 2}"#), &val(r#"{"a": 1, "b": 7}"#), &val(r#"{"a": 1}"#), "CF-002");
}

#[test]
fn merge_table_row8_id_arrays_coexist() {
    match merge(&idn(&["A"]), &idn(&["A", "B"]), &idn(&["A", "C"])) {
        Ok(v) => assert_eq!(ids_of(&v), vec!["A", "B", "C"]),
        Err(c) => panic!("row 8 never conflicts: {c:?}"),
    }
}

#[test]
fn merge_table_row9_dup_id_conflict() {
    let base = val(r#"[{"id": "A", "n": 1}]"#);
    let disk = val(r#"[{"id": "A", "n": 1}, {"id": "X", "n": 2}]"#);
    let local = val(r#"[{"id": "A", "n": 1}, {"id": "X", "n": 3}]"#);
    expect_conflict(&base, &disk, &local, "CF-003");
}

#[test]
fn merge_table_deep_object_field_level() {
    let base = val(r#"{"clip": {"durationMs": 100, "volume": 1.0, "nested": {"x": 1}}}"#);
    let disk = val(r#"{"clip": {"durationMs": 80, "volume": 1.0, "nested": {"x": 1}}}"#);
    let local = val(r#"{"clip": {"durationMs": 100, "volume": 0.5, "nested": {"x": 2}}}"#);
    match merge(&base, &disk, &local) {
        Ok(v) => {
            assert_eq!(v["clip"]["durationMs"], val("80"));
            assert_eq!(v["clip"]["volume"], val("0.5"));
            assert_eq!(v["clip"]["nested"]["x"], val("2"));
        },
        Err(c) => panic!("different fields never conflict: {c:?}"),
    }
    let local2 = val(r#"{"clip": {"durationMs": 120, "volume": 1.0, "nested": {"x": 1}}}"#);
    match merge(&base, &disk, &local2) {
        Err(c) => assert_eq!(c[0].pointer, "$/clip/durationMs"),
        _ => panic!(),
    }
}

#[test]
fn merge_table_clip_array_mixed_ops() {
    let base = Value::Array(vec![clip("V1-001", 0, 100), clip("V1-002", 100, 100)]);
    let disk = Value::Array(vec![clip("V1-001", 0, 90), clip("V1-003", 90, 50)]);
    let local = Value::Array(vec![clip("V1-001", 0, 100), clip("V1-002", 100, 100), clip("V1-004", 200, 30)]);
    match merge(&base, &disk, &local) {
        Ok(v) => assert_eq!(ids_of(&v), vec!["V1-001", "V1-003", "V1-004"]),
        Err(c) => panic!("no conflict expected: {c:?}"),
    }
    let local3 = Value::Array(vec![clip("V1-001", 0, 100), clip("V1-002", 110, 100)]);
    expect_conflict(&base, &disk, &local3, "CF-002");
}

struct Rng(u64);

impl Rng {
    fn next(&mut self) -> u64 {
        self.0 = self.0.wrapping_mul(6364136223846793005).wrapping_add(1442695040888963407);
        self.0 >> 33
    }
    fn below(&mut self, n: u64) -> u64 {
        self.next() % n
    }
}

fn gen_doc(rng: &mut Rng) -> Value {
    let mut obj = serde_json::Map::new();
    obj.insert("slug".into(), Value::String("属性测试工程".into()));
    obj.insert("fps".into(), Value::from(30));
    obj.insert("joinCrossfadeMs".into(), Value::from(rng.below(200) as i64));
    let n_clips = 2 + rng.below(3);
    let clips: Vec<Value> = (0..n_clips)
        .map(|i| {
            let mut c = serde_json::Map::new();
            c.insert("id".into(), Value::String(format!("V1-{i:03}")));
            c.insert("startMs".into(), Value::from(i * 100));
            c.insert("durationMs".into(), Value::from(80 + rng.below(40)));
            c.insert("volume".into(), Value::from(1));
            Value::Object(c)
        })
        .collect();
    obj.insert("clips".into(), Value::Array(clips));
    Value::Object(obj)
}

fn mutate(rng: &mut Rng, doc: &Value) -> Value {
    let mut v = doc.clone();
    let kind = rng.below(4);
    match kind {
        0 => {
            let vals = [Value::from(1), Value::from(2), Value::from(99), Value::from(150), Value::Bool(true)];
            v["joinCrossfadeMs"] = vals[rng.below(vals.len() as u64) as usize].clone();
        },
        1 | 2 => {
            let arr = v["clips"].as_array_mut().unwrap();
            if arr.is_empty() {
                return v;
            }
            let idx = rng.below(arr.len() as u64) as usize;
            let field_pick = rng.below(2);
            let target = &mut arr[idx];
            if field_pick == 0 {
                target["durationMs"] = Value::from(60 + rng.below(60));
            } else {
                target["volume"] = Value::from(rng.below(3));
            }
        },
        _ => {
            let arr = v["clips"].as_array_mut().unwrap();
            if rng.below(2) == 0 && !arr.is_empty() {
                let idx = rng.below(arr.len() as u64) as usize;
                arr.remove(idx);
            } else {
                let new_id = format!("N{}", rng.below(4));
                let mut c = serde_json::Map::new();
                c.insert("id".into(), Value::String(new_id));
                c.insert("startMs".into(), Value::from(rng.below(300)));
                c.insert("durationMs".into(), Value::from(100));
                c.insert("volume".into(), Value::from(1));
                arr.push(Value::Object(c));
            }
        },
    }
    v
}

fn leaves(v: &Value, prefix: &str, out: &mut BTreeMap<String, Value>) {
    match v {
        Value::Object(m) => {
            for (k, sub) in m {
                leaves(sub, &format!("{prefix}/{k}"), out);
            }
        },
        Value::Array(a) => {
            let all_id = !a.is_empty() && a.iter().all(|e| e.get("id").map(Value::is_string).unwrap_or(false));
            if all_id {
                for e in a {
                    let id = e["id"].as_str().unwrap().to_string();
                    leaves(e, &format!("{prefix}[@{id}]"), out);
                }
            } else {
                out.insert(prefix.to_string(), v.clone());
            }
        },
        other => {
            out.insert(prefix.to_string(), other.clone());
        },
    }
}

fn leaves_of(v: &Value) -> BTreeMap<String, Value> {
    let mut out = BTreeMap::new();
    leaves(v, "$", &mut out);
    out
}

#[test]
fn conflicts_all_detected() {
    const ITERATIONS: u64 = 12_000;
    let mut rng = Rng(20260918);
    let mut silent_overwrites = 0u64;
    let mut first_problem: Option<String> = None;
    for it in 0..ITERATIONS {
        let base = gen_doc(&mut rng);
        let disk = mutate(&mut rng, &base);
        let local = mutate(&mut rng, &base);
        let outcome = merge(&base, &disk, &local);
        let (bm, dm, lm) = (leaves_of(&base), leaves_of(&disk), leaves_of(&local));
        let divergent_points: Vec<&String> = bm
            .iter()
            .filter_map(|(p, bv)| match (dm.get(p), lm.get(p)) {
                (Some(d), Some(l)) if d != bv && l != bv && d != l => Some(p),
                _ => None,
            })
            .collect();
        match outcome {
            Ok(m) => {
                let mm = leaves_of(&m);
                for (p, bv) in &bm {
                    let dv = dm.get(p);
                    let lv = lm.get(p);
                    let expected: Option<&Value> = if dv == Some(bv) && lv == Some(bv) {
                        Some(bv)
                    } else if dv != Some(bv) && lv == Some(bv) {
                        dv
                    } else if dv == Some(bv) && lv != Some(bv) {
                        lv
                    } else {
                        match (dv, lv) {
                            (Some(d), Some(l)) if d == l => Some(d),
                            (None, None) => None,
                            _ => {
                                silent_overwrites += 1;
                                continue;
                            },
                        }
                    };
                    let actual = mm.get(p);
                    let ok = match (expected, actual) {
                        (None, None) => true,
                        (Some(e), Some(a)) => e == a,
                        _ => false,
                    };
                    if !ok {
                        silent_overwrites += 1;
                        first_problem.get_or_insert(format!("silent overwrite at {it} {p}: expected {expected:?} got {actual:?}"));
                    }
                }
            },
            Err(conflicts) => {
                assert!(!conflicts.is_empty(), "iteration {it}: empty conflict list");
                for p in &divergent_points {
                    let dv = dm.get(p.as_str()).cloned();
                    let lv = lm.get(p.as_str()).cloned();
                    let covered = conflicts.iter().any(|c| {
                        [&c.disk, &c.local, &c.base].iter().any(|slot| {
                            let s = slot.as_ref().map(back);
                            s == dv || s == lv
                        })
                    }) || {
                        let ptr = p.split("[@").next().unwrap_or(p.as_str());
                        conflicts.iter().any(|c| c.pointer.starts_with(ptr.trim_end_matches('/')))
                    };
                    if !covered {
                        silent_overwrites += 1;
                        first_problem.get_or_insert(format!("divergence not reported at {it}: {p}"));
                    }
                }
            },
        }
    }
    assert_eq!(silent_overwrites, 0, "no silent overwrite: {first_problem:?}");
}

#[test]
fn disk_sync_decisions() {
    let synced = to_json(&val(r#"{"a": 1, "b": 1}"#));
    let same = to_json(&val(r#"{"a": 1, "b": 1}"#));
    let local = to_json(&val(r#"{"a": 1, "b": 2}"#));
    assert!(matches!(sync_step(&same, Some(&synced), &local, None), SyncStep::Unchanged));
    let disk = to_json(&val(r#"{"a": 5, "b": 1}"#));
    match sync_step(&disk, Some(&synced), &local, None) {
        SyncStep::Adopt(v) => assert_eq!(json_to_text(&v), r#"{"a":5,"b":2}"#),
        other => panic!("unexpected: {other:?}"),
    }
    let clash = to_json(&val(r#"{"a": 1, "b": 3}"#));
    assert!(matches!(sync_step(&clash, Some(&synced), &local, None), SyncStep::Conflicts(c) if c.len() == 1));
    assert!(matches!(drift_step(&synced, &same, &local), DriftStep::Unchanged));
    assert!(matches!(drift_step(&synced, &disk, &local), DriftStep::Merged(Some(_))));
    let (doc, meta) = strip_meta(to_json(&val(r#"{"_meta": {"gen": 2}, "a": 1}"#)));
    assert_eq!(json_to_text(&doc), r#"{"a":1}"#);
    assert_eq!(json_to_text(&meta.unwrap()), r#"{"gen":2}"#);
    assert_eq!(reconcile_rev(Some(4), Some("7\n")), 7);
    assert_eq!(reconcile_rev(Some(4), Some("3")), 4);
    assert_eq!(reconcile_rev(None, Some("junk")), 0);
    let names: Vec<String> = ["3.json", "9.json", "x.json", "5.json", "7.txt"].iter().map(|s| s.to_string()).collect();
    assert_eq!(base_snapshot(&names, 6), Some(3));
    assert_eq!(base_snapshot(&names, 2), None);
    assert_eq!(code_from_text("CF-003").code(), "CF-003");
    assert_eq!(code_from_text("??").code(), "CF-001");
}

#[test]
fn local_only_elements_keep_local_order() {
    let base = val(r#"[{"id": "A", "n": 1}]"#);
    let disk = val(r#"[{"id": "A", "n": 2}]"#);
    let local = val(r#"[{"id": "A", "n": 1}, {"id": "Z", "n": 1}, {"id": "B", "n": 1}]"#);
    assert_eq!(
        merge(&base, &disk, &local).unwrap(),
        val(r#"[{"id": "A", "n": 2}, {"id": "Z", "n": 1}, {"id": "B", "n": 1}]"#)
    );
}

fn timeline(clips: Vec<Value>) -> Value {
    let mut doc = val(r#"{"title": "t", "tracks": [{"id": "V1", "kind": "video"}]}"#);
    doc["tracks"][0]["clips"] = Value::Array(clips);
    doc
}

#[test]
fn nested_clip_field_divergence_conflicts() {
    let base = timeline(vec![clip("a", 0, 100), clip("b", 100, 50)]);
    let disk = timeline(vec![clip("a", 0, 200), clip("b", 100, 50)]);
    let local = timeline(vec![clip("a", 0, 300), clip("b", 100, 50)]);
    match merge(&base, &disk, &local) {
        Err(c) => {
            assert_eq!(c.len(), 1);
            assert_eq!(c[0].code.code(), "CF-001");
            assert_eq!(c[0].pointer, "$/tracks[V1]/clips[a]/durationMs");
        },
        Ok(m) => panic!("a divergent clip field was silently merged: {m}"),
    }
}

#[test]
fn nested_one_sided_changes_are_taken() {
    let base = timeline(vec![clip("a", 0, 100), clip("b", 100, 50)]);
    let disk = timeline(vec![clip("a", 10, 100), clip("b", 100, 50)]);
    let local = timeline(vec![clip("a", 0, 100), clip("b", 100, 70)]);
    let m = merge(&base, &disk, &local).expect("one-sided changes merge");
    let clips = &m["tracks"][0]["clips"];
    assert_eq!(clips[0]["startMs"], val("10"), "disk's change at depth is taken");
    assert_eq!(clips[1]["durationMs"], val("70"), "local's change at depth is taken");
    assert_eq!(clips[0]["durationMs"], val("100"));
}
