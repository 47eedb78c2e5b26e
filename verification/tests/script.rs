use cutforge::cutlist::finalize_cutlist_value;
use cutforge::json::{JNum, Json};
use cutforge::script::{allow_list, run_script, step_report, AllowList, CallLog, EscapeKind, Policy, ToolDispatch};
use std::sync::atomic::{AtomicUsize, Ordering};

fn to_json(v: &serde_json::Value) -> Json {
    match v {
        serde_json::Value::Null => Json::Null,
        serde_json::Value::Bool(b) => Json::Bool(*b),
        serde_json::Value::Number(n) => {
            if let Some(u) = n.as_u64() {
                Json::Num(JNum::PosInt(u))
            } else if let Some(i) = n.as_i64() {
                Json::Num(JNum::NegInt(i))
            } else {
                Json::Num(JNum::Float(n.to_string()))
            }
        },
        serde_json::Value::String(s) => Json::Str(s.clone()),
        serde_json::Value::Array(a) => Json::Arr(a.iter().map(to_json).collect()),
        serde_json::Value::Object(m) => Json::Obj(m.iter().map(|(k, v)| (k.clone(), to_json(v))).collect()),
    }
}

fn j(text: &str) -> Json {
    to_json(&serde_json::from_str(text).unwrap())
}

struct Mock {
    allowed: Vec<String>,
    calls: AtomicUsize,
}

impl Mock {
    fn new(allowed: &[&str]) -> Self {
        Self { allowed: allow_list(allowed), calls: AtomicUsize::new(0) }
    }
}

impl ToolDispatch for Mock {
    fn calls(&self) -> CallLog {
        unreachable!("the call log exists only in the proofs")
    }
    fn allowed(&self) -> AllowList {
        unreachable!("the allow list as names exists only in the proofs")
    }
    fn allowed_tools(&self) -> &Vec<String> {
        &self.allowed
    }
    fn call(&mut self, _tool: &str, _args: &Json) -> Result<Json, String> {
        self.calls.fetch_add(1, Ordering::SeqCst);
        Ok(j(r#"{"ok": true, "code": "OK", "message": "stub", "data": {}}"#))
    }
}

const ROOT: &str = "/tmp/cutforge-script-sandbox";

fn script(steps: &str) -> Json {
    j(&format!(r#"{{"format": "cutforge-script-v1", "steps": {steps}}}"#))
}

const QUERY: &[&str] = &["project_get", "oplog_tail"];
const ALL: &[&str] = &[
    "project_get",
    "oplog_tail",
    "clip_update",
    "clip_split",
    "clip_delete",
    "undo",
    "redo",
    "stage_run",
    "render",
    "export_jianying",
];

#[test]
fn sandbox_escape() {
    let policy = Policy::new(ROOT);
    let mut d = Mock::new(QUERY);
    let r = run_script(&script(r#"[{"tool": "fs_read", "args": {"path": "C:\\Windows\\win.ini"}}]"#), &mut d, &policy)
        .unwrap();
    assert_eq!(r.rejected.len(), 1);
    assert!(r.rejected[0].1.contains("fs_read"));
    let r = run_script(&script(r#"[{"tool": "exec", "args": {"cmd": "cmd /c dir"}}]"#), &mut d, &policy).unwrap();
    assert_eq!(r.rejected.len(), 1);
    assert!(r.rejected[0].1.contains("exec"));
    let r = run_script(&script(r#"[{"tool": "socket_connect", "args": {"host": "127.0.0.1"}}]"#), &mut d, &policy)
        .unwrap();
    assert_eq!(r.rejected.len(), 1);
    assert!(r.rejected[0].1.contains("socket_connect"));
    let mut d_all = Mock::new(ALL);
    let r = run_script(&script(r#"[{"tool": "stage_run", "args": {"stage": "S3"}}]"#), &mut d_all, &policy).unwrap();
    assert!(r.rejected[0].1.contains("stage_run"));
    let r = run_script(&script(r#"[{"tool": "project_get", "args": {"root": "C:\\Windows"}}]"#), &mut d_all, &policy)
        .unwrap();
    assert!(r.rejected[0].1.contains(r"C:\Windows"));
    let r = run_script(
        &script(&format!(r#"[{{"tool": "project_get", "args": {{"root": "{ROOT}", "out": "/etc/passwd"}}}}]"#)),
        &mut d_all,
        &policy,
    )
    .unwrap();
    assert!(r.rejected[0].1.contains("/etc/passwd"));
    let steps: Vec<String> = (0..policy.max_steps + 1)
        .map(|i| format!(r#"{{"tool": "project_get", "args": {{"root": "{ROOT}", "i": {i}}}}}"#))
        .collect();
    let over = run_script(&script(&format!("[{}]", steps.join(","))), &mut d_all, &policy);
    assert!(over.unwrap_err().message().contains("步数超限"));
    assert!(matches!(run_script(&j(r#"{"steps": []}"#), &mut d_all, &policy), Err(EscapeKind::BadFormat(_))));
    assert_eq!(d.calls.load(Ordering::SeqCst), 0);
    assert_eq!(d_all.calls.load(Ordering::SeqCst), 0, "no escape reaches the dispatcher");
}

#[test]
fn legitimate_script_runs_and_reports() {
    let policy = Policy::new(ROOT);
    let mut d = Mock::new(ALL);
    let s = script(&format!(
        r#"[{{"tool": "project_get", "args": {{"root": "{ROOT}"}}}},
            {{"tool": "clip_update", "args": {{"root": "{ROOT}", "clipId": "V1-001"}}}}]"#
    ));
    let r = run_script(&s, &mut d, &policy).unwrap();
    assert!(r.rejected.is_empty());
    assert_eq!(r.dispatched, 2);
    assert_eq!(r.executed.len(), 2);
    assert!(r.executed.iter().all(|s| s.ok));
    assert_eq!(r.escapes(), 0);
}

#[test]
fn sandbox_escape_all_rejected() {
    let policy = Policy::new("/tmp/cutforge-sandbox-gate");
    let mut d = Mock::new(&["project_get", "oplog_tail", "clip_update", "undo", "stage_run", "render"]);
    let escapes = [
        r#"[{"tool": "fs_read",   "args": {"path": "C:\\Windows\\win.ini"}}]"#,
        r#"[{"tool": "exec",      "args": {"cmd": "cmd /c dir"}}]"#,
        r#"[{"tool": "socket",    "args": {"host": "127.0.0.1", "port": 80}}]"#,
        r#"[{"tool": "stage_run", "args": {"stage": "S3"}}]"#,
        r#"[{"tool": "render",    "args": {}}]"#,
        r#"[{"tool": "project_get", "args": {"root": "C:\\Windows"}}]"#,
    ];
    let mut total_rejected = 0usize;
    for steps in escapes {
        let report = run_script(&script(steps), &mut d, &policy).unwrap();
        assert_eq!(report.rejected.len(), 1, "the escape is refused: {report:?}");
        assert_eq!(report.dispatched, 0);
        total_rejected += report.rejected.len();
    }
    assert_eq!(total_rejected, 6);
    assert_eq!(d.calls.load(Ordering::SeqCst), 0);
}

#[test]
fn tail_remove_is_rejected_like_rs_cut() {
    let mut cl = j(r#"{
        "version": 1, "source": "s", "detector": {"version": "v", "params": {}},
        "cuts": [{"id": "c001", "inMs": 4500, "outMs": 5000, "reason": "silence",
                  "conf": 0.9, "action": "remove", "note": "", "guard": {}, "text": ""}],
        "keep": [[0, 4500]], "removedMs": 500, "srcTotalMs": 5000, "script": []
    }"#);
    assert!(finalize_cutlist_value(&mut cl).is_err());
}

fn member<'a>(j: &'a Json, k: &str) -> Option<&'a Json> {
    match j {
        Json::Obj(fs) => fs.iter().find(|(kk, _)| kk == k).map(|(_, v)| v),
        _ => None,
    }
}

#[test]
fn finalize_recomputes_keep_and_removed() {
    let mut cl = j(r#"{
        "cuts": [{"id": "c001", "inMs": 1000, "outMs": 1500, "action": "remove"},
                 {"id": "c002", "inMs": 3000, "outMs": 3200, "action": "keep"}],
        "keep": [], "removedMs": 0, "srcTotalMs": 5000
    }"#);
    finalize_cutlist_value(&mut cl).unwrap();
    assert_eq!(cutforge::json::json_to_text(member(&cl, "keep").unwrap()), "[[0,1000],[1500,5000]]");
    assert!(matches!(member(&cl, "removedMs"), Some(Json::Num(JNum::PosInt(500)))));
}

#[test]
fn step_report_reads_the_envelope_or_the_error() {
    let ok = step_report("project_get".to_string(), Ok(j(r#"{"ok": true, "code": "OK", "data": {}}"#)));
    assert_eq!(ok.tool, "project_get");
    assert!(ok.ok);
    assert_eq!(ok.code.as_deref(), Some("OK"));
    let refused = step_report("clip_update".to_string(), Ok(j(r#"{"ok": false, "code": "CONFLICT"}"#)));
    assert!(!refused.ok);
    assert_eq!(refused.code.as_deref(), Some("CONFLICT"));
    let bare = step_report("undo".to_string(), Ok(j(r#"[1, 2]"#)));
    assert!(!bare.ok);
    assert_eq!(bare.code, None);
    let failed = step_report("undo".to_string(), Err("宿主离线".to_string()));
    assert!(!failed.ok);
    assert_eq!(failed.code.as_deref(), Some("宿主离线"));
}
