use cutforge::lock::{after_conflict, is_stale, lock_text, lock_ts, LockGuard, LockStep};
use cutforge::paths::{
    backup_rel, has_project, is_legacy_layout, project_path, project_rel_on_disk, resolve_dir, ARTBOARD, ASSETS, BRIEF, CUT,
    CUTLIST_APPLIED_REL, CUTLIST_REL, DELIVER, LEGACY_CUT, LEGACY_CUTLIST_APPLIED_REL, LEGACY_CUTLIST_REL, LEGACY_OUTPUT,
    LEGACY_PROJECT_REL, LEGACY_TIMELINE, LEGACY_WORDLINE_REL, MATERIALS, NOTES_REL, OUTPUT, PROJECT_REL, SENSED, STATE,
    TIMELINE, WORDLINE_REL,
};
use cutforge::stage::impact_for;
use cutforge::watch::{ignored, EventKind, SyncHub, WaitStep, Watcher};

#[test]
fn rel_paths_match_stage_dirs() {
    for (dir, rel) in [
        (TIMELINE, PROJECT_REL),
        (TIMELINE, WORDLINE_REL),
        (CUT, CUTLIST_REL),
        (CUT, CUTLIST_APPLIED_REL),
        (LEGACY_TIMELINE, LEGACY_PROJECT_REL),
        (LEGACY_TIMELINE, LEGACY_WORDLINE_REL),
        (LEGACY_CUT, LEGACY_CUTLIST_REL),
        (LEGACY_CUT, LEGACY_CUTLIST_APPLIED_REL),
    ] {
        assert!(rel.starts_with(&format!("{dir}/")), "{rel} must lie under {dir}");
    }
}

#[test]
fn contract_v2_dirs() {
    assert_eq!(BRIEF, "00_制作简报");
    assert_eq!(MATERIALS, "01_原始素材");
    assert_eq!(SENSED, "02_转写与校对");
    assert_eq!(ASSETS, "03_创作素材");
    assert_eq!(ARTBOARD, "artboard");
    assert_eq!(CUT, "04_粗剪决策");
    assert_eq!(TIMELINE, "05_时间线工程");
    assert_eq!(OUTPUT, "06_成片输出");
    assert_eq!(STATE, "_内部状态");
    assert_eq!(DELIVER, "成品");
    assert_eq!(NOTES_REL, "notes.json");
}

#[test]
fn layout_detection_and_resolve() {
    // empty directory: the new layout
    assert!(!is_legacy_layout(false, false));
    assert!(!has_project(false, false));
    assert_eq!(project_path(false, false), PROJECT_REL);
    assert_eq!(resolve_dir(false, false, OUTPUT, LEGACY_OUTPUT), OUTPUT);
    // a project of the old layout
    assert!(is_legacy_layout(true, false));
    assert!(has_project(false, true));
    assert_eq!(project_path(false, true), LEGACY_PROJECT_REL);
    assert_eq!(project_rel_on_disk(true, false), LEGACY_PROJECT_REL);
    assert_eq!(resolve_dir(false, false, OUTPUT, LEGACY_OUTPUT), OUTPUT);
    assert_eq!(resolve_dir(false, true, OUTPUT, LEGACY_OUTPUT), LEGACY_OUTPUT);
    // both present: the new one wins
    assert!(!is_legacy_layout(true, true));
    assert_eq!(project_path(true, true), PROJECT_REL);
}

#[test]
fn project_change_marks_s3_downstream_only() {
    let imp = impact_for(PROJECT_REL).expect("project.json has an impact");
    assert_eq!(imp.first_dirty, "S3");
    assert!(!imp.dirty.iter().any(|s| s == "S0" || s == "S1" || s == "S2"));
    assert_eq!(imp.dirty.len(), 9);
    assert_eq!(imp.dirty.first().unwrap(), "S3");
    assert_eq!(imp.dirty.last().unwrap(), "S11");
    assert!(imp.hint.contains("05_时间线工程/rebuild.py"));
    let legacy = impact_for(LEGACY_PROJECT_REL).expect("the old layout's project.json has an impact");
    assert_eq!(legacy.first_dirty, "S3");
    assert!(legacy.hint.contains("05_时间线工程/rebuild.py"));
}

#[test]
fn subtitle_ass_marks_only_s8() {
    let imp = impact_for(&format!("{}/subtitles.ass", OUTPUT)).expect("subtitles.ass has an impact");
    assert_eq!(imp.dirty, vec!["S8".to_string()]);
    assert!(!imp.dirty.iter().any(|s| s == "S3" || s == "S7" || s == "S9"));
    assert!(imp.hint.contains("06_成片输出/rebuild.py"));
    let legacy = impact_for("06_output/subtitles.ass").unwrap();
    assert_eq!(legacy.dirty, vec!["S8".to_string()]);
}

#[test]
fn cutlist_and_artboard_and_wordline() {
    let cutlist = impact_for(CUTLIST_APPLIED_REL).unwrap();
    assert_eq!(cutlist.first_dirty, "S2");
    assert!(cutlist.hint.contains("04_粗剪决策/rebuild.py"));
    let legacy_cutlist = impact_for("04_cut/cutlist.applied.json").unwrap();
    assert_eq!(legacy_cutlist.first_dirty, "S2");
    let card = impact_for(&format!("{}/artboard/cards/kc01.mp4", ASSETS)).unwrap();
    assert_eq!(card.first_dirty, "S4");
    assert!(card.hint.contains("03_创作素材/artboard/rebuild.py"));
    let legacy_card = impact_for("03_assets/artboard/cards/kc01.mp4").unwrap();
    assert_eq!(legacy_card.first_dirty, "S4");
    let wl = impact_for(WORDLINE_REL).unwrap();
    assert_eq!(wl.first_dirty, "S2");
}

#[test]
fn unknown_file_is_neutral() {
    assert!(impact_for(&format!("{}/brief.md", BRIEF)).is_none());
    assert!(impact_for("00_brief/brief.md").is_none());
    assert!(impact_for(".cutforge/rev").is_none());
    assert!(impact_for(&format!("{}/final_x_916.mp4", OUTPUT)).is_none());
    assert!(impact_for("06_output/final_x_916.mp4").is_none());
    assert!(impact_for("01_materials/a.mp4").is_none());
    assert!(impact_for("01_原始素材/a.mp4").is_none());
}

#[test]
fn stage_dirty_propagation() {
    let imp = impact_for(PROJECT_REL).unwrap();
    assert_eq!(imp.first_dirty, "S3");
    assert_eq!(imp.dirty.len(), 9);
    assert!(!imp.dirty.iter().any(|s| ["S0", "S1", "S2"].contains(&s.as_str())));
    assert!(imp.b8_guardrail);
    let sub = impact_for(&format!("{}/subtitles.ass", OUTPUT)).unwrap();
    assert_eq!(sub.dirty, vec!["S8".to_string()]);
    assert!(!sub.b8_guardrail);
    let cut = impact_for(CUTLIST_REL).unwrap();
    assert_eq!(cut.first_dirty, "S2");
    assert_eq!(cut.dirty.len(), 10);
    let card = impact_for("03_创作素材\\artboard\\cards\\kc01.mp4").unwrap();
    assert_eq!(card.first_dirty, "S4");
    assert!(impact_for(&format!("{}/a.mp4", MATERIALS)).is_none());
    assert!(impact_for(&format!("{}/verify.json", STATE)).is_none());
}

#[test]
fn stage_dirty_propagation_legacy_layout() {
    let imp = impact_for(LEGACY_PROJECT_REL).unwrap();
    assert_eq!(imp.first_dirty, "S3");
    assert!(imp.hint.contains("05_时间线工程/rebuild.py"));
    assert_eq!(impact_for("06_output/subtitles.ass").unwrap().dirty, vec!["S8".to_string()]);
    assert_eq!(impact_for(LEGACY_CUTLIST_REL).unwrap().first_dirty, "S2");
    let legacy_card = impact_for("03_assets\\artboard\\cards\\kc01.mp4").unwrap();
    assert_eq!(legacy_card.first_dirty, "S4");
    assert!(impact_for("_state/verify.json").is_none());
}

#[test]
fn backup_path_is_flattened() {
    let rel = backup_rel(PROJECT_REL, "20260918-120000");
    assert_eq!(rel, "_内部状态/backup/20260918-120000/05_时间线工程__project.json");
    assert_eq!(backup_rel("a\\b/c.json", "t"), "_内部状态/backup/t/a__b__c.json");
}

#[test]
fn lock_text_and_stale_takeover() {
    let text = lock_text(4242, 1_000_000);
    assert_eq!(text, "pid=4242 ts=1000000");
    assert_eq!(lock_ts(&text), Some(1_000_000));
    assert_eq!(lock_ts("pid=1"), None);
    assert!(!is_stale(&text, 1_050_000, 60_000));
    assert!(is_stale(&text, 1_060_001, 60_000));
    assert!(!is_stale(&text, 10, 60_000), "a lock from the future is not stale");
    assert!(matches!(after_conflict(Some(&text), 1_200_000, 60_000, 0, 0), LockStep::TakeOver));
    assert!(matches!(after_conflict(Some(&text), 1_000_001, 60_000, 0, 0), LockStep::GiveUp));
    assert!(matches!(after_conflict(None, 1_000_001, 60_000, 0, 1), LockStep::Retry));
    let g = LockGuard::new(".cutforge/lock".to_string());
    assert_eq!(g.path(), ".cutforge/lock");
}

fn walk(entries: &[(&str, u64, u64)]) -> Vec<(String, (u64, u64))> {
    entries.iter().map(|(p, l, m)| (p.to_string(), (*l, *m))).collect()
}

#[test]
fn watcher_reports_changes_and_honors_ignore_rules() {
    let mut w = Watcher::new("/p", 50, walk(&[("05_ir/project.json", 2, 1)]));
    assert!(w.poll(walk(&[("05_ir/project.json", 2, 1)]), 7).is_empty(), "an unchanged tree reports nothing");
    let ev = w.poll(
        walk(&[(".cutforge/oplog/20260918.jsonl", 3, 2), ("05_ir/project.json", 7, 2), ("05_ir/tmp.tmp", 1, 2)]),
        8,
    );
    assert_eq!(ev.len(), 1, "the op log and *.tmp are ignored: {ev:?}");
    assert_eq!(ev[0].kind, EventKind::Modified);
    assert!(ev[0].path.ends_with("project.json"));
    assert_eq!(ev[0].path, "/p/05_ir/project.json");
    assert_eq!(ev[0].ts_ms, 8);
    let ev = w.poll(walk(&[(".cutforge/oplog/20260918.jsonl", 3, 2), ("05_ir/tmp.tmp", 1, 2)]), 9);
    assert_eq!(ev.len(), 1, "only the removal of project.json: {ev:?}");
    assert_eq!(ev[0].kind, EventKind::Removed);
    assert!(ignored("_state/backup/x.json"));
    assert!(ignored("a\\.cutforge\\oplog\\x"));
    assert!(!ignored("05_ir/project.json"));
    assert_eq!(w.debounce_ms(), 50);
    assert_eq!(w.root(), "/p");
}

#[test]
fn sync_hub_long_poll_steps() {
    let mut hub = SyncHub::new();
    assert_eq!(hub.current(), 0);
    assert!(matches!(hub.wait_step(0, 100, 200), WaitStep::Wait(100)));
    assert!(matches!(hub.wait_step(0, 200, 200), WaitStep::TimedOut));
    assert_eq!(hub.bump(), 1);
    assert!(matches!(hub.wait_step(0, 100, 200), WaitStep::Ready(1)));
    assert!(matches!(hub.wait_step(1, 100, 200), WaitStep::Wait(100)));
}

#[test]
fn watcher_reports_each_changed_path_once() {
    let mut w = Watcher::new("/p", 50, walk(&[("a.json", 1, 1), ("b.json", 1, 1), ("c.json", 1, 1)]));
    let ev = w.poll(walk(&[("a.json", 2, 1), ("c.json", 1, 1), ("d.json", 5, 5)]), 3);
    let got: Vec<(String, EventKind)> = ev.iter().map(|e| (e.path.clone(), e.kind)).collect();
    assert_eq!(
        got,
        vec![
            ("/p/a.json".to_string(), EventKind::Modified),
            ("/p/d.json".to_string(), EventKind::Created),
            ("/p/b.json".to_string(), EventKind::Removed),
        ]
    );
}

#[test]
fn impact_reads_backslashes_as_slashes() {
    let slash = impact_for("05_ir/project.json").unwrap();
    let back = impact_for("05_ir\\project.json").expect("a Windows-style path has the same impact");
    assert_eq!(back.first_dirty, slash.first_dirty);
    assert_eq!(back.dirty, slash.dirty);
    assert_eq!(back.hint, slash.hint);
    assert_eq!(back.b8_guardrail, slash.b8_guardrail);
}
