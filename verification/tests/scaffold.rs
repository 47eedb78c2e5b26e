use cutforge::codec::project_from;
use cutforge::json::{json_to_text, Json};
use cutforge::model::TrackKind;
use cutforge::cli::parse_args;
use cutforge::scaffold::{new_project_flags, new_project_value};

fn field<'a>(j: &'a Json, k: &str) -> &'a Json {
    match j {
        Json::Obj(fs) => &fs.iter().find(|(n, _)| n == k).expect("field present").1,
        _ => panic!("not an object"),
    }
}

#[test]
fn empty_tracks_is_valid_minimal_ir() {
    let v = new_project_value("最小", 25, 1920, 1080, &[]).unwrap();
    match field(&v, "tracks") {
        Json::Arr(a) => assert_eq!(a.len(), 0, "tracks 可为空数组"),
        _ => panic!("tracks must be an array"),
    }
    let p = project_from(&v).unwrap();
    assert_eq!(p.next_track_id(TrackKind::Video), "V1", "空工程第一条视频轨 = V1");
}

#[test]
fn refuses_bad_enum() {
    let kinds = [TrackKind::Video];
    assert!(new_project_value("a", 90, 1080, 1920, &kinds).is_err());
    assert!(new_project_value("a", 30, 640, 480, &kinds).is_err());
}

#[test]
fn template_error_texts() {
    assert_eq!(
        new_project_value("a", 90, 1080, 1920, &[]).unwrap_err(),
        "fps 90 不在允许集 [24, 25, 30, 50, 60](契约枚举)"
    );
    assert_eq!(
        new_project_value("a", 30, 640, 480, &[]).unwrap_err(),
        "画幅 640x480 不在允许集 [1080, 1440, 1920](契约枚举)"
    );
    assert_eq!(new_project_value("   ", 30, 1080, 1920, &[]).unwrap_err(), "slug(工程标识)必填");
    // the frame rate is checked before the canvas
    assert!(new_project_value("", 90, 640, 480, &[]).unwrap_err().starts_with("fps 90"));
}

#[test]
fn template_numbers_tracks_per_kind() {
    let kinds = [TrackKind::Video, TrackKind::Audio, TrackKind::Video, TrackKind::Text];
    let v = new_project_value("  从零剪  ", 30, 1080, 1920, &kinds).unwrap();
    let p = project_from(&v).unwrap();
    let ids: Vec<&str> = p.tracks.iter().map(|t| t.id.as_str()).collect();
    assert_eq!(ids, vec!["V1", "A1", "V2", "T1"]);
    assert!(p.tracks.iter().all(|t| t.clips.is_empty()));
    assert_eq!(p.slug, "从零剪");
    assert_eq!(p.version, 1);
    assert_eq!(p.schema_version, "2.0.0");
    assert_eq!(p.notes, "notes.json");
    assert_eq!(p.fps, 30);
    assert_eq!((p.canvas.width, p.canvas.height), (1080, 1920));
    let text = json_to_text(&v);
    assert!(text.starts_with("{\"backends\":[\"ffmpeg\",\"cutforge\"],\"canvas\":{\"height\":1920,\"width\":1080},\"fps\":30,"));
}

#[test]
fn new_command_flags() {
    let argv: Vec<String> = ["proj", "--track", "video, text,,audio", "--fps", "25", "--width", "abc"]
        .iter()
        .map(|s| s.to_string())
        .collect();
    let a = parse_args(&argv);
    let r = new_project_flags(&a, Some("proj")).ok().unwrap();
    assert_eq!(r.slug, "proj");
    assert_eq!((r.fps, r.width, r.height), (25, 1080, 1920));
    assert_eq!(r.kinds, vec![TrackKind::Video, TrackKind::Text, TrackKind::Audio]);
    let argv: Vec<String> = ["proj", "--track", "video,drums", "--slug", "s"].iter().map(|s| s.to_string()).collect();
    match new_project_flags(&parse_args(&argv), None) {
        Err(m) => assert_eq!(m, "未知轨道类型: drums(允许 video/audio/text)"),
        Ok(_) => panic!("an unknown kind must be refused"),
    }
    let argv: Vec<String> = ["proj", "--track", " , "].iter().map(|s| s.to_string()).collect();
    let r = new_project_flags(&parse_args(&argv), None).ok().unwrap();
    assert_eq!(r.slug, "cutforge-project");
    assert_eq!(r.kinds, vec![TrackKind::Video, TrackKind::Audio], "a list naming no kind gives the default tracks");
    let argv: Vec<String> = ["proj", "--fps", "4294967296"].iter().map(|s| s.to_string()).collect();
    assert_eq!(new_project_flags(&parse_args(&argv), None).ok().unwrap().fps, 30, "too large for u32");
}
