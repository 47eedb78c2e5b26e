//! The canonical text of a document (member order ignored), the state hash
//! built on it, and the sample project and patch used to exercise the engine.

use vstd::prelude::*;
use std::hash::BuildHasher;
use crate::json::{Json, JNum, JVal, NumV, json_view, json_text, json_to_text, json_copy, seq_lt, str_lt, fields_view, arr_view, lemma_fields_view, lemma_arr_view};
use crate::codec::{project_json, project_to_json};
use crate::command::{ClipPatch, ClipPatchV};
use crate::engine::Engine;
use crate::model::{Backend, Canvas, Clip, ClipV, Project, ProjectV, Role, Track, TrackKind, TrackV};

verus! {

broadcast use {lemma_fields_view, lemma_arr_view};

/// First position in a key-sorted member list where `k` sorts strictly
/// before the member's key.
pub open spec fn ins_pos(s: Seq<(Seq<char>, JVal)>, k: Seq<char>, i: int) -> int
    decreases s.len() - i,
{
    if i < 0 || i >= s.len() {
        s.len() as int
    } else if seq_lt(k, s[i].0) {
        i
    } else {
        ins_pos(s, k, i + 1)
    }
}

/// Members ordered by key (code-point order); members with equal keys keep
/// their order.
pub open spec fn sort_fields(fs: Seq<(Seq<char>, JVal)>) -> Seq<(Seq<char>, JVal)>
    decreases fs.len(),
{
    if fs.len() == 0 {
        Seq::empty()
    } else {
        let s = sort_fields(fs.drop_last());
        s.insert(ins_pos(s, fs.last().0, 0), fs.last())
    }
}

/// The value with the members of every object put in key order.
pub open spec fn canon(j: JVal) -> JVal
    decreases j, 1int,
{
    match j {
        JVal::Arr(a) => JVal::Arr(canon_items(a)),
        JVal::Obj(fs) => JVal::Obj(sort_fields(canon_fields(fs))),
        _ => j,
    }
}

pub open spec fn canon_items(s: Seq<JVal>) -> Seq<JVal>
    decreases s, 0int,
{
    if s.len() == 0 {
        Seq::empty()
    } else {
        canon_items(s.drop_last()).push(canon(s.last()))
    }
}

pub open spec fn canon_fields(fs: Seq<(Seq<char>, JVal)>) -> Seq<(Seq<char>, JVal)>
    decreases fs, 0int,
{
    if fs.len() == 0 {
        Seq::empty()
    } else {
        canon_fields(fs.drop_last()).push((fs.last().0, canon(fs.last().1)))
    }
}

proof fn lemma_ins_pos_range(s: Seq<(Seq<char>, JVal)>, k: Seq<char>, i: int)
    requires
        0 <= i,
    ensures
        0 <= ins_pos(s, k, i) <= s.len(),
    decreases s.len() - i,
{
    if i < s.len() && !seq_lt(k, s[i].0) {
        lemma_ins_pos_range(s, k, i + 1);
    }
}

fn sorted_insert(out: &mut Vec<(String, Json)>, e: (String, Json))
    ensures
        fields_view(final(out)@) == fields_view(old(out)@).insert(
            ins_pos(fields_view(old(out)@), e.0@, 0),
            (e.0@, e.1@),
        ),
{
    let ghost s = fields_view(out@);
    let mut i: usize = 0;
    while i < out.len() && !str_lt(e.0.as_str(), out[i].0.as_str())
        invariant
            i <= out.len(),
            s == fields_view(out@),
            ins_pos(s, e.0@, 0) == ins_pos(s, e.0@, i as int),
        decreases out.len() - i,
    {
        i += 1;
    }
    let ghost ev = (e.0@, e.1@);
    out.insert(i, e);
    assert(fields_view(out@) =~= s.insert(i as int, ev));
}

fn canon_exec(j: &Json) -> (r: Json)
    ensures
        r@ == canon(j@),
    decreases j,
{
    match j {
        Json::Arr(a) => {
            let ghost av = arr_view(a@);
            let mut out: Vec<Json> = Vec::new();
            let mut i: usize = 0;
            assert(arr_view(out@) =~= canon_items(av.take(0)));
            while i < a.len()
                invariant
                    i <= a.len(),
                    *j == Json::Arr(*a),
                    av == arr_view(a@),
                    arr_view(out@) == canon_items(av.take(i as int)),
                decreases a.len() - i,
            {
                proof {
                    assert(decreases_to!(*j => (*j)->Arr_0));
                    assert(decreases_to!(*j => a@[i as int]));
                }
                let ghost before = arr_view(out@);
                let c = canon_exec(&a[i]);
                out.push(c);
                assert(av.take(i + 1).drop_last() =~= av.take(i as int));
                assert(arr_view(out@) =~= before.push(canon(av[i as int])));
                i += 1;
            }
            assert(av.take(a.len() as int) =~= av);
            assert(j@ == JVal::Arr(av));
            Json::Arr(out)
        },
        Json::Obj(fs) => {
            let ghost fv = fields_view(fs@);
            let mut out: Vec<(String, Json)> = Vec::new();
            let mut i: usize = 0;
            assert(fields_view(out@) =~= sort_fields(canon_fields(fv.take(0))));
            while i < fs.len()
                invariant
                    i <= fs.len(),
                    *j == Json::Obj(*fs),
                    fv == fields_view(fs@),
                    fields_view(out@) == sort_fields(canon_fields(fv.take(i as int))),
                decreases fs.len() - i,
            {
                proof {
                    assert(decreases_to!(*j => (*j)->Obj_0));
                    assert(decreases_to!(*j => fs@[i as int]));
                    assert(decreases_to!(*j => fs@[i as int].1));
                }
                let v = canon_exec(&fs[i].1);
                let k = fs[i].0.clone();
                let ghost prev = canon_fields(fv.take(i as int));
                assert(fv.take(i + 1).drop_last() =~= fv.take(i as int));
                assert(canon_fields(fv.take(i + 1)) == prev.push((k@, v@)));
                assert(prev.push((k@, v@)).drop_last() =~= prev);
                sorted_insert(&mut out, (k, v));
                i += 1;
            }
            assert(fv.take(fs.len() as int) =~= fv);
            assert(j@ == JVal::Obj(fv));
            Json::Obj(out)
        },
        _ => json_copy(j),
    }
}

/// The compact text of the value with every object's members in key order:
/// equal for documents that differ only in member order.
pub fn canonical_json(v: &Json) -> (r: String)
    ensures
        r@ == json_text(canon(v@)),
{
    let c = canon_exec(v);
    json_to_text(&c)
}

/// The hash of a text as the standard library's default hasher computes
/// it; depends on the text alone.
pub uninterp spec fn text_hash(s: Seq<char>) -> u64;

/// Hashes a string with `std::hash::DefaultHasher` (through
/// `BuildHasher::hash_one` on its default builder). That hasher is built
/// with fixed keys, so equal texts hash alike; which number comes out is
/// the standard library's business and is not stated.
#[verifier::external_body]
fn hash_text(s: &String) -> (r: u64)
    ensures
        r == text_hash(s@),
{
    std::hash::BuildHasherDefault::<std::collections::hash_map::DefaultHasher>::default().hash_one(s)
}

/// The state hash of a project: the hash of its canonical document text.
pub open spec fn project_hash(p: ProjectV) -> u64 {
    text_hash(json_text(canon(project_json(p))))
}

impl Engine {
    /// The hash of the current project's canonical text: engines whose
    /// projects are equal have equal hashes.
    pub fn state_hash(&self) -> (r: u64)
        ensures
            r == project_hash(self@.project),
    {
        let v = project_to_json(self.project());
        let text = canonical_json(&v);
        hash_text(&text)
    }
}

/// A clip with only the fields the sample project sets.
pub open spec fn sample_clip(
    id: Seq<char>,
    src: Seq<char>,
    start: u64,
    dur: u64,
    source_in: Option<u64>,
    role: Option<Role>,
    volume: Option<NumV>,
) -> ClipV {
    ClipV {
        id,
        source_hash: None,
        src: Some(src),
        start_ms: start,
        duration_ms: dur,
        source_in_ms: source_in,
        speed: None,
        volume,
        role,
        text: None,
        position: None,
        scale: None,
        reframe: None,
        motion: None,
        transition: None,
        overlay: None,
        opacity: None,
        fade: None,
        loop_: None,
        punch_in: None,
        freeze_ms: None,
    }
}

/// The sample project: a 1080x1920, 30 fps project with a video track V1
/// (V1-001 at 0 for 8400 ms from 12000 ms into a.mp4, voice, volume 1.0;
/// V1-002 at 8400 for 6200 ms) and an audio track A1 (A1-001, a sound
/// effect at 8400 for 400 ms, volume 0.8).
pub open spec fn sample_project_spec() -> ProjectV {
    ProjectV {
        version: 1,
        schema_version: "2.0.0"@,
        slug: "engine-样本"@,
        fps: 30,
        canvas: Canvas { width: 1080, height: 1920 },
        backends: seq![Backend::Ffmpeg],
        notes: "notes.json"@,
        tracks: seq![
            TrackV {
                id: "V1"@,
                kind: TrackKind::Video,
                name: None,
                clips: seq![
                    sample_clip("V1-001"@, "a.mp4"@, 0, 8400, Some(12000), Some(Role::Voice), Some(NumV::Float("1.0"@))),
                    sample_clip("V1-002"@, "a.mp4"@, 8400, 6200, None, None, None),
                ],
            },
            TrackV {
                id: "A1"@,
                kind: TrackKind::Audio,
                name: None,
                clips: seq![sample_clip("A1-001"@, "sfx.mp3"@, 8400, 400, None, Some(Role::Sfx), Some(NumV::Float("0.8"@)))],
            },
        ],
        bgm: None,
        outputs: None,
        markers: None,
        subtitle: None,
        join_crossfade_ms: None,
    }
}

fn mk_clip(
    id: &str,
    src: &str,
    start: u64,
    dur: u64,
    source_in: Option<u64>,
    role: Option<Role>,
    volume: Option<&str>,
) -> (r: Clip)
    ensures
        r@ == sample_clip(
            id@,
            src@,
            start,
            dur,
            source_in,
            role,
            match volume {
                Some(v) => Some(NumV::Float(v@)),
                None => None,
            },
        ),
{
    Clip {
        id: id.to_string(),
        source_hash: None,
        src: Some(src.to_string()),
        start_ms: start,
        duration_ms: dur,
        source_in_ms: source_in,
        speed: None,
        volume: match volume {
            Some(v) => Some(JNum::Float(v.to_string())),
            None => None,
        },
        role,
        text: None,
        position: None,
        scale: None,
        reframe: None,
        motion: None,
        transition: None,
        overlay: None,
        opacity: None,
        fade: None,
        loop_: None,
        punch_in: None,
        freeze_ms: None,
    }
}

/// The sample project used to exercise the engine.
pub fn sample_project() -> (r: Project)
    ensures
        r@ == sample_project_spec(),
{
    let mut v1: Vec<Clip> = Vec::new();
    v1.push(mk_clip("V1-001", "a.mp4", 0, 8400, Some(12000), Some(Role::Voice), Some("1.0")));
    v1.push(mk_clip("V1-002", "a.mp4", 8400, 6200, None, None, None));
    let mut a1: Vec<Clip> = Vec::new();
    a1.push(mk_clip("A1-001", "sfx.mp3", 8400, 400, None, Some(Role::Sfx), Some("0.8")));
    let mut tracks: Vec<Track> = Vec::new();
    tracks.push(Track { id: "V1".to_string(), kind: TrackKind::Video, name: None, clips: v1 });
    tracks.push(Track { id: "A1".to_string(), kind: TrackKind::Audio, name: None, clips: a1 });
    let mut backends: Vec<Backend> = Vec::new();
    backends.push(Backend::Ffmpeg);
    let p = Project {
        version: 1,
        schema_version: "2.0.0".to_string(),
        slug: "engine-样本".to_string(),
        fps: 30,
        canvas: Canvas { width: 1080, height: 1920 },
        backends,
        notes: "notes.json".to_string(),
        tracks,
        bgm: None,
        outputs: None,
        markers: None,
        subtitle: None,
        join_crossfade_ms: None,
    };
    assert(p@.tracks[0].clips =~= sample_project_spec().tracks[0].clips);
    assert(p@.tracks[1].clips =~= sample_project_spec().tracks[1].clips);
    assert(p@.tracks =~= sample_project_spec().tracks);
    assert(p@.backends =~= seq![Backend::Ffmpeg]);
    p
}

/// A patch that sets only the duration.
pub fn patch(duration_ms: u64) -> (r: ClipPatch)
    ensures
        r@ == (ClipPatchV {
            start_ms: None,
            duration_ms: Some(duration_ms),
            source_in_ms: None,
            speed: None,
            volume: None,
            opacity: None,
            scale: None,
            text: None,
            freeze_ms: None,
        }),
{
    ClipPatch {
        start_ms: None,
        duration_ms: Some(duration_ms),
        source_in_ms: None,
        speed: None,
        volume: None,
        opacity: None,
        scale: None,
        text: None,
        freeze_ms: None,
    }
}

} // verus!
