//! Tool requests: how a tool call's arguments become a command of the
//! engine, or the refusal the caller is answered with. Every channel
//! (stdio, HTTP, the script host) hands its calls to these functions.

use vstd::prelude::*;
use crate::json::{Json, JNum, JVal, NumV, fields_view, arr_view, find_key};
use crate::codec::lookup;
use crate::model::{Clip, ClipV, Project, ProjectV, TrackV, TrackKind, Role, opt_str, opt_num, opt_json, clip_pos, track_index, next_clip_id_spec};
use crate::command::{ClipPatch, ClipPatchV, Command};
use crate::engine::{ApplyOpts, ApplyOptsV, CommandV};
use crate::oplog::strings_view;
use crate::json::field_index;
use crate::mcp::{next_clip_id_for, count_sfx_near, count_in_tracks, sat_count};
use crate::text::{dec, push_dec};
use crate::json::str_eq;
use crate::scaffold::{NewProject, NewProjectV};
use crate::oplog::ActorKind;
use crate::engine::{OpReceipt, OpReceiptV};
use crate::mcp::{envelope, envelope_spec};
use crate::anchor::{Anchor, AnchorV, AnchorKind};
use crate::notes::{NoteState, NoteAuthor};

verus! {

// ---- reading arguments ----

/// The argument `k` of an argument object.
pub open spec fn arg(args: JVal, k: Seq<char>) -> Option<JVal> {
    match args {
        JVal::Obj(fs) => lookup(fs, k),
        _ => None,
    }
}

/// A string argument, if it is a string.
pub open spec fn as_str(v: Option<JVal>) -> Option<Seq<char>> {
    match v {
        Some(JVal::Str(s)) => Some(s),
        _ => None,
    }
}

/// A non-negative integer argument, if it is one.
pub open spec fn as_u64(v: Option<JVal>) -> Option<u64> {
    match v {
        Some(JVal::Num(NumV::PosInt(n))) => Some(n),
        _ => None,
    }
}

/// A number argument, if it is a number.
pub open spec fn as_num(v: Option<JVal>) -> Option<NumV> {
    match v {
        Some(JVal::Num(n)) => Some(n),
        _ => None,
    }
}

/// The strings among `items`, in order.
pub open spec fn str_items(items: Seq<JVal>) -> Seq<Seq<char>>
    decreases items.len(),
{
    if items.len() == 0 {
        seq![]
    } else {
        let rest = str_items(items.drop_last());
        match items.last() {
            JVal::Str(s) => rest.push(s),
            _ => rest,
        }
    }
}

/// The strings of an array argument; none where it is not an array.
pub open spec fn as_strs(v: Option<JVal>) -> Seq<Seq<char>> {
    match v {
        Some(JVal::Arr(items)) => str_items(items),
        _ => seq![],
    }
}

pub open spec fn ref_view(r: Option<&Json>) -> Option<JVal> {
    match r {
        Some(j) => Some(j@),
        None => None,
    }
}

/// The argument `k` of `args`.
pub fn get_arg<'a>(args: &'a Json, k: &str) -> (r: Option<&'a Json>)
    ensures
        ref_view(r) == arg(args@, k@),
{
    match args {
        Json::Obj(fs) => {
            proof {
                crate::json::lemma_fields_view(*fs);
            }
            match field_index(fs, k) {
                Some(i) => {
                    assert(fields_view(fs@)[i as int].1 == fs@[i as int].1@);
                    Some(&fs[i].1)
                },
                None => None,
            }
        },
        _ => None,
    }
}

/// The string argument `k`.
pub fn arg_str(args: &Json, k: &str) -> (r: Option<String>)
    ensures
        opt_str(r) == as_str(arg(args@, k@)),
{
    match get_arg(args, k) {
        Some(Json::Str(s)) => Some(s.clone()),
        _ => None,
    }
}

/// The non-negative integer argument `k`.
pub fn arg_u64(args: &Json, k: &str) -> (r: Option<u64>)
    ensures
        r == as_u64(arg(args@, k@)),
{
    match get_arg(args, k) {
        Some(Json::Num(JNum::PosInt(n))) => Some(*n),
        _ => None,
    }
}

/// The number argument `k`, as written.
pub fn arg_num(args: &Json, k: &str) -> (r: Option<JNum>)
    ensures
        opt_num(r) == as_num(arg(args@, k@)),
{
    match get_arg(args, k) {
        Some(Json::Num(n)) => Some(n.copy_num()),
        _ => None,
    }
}

/// The strings of the array argument `k`.
pub fn arg_strs(args: &Json, k: &str) -> (r: Vec<String>)
    ensures
        strings_view(r@) == as_strs(arg(args@, k@)),
{
    let mut out: Vec<String> = Vec::new();
    match get_arg(args, k) {
        Some(Json::Arr(items)) => {
            let ghost iv = arr_view(items@);
            proof {
                crate::json::lemma_arr_view(*items);
            }
            let mut i: usize = 0;
            while i < items.len()
                invariant
                    i <= items.len(),
                    iv == arr_view(items@),
                    iv.len() == items.len(),
                    strings_view(out@) == str_items(iv.take(i as int)),
                decreases items.len() - i,
            {
                assert(iv.take(i + 1).drop_last() =~= iv.take(i as int));
                assert(iv[i as int] == items@[i as int]@);
                let ghost before = out@;
                match &items[i] {
                    Json::Str(s) => {
                        out.push(s.clone());
                        assert(strings_view(out@) =~= strings_view(before).push(s@));
                    },
                    _ => {},
                }
                i += 1;
            }
            assert(iv.take(items.len() as int) =~= iv);
        },
        _ => {},
    }
    out
}

// ---- options and patches ----

/// The write options a call carries: its request id, summary, causing ops
/// and expected revision.
pub open spec fn opts_spec(args: JVal) -> ApplyOptsV {
    ApplyOptsV {
        op_id: None,
        request_id: as_str(arg(args, "requestId"@)),
        caused_by: as_strs(arg(args, "causedBy"@)),
        summary: as_str(arg(args, "summary"@)),
        expect_rev: as_u64(arg(args, "expectRev"@)),
        non_undoable: false,
    }
}

/// The write options of a call.
pub fn apply_opts_from(args: &Json) -> (r: ApplyOpts)
    ensures
        r@ == opts_spec(args@),
{
    ApplyOpts {
        op_id: None,
        request_id: arg_str(args, "requestId"),
        caused_by: arg_strs(args, "causedBy"),
        summary: arg_str(args, "summary"),
        expect_rev: arg_u64(args, "expectRev"),
        non_undoable: false,
    }
}

/// The clip patch a patch object describes; fields of the wrong type are
/// left out.
pub open spec fn patch_spec(p: JVal) -> ClipPatchV {
    ClipPatchV {
        start_ms: as_u64(arg(p, "startMs"@)),
        duration_ms: as_u64(arg(p, "durationMs"@)),
        source_in_ms: as_u64(arg(p, "sourceInMs"@)),
        speed: as_num(arg(p, "speed"@)),
        volume: as_num(arg(p, "volume"@)),
        opacity: as_num(arg(p, "opacity"@)),
        scale: as_num(arg(p, "scale"@)),
        text: as_str(arg(p, "text"@)),
        freeze_ms: as_u64(arg(p, "freezeMs"@)),
    }
}

/// The clip patch of a patch object.
pub fn patch_from(p: &Json) -> (r: ClipPatch)
    ensures
        r@ == patch_spec(p@),
{
    ClipPatch {
        start_ms: arg_u64(p, "startMs"),
        duration_ms: arg_u64(p, "durationMs"),
        source_in_ms: arg_u64(p, "sourceInMs"),
        speed: arg_num(p, "speed"),
        volume: arg_num(p, "volume"),
        opacity: arg_num(p, "opacity"),
        scale: arg_num(p, "scale"),
        text: arg_str(p, "text"),
        freeze_ms: arg_u64(p, "freezeMs"),
    }
}

// ---- write tools ----

/// A refusal: the answer's code and message.
pub open spec fn reject(code: Seq<char>, msg: Seq<char>) -> Result<CommandV, (Seq<char>, Seq<char>)> {
    Err((code, msg))
}

pub open spec fn pf(msg: Seq<char>) -> Result<CommandV, (Seq<char>, Seq<char>)> {
    reject("PRECONDITION_FAILED"@, msg)
}

pub open spec fn or_null(v: Option<JVal>) -> JVal {
    match v {
        Some(x) => x,
        None => JVal::Null,
    }
}

/// The id a new clip of track `tid` gets.
pub open spec fn next_id_in(p: ProjectV, tid: Seq<char>) -> Seq<char> {
    match track_index(p.tracks, tid) {
        Some(ti) => next_clip_id_spec(p.tracks[ti]),
        None => tid + "-999"@,
    }
}

/// A new clip with a source and a span, and nothing else set.
pub open spec fn new_clip_spec(id: Seq<char>, src: Seq<char>, start: u64, dur: u64) -> ClipV {
    ClipV {
        id: id,
        source_hash: None,
        src: Some(src),
        start_ms: start,
        duration_ms: dur,
        source_in_ms: None,
        speed: None,
        volume: None,
        role: None,
        text: None,
        position: None,
        scale: None,
        reframe: None,
        motion: None,
        transition: None,
        overlay: None,
        opacity: None,
        fade: None,
        loop_: None,
        punch_in: None,
        freeze_ms: None,
    }
}

/// The first track of kind `k` from index `i` on.
pub open spec fn first_kind_from(ts: Seq<TrackV>, k: TrackKind, i: int) -> Option<int>
    decreases ts.len() - i,
{
    if i < 0 || i >= ts.len() {
        None
    } else if ts[i].kind == k {
        Some(i)
    } else {
        first_kind_from(ts, k, i + 1)
    }
}

pub open spec fn no_patch() -> ClipPatchV {
    ClipPatchV {
        start_ms: None,
        duration_ms: None,
        source_in_ms: None,
        speed: None,
        volume: None,
        opacity: None,
        scale: None,
        text: None,
        freeze_ms: None,
    }
}

pub open spec fn duplicate_spec(a: JVal, p: ProjectV) -> Result<CommandV, (Seq<char>, Seq<char>)> {
    match (as_str(arg(a, "clipId"@)), as_u64(arg(a, "startMs"@))) {
        (Some(cid), Some(start)) => match clip_pos(p.tracks, cid) {
            None => pf("clip 不存在: "@ + cid),
            Some((sti, ci)) => {
                let to = match as_str(arg(a, "toTrack"@)) {
                    Some(t) => t,
                    None => p.tracks[sti].id,
                };
                match track_index(p.tracks, to) {
                    None => pf("track 不存在: "@ + to),
                    Some(ti) => if p.tracks[ti].kind != p.tracks[sti].kind {
                        reject("GUARD_FAILED"@, "跨 kind 复制拒绝"@)
                    } else {
                        Ok(
                            CommandV::ClipInsert {
                                to_track: to,
                                clip: ClipV {
                                    id: next_clip_id_spec(p.tracks[ti]),
                                    start_ms: start,
                                    ..p.tracks[sti].clips[ci]
                                },
                                request_id: as_str(arg(a, "requestId"@)),
                            },
                        )
                    },
                }
            },
        },
        _ => pf("缺 clipId/startMs"@),
    }
}

pub open spec fn overlay_spec(a: JVal, p: ProjectV) -> Result<CommandV, (Seq<char>, Seq<char>)> {
    let e = or_null(arg(a, "element"@));
    match (as_str(arg(a, "trackId"@)), as_str(arg(e, "src"@)), as_u64(arg(e, "atMs"@)), as_u64(arg(e, "durationMs"@))) {
        (Some(tid), Some(src), Some(at), Some(dur)) => {
            let ov = match arg(e, "overlay"@) {
                Some(JVal::Null) => None,
                other => other,
            };
            if !(ov matches Some(v) ==> v is Obj) {
                reject("SCHEMA_INVALID"@, "invalid type for field `overlay`"@)
            } else {
                Ok(
                    CommandV::ClipInsert {
                        to_track: tid,
                        clip: ClipV {
                            volume: Some(NumV::PosInt(0)),
                            overlay: ov,
                            ..new_clip_spec(next_id_in(p, tid), src, at, dur)
                        },
                        request_id: as_str(arg(a, "requestId"@)),
                    },
                )
            }
        },
        _ => pf("缺 trackId/element.src/atMs/durationMs"@),
    }
}

/// The sound-effect density guard's window: 15 s either side.
pub open spec fn sfx_window() -> u64 {
    15_000
}

pub open spec fn sfx_spec(a: JVal, p: ProjectV) -> Result<CommandV, (Seq<char>, Seq<char>)> {
    match (as_u64(arg(a, "tMs"@)), as_str(arg(a, "src"@))) {
        (Some(t), Some(src)) => {
            let n = sat_count(count_in_tracks(p.tracks, t, sfx_window()));
            if n >= 2 {
                reject("GUARD_FAILED"@, "音效密度超限:"@ + dec(t as nat) + "ms ±15s 内已有 "@ + dec(n) + " 个"@)
            } else {
                let tid = match first_kind_from(p.tracks, TrackKind::Audio, 0) {
                    Some(i) => p.tracks[i].id,
                    None => "A1"@,
                };
                let vol = match as_num(arg(a, "volume"@)) {
                    Some(v) => v,
                    None => NumV::Float("0.8"@),
                };
                Ok(
                    CommandV::ClipInsert {
                        to_track: tid,
                        clip: ClipV {
                            role: Some(Role::Sfx),
                            volume: Some(vol),
                            ..new_clip_spec(next_id_in(p, tid), src, t, 400)
                        },
                        request_id: as_str(arg(a, "requestId"@)),
                    },
                )
            }
        },
        _ => pf("缺 tMs/src"@),
    }
}

/// The command a write tool asks for, or the refusal it is answered with.
pub open spec fn write_spec(name: Seq<char>, a: JVal, p: ProjectV) -> Result<CommandV, (Seq<char>, Seq<char>)> {
    let cid = as_str(arg(a, "clipId"@));
    if name == "clip_update"@ {
        match cid {
            Some(c) => Ok(CommandV::ClipUpdate { clip_id: c, patch: patch_spec(or_null(arg(a, "patch"@))) }),
            None => pf("缺 clipId"@),
        }
    } else if name == "clip_split"@ {
        match (cid, as_u64(arg(a, "tMs"@))) {
            (Some(c), Some(t)) => Ok(CommandV::ClipSplit { clip_id: c, t_ms: t }),
            _ => pf("缺 clipId/tMs"@),
        }
    } else if name == "clip_delete"@ {
        match cid {
            Some(c) => Ok(CommandV::ClipDelete { clip_id: c }),
            None => pf("缺 clipId"@),
        }
    } else if name == "clip_move"@ {
        match (cid, as_u64(arg(a, "startMs"@))) {
            (Some(c), Some(s)) => Ok(
                CommandV::ClipMove { clip_id: c, new_start_ms: s, to_track: as_str(arg(a, "toTrack"@)) },
            ),
            _ => pf("缺 clipId/startMs"@),
        }
    } else if name == "clip_duplicate"@ {
        duplicate_spec(a, p)
    } else if name == "subtitle_set"@ {
        match cid {
            Some(c) => Ok(CommandV::ClipUpdate { clip_id: c, patch: ClipPatchV { text: as_str(arg(a, "text"@)), ..no_patch() } }),
            None => pf("缺 clipId"@),
        }
    } else if name == "subtitle_retime"@ {
        match cid {
            Some(c) => Ok(
                CommandV::ClipUpdate {
                    clip_id: c,
                    patch: ClipPatchV {
                        start_ms: as_u64(arg(a, "startMs"@)),
                        duration_ms: as_u64(arg(a, "durationMs"@)),
                        ..no_patch()
                    },
                },
            ),
            None => pf("缺 clipId"@),
        }
    } else if name == "overlay_add"@ {
        overlay_spec(a, p)
    } else if name == "sfx_add"@ {
        sfx_spec(a, p)
    } else {
        reject("INTERNAL"@, "工具已注册但未实现: "@ + name)
    }
}

pub open spec fn step_view(r: Result<Command, (String, String)>) -> Result<CommandV, (Seq<char>, Seq<char>)> {
    match r {
        Ok(c) => Ok(c@),
        Err(e) => Err((e.0@, e.1@)),
    }
}

/// Every track has room for another numbered clip.
pub open spec fn ids_room(p: ProjectV) -> bool {
    forall|t: int| 0 <= t < p.tracks.len() ==> (#[trigger] p.tracks[t]).clips.len() < 0x4000_0000_0000_0000
}

fn refuse(code: &str, msg: String) -> (r: Result<Command, (String, String)>)
    ensures
        step_view(r) == reject(code@, msg@),
{
    Err((code.to_string(), msg))
}

fn text_of(a: &str, b: &str) -> (r: String)
    ensures
        r@ == a@ + b@,
{
    let mut s = a.to_string();
    s.append(b);
    s
}

fn new_clip(id: String, src: String, start: u64, dur: u64) -> (r: Clip)
    ensures
        r@ == new_clip_spec(id@, src@, start, dur),
{
    Clip {
        id: id,
        source_hash: None,
        src: Some(src),
        start_ms: start,
        duration_ms: dur,
        source_in_ms: None,
        speed: None,
        volume: None,
        role: None,
        text: None,
        position: None,
        scale: None,
        reframe: None,
        motion: None,
        transition: None,
        overlay: None,
        opacity: None,
        fade: None,
        loop_: None,
        punch_in: None,
        freeze_ms: None,
    }
}

fn first_audio(project: &Project) -> (r: Option<usize>)
    ensures
        match r {
            Some(i) => first_kind_from(project@.tracks, TrackKind::Audio, 0) == Some(i as int) && i < project.tracks.len(),
            None => first_kind_from(project@.tracks, TrackKind::Audio, 0) is None,
        },
{
    let ghost ts = project@.tracks;
    let mut i: usize = 0;
    while i < project.tracks.len()
        invariant
            ts == project@.tracks,
            i <= ts.len(),
            first_kind_from(ts, TrackKind::Audio, 0) == first_kind_from(ts, TrackKind::Audio, i as int),
        decreases ts.len() - i,
    {
        assert(ts[i as int].kind == project.tracks@[i as int].kind);
        if project.tracks[i].kind == TrackKind::Audio {
            return Some(i);
        }
        i += 1;
    }
    None
}

fn duplicate_command(args: &Json, project: &Project) -> (r: Result<Command, (String, String)>)
    requires
        ids_room(project@),
    ensures
        step_view(r) == duplicate_spec(args@, project@),
{
    let cid = arg_str(args, "clipId");
    let start = arg_u64(args, "startMs");
    let (cid, start) = match (cid, start) {
        (Some(c), Some(s)) => (c, s),
        _ => return refuse("PRECONDITION_FAILED", String::from_str("缺 clipId/startMs")),
    };
    let (sti, ci) = match project.find_clip(cid.as_str()) {
        Some(pos) => pos,
        None => return refuse("PRECONDITION_FAILED", text_of("clip 不存在: ", cid.as_str())),
    };
    proof {
        crate::model::lemma_clip_pos_from(project@.tracks, cid@, 0);
    }
    let to = match arg_str(args, "toTrack") {
        Some(t) => t,
        None => project.tracks[sti].id.clone(),
    };
    let ti = match project.find_track(to.as_str()) {
        Some(i) => i,
        None => return refuse("PRECONDITION_FAILED", text_of("track 不存在: ", to.as_str())),
    };
    proof {
        crate::model::lemma_track_index_from(project@.tracks, to@, 0);
    }
    assert(project@.tracks[ti as int].kind == project.tracks@[ti as int].kind);
    assert(project@.tracks[sti as int].kind == project.tracks@[sti as int].kind);
    if project.tracks[ti].kind != project.tracks[sti].kind {
        return refuse("GUARD_FAILED", String::from_str("跨 kind 复制拒绝"));
    }
    assert(project@.tracks[ti as int].clips.len() == project.tracks@[ti as int].clips.len());
    let mut clip = project.tracks[sti].clips[ci].duplicate();
    clip.id = Project::next_clip_id(&project.tracks[ti]);
    clip.start_ms = start;
    Ok(Command::ClipInsert { to_track: to, clip: clip, request_id: arg_str(args, "requestId") })
}

fn overlay_command(args: &Json, project: &Project) -> (r: Result<Command, (String, String)>)
    requires
        ids_room(project@),
    ensures
        step_view(r) == overlay_spec(args@, project@),
{
    let null = Json::Null;
    let e = match get_arg(args, "element") {
        Some(e) => e,
        None => &null,
    };
    let tid = arg_str(args, "trackId");
    let src = arg_str(e, "src");
    let at = arg_u64(e, "atMs");
    let dur = arg_u64(e, "durationMs");
    let (tid, src, at, dur) = match (tid, src, at, dur) {
        (Some(t), Some(s), Some(a), Some(d)) => (t, s, a, d),
        _ => return refuse("PRECONDITION_FAILED", String::from_str("缺 trackId/element.src/atMs/durationMs")),
    };
    let ov = match get_arg(e, "overlay") {
        Some(j) => match j {
            Json::Null => None,
            Json::Obj(_) => Some(crate::json::json_copy(j)),
            _ => return refuse("SCHEMA_INVALID", String::from_str("invalid type for field `overlay`")),
        },
        None => None,
    };
    let id = next_clip_id_for(project, tid.as_str());
    let mut clip = new_clip(id, src, at, dur);
    clip.volume = Some(JNum::PosInt(0));
    clip.overlay = ov;
    Ok(Command::ClipInsert { to_track: tid, clip: clip, request_id: arg_str(args, "requestId") })
}

fn sfx_command(args: &Json, project: &Project) -> (r: Result<Command, (String, String)>)
    requires
        ids_room(project@),
    ensures
        step_view(r) == sfx_spec(args@, project@),
{
    let (t, src) = match (arg_u64(args, "tMs"), arg_str(args, "src")) {
        (Some(t), Some(s)) => (t, s),
        _ => return refuse("PRECONDITION_FAILED", String::from_str("缺 tMs/src")),
    };
    let n = count_sfx_near(project, t, 15_000);
    if n >= 2 {
        let mut m = String::from_str("音效密度超限:");
        push_dec(&mut m, t);
        m.append("ms ±15s 内已有 ");
        push_dec(&mut m, n as u64);
        m.append(" 个");
        return refuse("GUARD_FAILED", m);
    }
    let tid = match first_audio(project) {
        Some(i) => {
            assert(project@.tracks[i as int].id == project.tracks@[i as int].id@);
            project.tracks[i].id.clone()
        },
        None => String::from_str("A1"),
    };
    let id = next_clip_id_for(project, tid.as_str());
    let mut clip = new_clip(id, src, t, 400);
    clip.role = Some(Role::Sfx);
    clip.volume = Some(
        match arg_num(args, "volume") {
            Some(v) => v,
            None => JNum::Float(String::from_str("0.8")),
        },
    );
    Ok(Command::ClipInsert { to_track: tid, clip: clip, request_id: arg_str(args, "requestId") })
}

/// The command the write tool `name` asks for, read from its arguments
/// against the project, or the refusal (code and message) it is answered
/// with.
pub fn write_command(name: &str, args: &Json, project: &Project) -> (r: Result<Command, (String, String)>)
    requires
        ids_room(project@),
    ensures
        step_view(r) == write_spec(name@, args@, project@),
{
    let cid = arg_str(args, "clipId");
    if str_eq(name, "clip_update") {
        match cid {
            Some(c) => {
                let null = Json::Null;
                let p = match get_arg(args, "patch") {
                    Some(p) => p,
                    None => &null,
                };
                Ok(Command::ClipUpdate { clip_id: c, patch: patch_from(p) })
            },
            None => refuse("PRECONDITION_FAILED", String::from_str("缺 clipId")),
        }
    } else if str_eq(name, "clip_split") {
        match (cid, arg_u64(args, "tMs")) {
            (Some(c), Some(t)) => Ok(Command::ClipSplit { clip_id: c, t_ms: t }),
            _ => refuse("PRECONDITION_FAILED", String::from_str("缺 clipId/tMs")),
        }
    } else if str_eq(name, "clip_delete") {
        match cid {
            Some(c) => Ok(Command::ClipDelete { clip_id: c }),
            None => refuse("PRECONDITION_FAILED", String::from_str("缺 clipId")),
        }
    } else if str_eq(name, "clip_move") {
        match (cid, arg_u64(args, "startMs")) {
            (Some(c), Some(s)) => Ok(Command::ClipMove { clip_id: c, new_start_ms: s, to_track: arg_str(args, "toTrack") }),
            _ => refuse("PRECONDITION_FAILED", String::from_str("缺 clipId/startMs")),
        }
    } else if str_eq(name, "clip_duplicate") {
        duplicate_command(args, project)
    } else if str_eq(name, "subtitle_set") {
        match cid {
            Some(c) => {
                let mut patch = ClipPatch::default();
                patch.text = arg_str(args, "text");
                Ok(Command::ClipUpdate { clip_id: c, patch: patch })
            },
            None => refuse("PRECONDITION_FAILED", String::from_str("缺 clipId")),
        }
    } else if str_eq(name, "subtitle_retime") {
        match cid {
            Some(c) => {
                let mut patch = ClipPatch::default();
                patch.start_ms = arg_u64(args, "startMs");
                patch.duration_ms = arg_u64(args, "durationMs");
                Ok(Command::ClipUpdate { clip_id: c, patch: patch })
            },
            None => refuse("PRECONDITION_FAILED", String::from_str("缺 clipId")),
        }
    } else if str_eq(name, "overlay_add") {
        overlay_command(args, project)
    } else if str_eq(name, "sfx_add") {
        sfx_command(args, project)
    } else {
        refuse("INTERNAL", text_of("工具已注册但未实现: ", name))
    }
}

// ---- routing ----

/// Where a call goes before any workspace is opened.
pub enum ToolRoute {
    /// Answered at once with a refusal.
    Refuse { code: String, message: String },
    /// The static capability table; needs no project root.
    Capability,
    /// A render by the local back end, without opening the workspace.
    RenderLocal { root: String, ass: Option<String> },
    /// An asynchronous render run.
    RenderRun { root: String, ass: Option<String> },
    /// The progress of a render run.
    RenderProgress { run_id: String },
    /// A tool that works on the root without opening the workspace.
    Standalone { root: String },
    /// A tool on the opened workspace, read-only or under the exclusive lock.
    Workspace { root: String, readonly: bool },
}

pub enum ToolRouteV {
    Refuse { code: Seq<char>, message: Seq<char> },
    Capability,
    RenderLocal { root: Seq<char>, ass: Option<Seq<char>> },
    RenderRun { root: Seq<char>, ass: Option<Seq<char>> },
    RenderProgress { run_id: Seq<char> },
    Standalone { root: Seq<char> },
    Workspace { root: Seq<char>, readonly: bool },
}

impl View for ToolRoute {
    type V = ToolRouteV;
    open spec fn view(&self) -> ToolRouteV {
        match self {
            ToolRoute::Refuse { code, message } => ToolRouteV::Refuse { code: code@, message: message@ },
            ToolRoute::Capability => ToolRouteV::Capability,
            ToolRoute::RenderLocal { root, ass } => ToolRouteV::RenderLocal { root: root@, ass: opt_str(*ass) },
            ToolRoute::RenderRun { root, ass } => ToolRouteV::RenderRun { root: root@, ass: opt_str(*ass) },
            ToolRoute::RenderProgress { run_id } => ToolRouteV::RenderProgress { run_id: run_id@ },
            ToolRoute::Standalone { root } => ToolRouteV::Standalone { root: root@ },
            ToolRoute::Workspace { root, readonly } => ToolRouteV::Workspace { root: root@, readonly: *readonly },
        }
    }
}

/// Tools that work on the project root without opening the workspace.
pub open spec fn standalone_tool(n: Seq<char>) -> bool {
    n == "project_new"@ || n == "media_probe"@ || n == "media_browse"@ || n == "render_probe"@ || n
        == "stage_status"@
}

/// Where the call `name` with `a` goes; `registered` says whether the
/// registry knows the tool.
pub open spec fn route_spec(name: Seq<char>, a: JVal, registered: bool) -> ToolRouteV {
    if !registered {
        ToolRouteV::Refuse { code: "INTERNAL"@, message: "未知工具: "@ + name }
    } else if name == "capability_matrix"@ {
        ToolRouteV::Capability
    } else {
        match as_str(arg(a, "root"@)) {
            None => ToolRouteV::Refuse { code: "PRECONDITION_FAILED"@, message: "缺 root(工程目录)"@ },
            Some(root) => {
                let ass = as_str(arg(a, "ass"@));
                if name == "render"@ && as_str(arg(a, "backend"@)) == Some("cutforge"@) {
                    ToolRouteV::RenderLocal { root: root, ass: ass }
                } else if name == "render_run"@ {
                    ToolRouteV::RenderRun { root: root, ass: ass }
                } else if name == "render_progress"@ {
                    match as_str(arg(a, "runId"@)) {
                        Some(id) => ToolRouteV::RenderProgress { run_id: id },
                        None => ToolRouteV::Refuse { code: "PRECONDITION_FAILED"@, message: "缺 runId"@ },
                    }
                } else if standalone_tool(name) {
                    ToolRouteV::Standalone { root: root }
                } else {
                    ToolRouteV::Workspace { root: root, readonly: crate::mcp::readonly_tool(name) }
                }
            },
        }
    }
}

/// Queries never take the lock: every query tool with a root opens the
/// workspace read-only.
pub proof fn law_queries_open_readonly(name: Seq<char>, a: JVal)
    requires
        crate::mcp::readonly_tool(name),
        as_str(arg(a, "root"@)) is Some,
    ensures
        route_spec(name, a, true) == (ToolRouteV::Workspace { root: as_str(arg(a, "root"@))->0, readonly: true }),
{
    reveal_strlit("capability_matrix");
    assert("capability_matrix"@.len() == 17 && "capability_matrix"@[0] == 'c');
    reveal_strlit("render");
    assert("render"@.len() == 6 && "render"@[0] == 'r');
    reveal_strlit("render_run");
    assert("render_run"@.len() == 10 && "render_run"@[0] == 'r');
    reveal_strlit("render_progress");
    assert("render_progress"@.len() == 15 && "render_progress"@[0] == 'r');
    reveal_strlit("project_get");
    assert("project_get"@.len() == 11 && "project_get"@[0] == 'p');
    reveal_strlit("wordline_get");
    assert("wordline_get"@.len() == 12 && "wordline_get"@[0] == 'w');
    reveal_strlit("cutlist_get");
    assert("cutlist_get"@.len() == 11 && "cutlist_get"@[0] == 'c');
    reveal_strlit("notes_list");
    assert("notes_list"@.len() == 10 && "notes_list"@[0] == 'n');
    reveal_strlit("oplog_tail");
    assert("oplog_tail"@.len() == 10 && "oplog_tail"@[0] == 'o');
    reveal_strlit("conflict_list");
    assert("conflict_list"@.len() == 13 && "conflict_list"@[0] == 'c');
    reveal_strlit("timeline_get");
    assert("timeline_get"@.len() == 12 && "timeline_get"@[0] == 't');
    reveal_strlit("project_new");
    assert("project_new"@.len() == 11 && "project_new"@[0] == 'p');
    reveal_strlit("media_probe");
    assert("media_probe"@.len() == 11 && "media_probe"@[0] == 'm');
    reveal_strlit("media_browse");
    assert("media_browse"@.len() == 12 && "media_browse"@[0] == 'm');
    reveal_strlit("render_probe");
    assert("render_probe"@.len() == 12 && "render_probe"@[0] == 'r');
    reveal_strlit("stage_status");
    assert("stage_status"@.len() == 12 && "stage_status"@[0] == 's');
    assert("project_get"@[8] == 'g' && "project_new"@[8] == 'n');
}

/// Changes always take the lock: every tool whose answer counts as a change
/// of the session opens the workspace under the exclusive lock.
pub proof fn law_changes_open_exclusive(name: Seq<char>, a: JVal)
    requires
        crate::mcp::rev_mutation(name),
        as_str(arg(a, "root"@)) is Some,
    ensures
        route_spec(name, a, true) == (ToolRouteV::Workspace { root: as_str(arg(a, "root"@))->0, readonly: false }),
{
}

fn is_standalone(name: &str) -> (r: bool)
    ensures
        r == standalone_tool(name@),
{
    str_eq(name, "project_new") || str_eq(name, "media_probe") || str_eq(name, "media_browse") || str_eq(
        name,
        "render_probe",
    ) || str_eq(name, "stage_status")
}

/// Where the call `name` with `args` goes.
pub fn route_tool(name: &str, args: &Json, registered: bool) -> (r: ToolRoute)
    ensures
        r@ == route_spec(name@, args@, registered),
{
    if !registered {
        return ToolRoute::Refuse { code: String::from_str("INTERNAL"), message: text_of("未知工具: ", name) };
    }
    if str_eq(name, "capability_matrix") {
        return ToolRoute::Capability;
    }
    let root = match arg_str(args, "root") {
        Some(r) => r,
        None => {
            return ToolRoute::Refuse {
                code: String::from_str("PRECONDITION_FAILED"),
                message: String::from_str("缺 root(工程目录)"),
            }
        },
    };
    let ass = arg_str(args, "ass");
    let backend = arg_str(args, "backend");
    let local = match &backend {
        Some(b) => str_eq(b.as_str(), "cutforge"),
        None => false,
    };
    if str_eq(name, "render") && local {
        ToolRoute::RenderLocal { root: root, ass: ass }
    } else if str_eq(name, "render_run") {
        ToolRoute::RenderRun { root: root, ass: ass }
    } else if str_eq(name, "render_progress") {
        match arg_str(args, "runId") {
            Some(id) => ToolRoute::RenderProgress { run_id: id },
            None => ToolRoute::Refuse {
                code: String::from_str("PRECONDITION_FAILED"),
                message: String::from_str("缺 runId"),
            },
        }
    } else if is_standalone(name) {
        ToolRoute::Standalone { root: root }
    } else {
        ToolRoute::Workspace { root: root, readonly: crate::mcp::is_readonly_tool(name) }
    }
}

// ---- other arguments ----

/// How many undo or redo steps a call asks for: `batch`, 1 by default.
pub open spec fn batch_spec(a: JVal) -> u64 {
    match as_u64(arg(a, "batch"@)) {
        Some(n) => n,
        None => 1,
    }
}

pub fn batch_of(args: &Json) -> (r: u64)
    ensures
        r == batch_spec(args@),
{
    match arg_u64(args, "batch") {
        Some(n) => n,
        None => 1,
    }
}

/// The orchestration script a tool wraps.
pub open spec fn script_spec(name: Seq<char>) -> Option<Seq<char>> {
    if name == "stage_run"@ {
        Some("rs_run.py"@)
    } else if name == "stage_rebuild"@ {
        Some("rebuild.py"@)
    } else if name == "verify_run"@ {
        Some("rs_verify.py"@)
    } else if name == "sync_check"@ {
        Some("rs_sync.py"@)
    } else if name == "render"@ {
        Some("rs_render.py"@)
    } else if name == "export_jianying"@ {
        Some("rs_jy_draft.py"@)
    } else {
        None
    }
}

pub fn script_for(name: &str) -> (r: Option<&'static str>)
    ensures
        match r {
            Some(s) => script_spec(name@) == Some(s@),
            None => script_spec(name@) is None,
        },
{
    if str_eq(name, "stage_run") {
        Some("rs_run.py")
    } else if str_eq(name, "stage_rebuild") {
        Some("rebuild.py")
    } else if str_eq(name, "verify_run") {
        Some("rs_verify.py")
    } else if str_eq(name, "sync_check") {
        Some("rs_sync.py")
    } else if str_eq(name, "render") {
        Some("rs_render.py")
    } else if str_eq(name, "export_jianying") {
        Some("rs_jy_draft.py")
    } else {
        None
    }
}

/// The actor filter of an op-log query: `user`, `script`, any other string
/// for agents, none where absent.
pub open spec fn actor_filter_spec(a: JVal) -> Option<ActorKind> {
    match as_str(arg(a, "actor"@)) {
        Some(s) => Some(
            if s == "user"@ {
                ActorKind::User
            } else if s == "script"@ {
                ActorKind::Script
            } else {
                ActorKind::Agent
            },
        ),
        None => None,
    }
}

pub fn actor_filter(args: &Json) -> (r: Option<ActorKind>)
    ensures
        r == actor_filter_spec(args@),
{
    match arg_str(args, "actor") {
        Some(s) => Some(
            if str_eq(s.as_str(), "user") {
                ActorKind::User
            } else if str_eq(s.as_str(), "script") {
                ActorKind::Script
            } else {
                ActorKind::Agent
            },
        ),
        None => None,
    }
}

/// How many of the newest ops an op-log query returns: `limit`, 50 by
/// default.
pub open spec fn limit_spec(a: JVal) -> u64 {
    match as_u64(arg(a, "limit"@)) {
        Some(n) => n,
        None => 50,
    }
}

pub fn limit_of(args: &Json) -> (r: u64)
    ensures
        r == limit_spec(args@),
{
    match arg_u64(args, "limit") {
        Some(n) => n,
        None => 50,
    }
}

/// The last `n` items of `s` (all of them where there are fewer).
pub open spec fn last_n<T>(s: Seq<T>, n: u64) -> Seq<T> {
    if s.len() <= n {
        s
    } else {
        s.skip(s.len() - n)
    }
}

/// Keeps the last `n` items, in order.
pub fn keep_last<T>(v: Vec<T>, n: u64) -> (r: Vec<T>)
    ensures
        r@ == last_n(v@, n),
{
    let mut v = v;
    let len = v.len();
    if (len as u64) <= n {
        return v;
    }
    let ghost whole = v@;
    let start = len - (n as usize);
    let tail = v.split_off(start);
    assert(tail@ =~= whole.skip(whole.len() - n));
    tail
}

/// The note state named by a string, as the notes document writes it.
pub open spec fn note_state_spec(s: Seq<char>) -> Option<NoteState> {
    if s == "open"@ {
        Some(NoteState::Open)
    } else if s == "resolved"@ {
        Some(NoteState::Resolved)
    } else if s == "rejected"@ {
        Some(NoteState::Rejected)
    } else if s == "orphan"@ {
        Some(NoteState::Orphan)
    } else {
        None
    }
}

/// The filters of a notes listing: a state where `state` names one, and
/// `agent` or else user for `author`.
pub open spec fn notes_filter_spec(a: JVal) -> (Option<NoteState>, Option<NoteAuthor>) {
    let state = match as_str(arg(a, "state"@)) {
        Some(s) => note_state_spec(s),
        None => None,
    };
    let author = match as_str(arg(a, "author"@)) {
        Some(s) => Some(if s == "agent"@ { NoteAuthor::Agent } else { NoteAuthor::User }),
        None => None,
    };
    (state, author)
}

pub fn notes_filter(args: &Json) -> (r: (Option<NoteState>, Option<NoteAuthor>))
    ensures
        r == notes_filter_spec(args@),
{
    let state = match arg_str(args, "state") {
        Some(s) => {
            let s = s.as_str();
            if str_eq(s, "open") {
                Some(NoteState::Open)
            } else if str_eq(s, "resolved") {
                Some(NoteState::Resolved)
            } else if str_eq(s, "rejected") {
                Some(NoteState::Rejected)
            } else if str_eq(s, "orphan") {
                Some(NoteState::Orphan)
            } else {
                None
            }
        },
        None => None,
    };
    let author = match arg_str(args, "author") {
        Some(s) => Some(if str_eq(s.as_str(), "agent") { NoteAuthor::Agent } else { NoteAuthor::User }),
        None => None,
    };
    (state, author)
}

// ---- note tools ----

/// A call on the notes of the workspace.
pub enum NotesCall {
    Add { anchor: Anchor, body: String, author: NoteAuthor, tags: Vec<String>, request_id: Option<String> },
    Resolve { note_id: String, reply: String, op_ids: Vec<String> },
    Reject { note_id: String, reason: String },
}

pub enum NotesCallV {
    Add {
        anchor: AnchorV,
        body: Seq<char>,
        author: NoteAuthor,
        tags: Seq<Seq<char>>,
        request_id: Option<Seq<char>>,
    },
    Resolve { note_id: Seq<char>, reply: Seq<char>, op_ids: Seq<Seq<char>> },
    Reject { note_id: Seq<char>, reason: Seq<char> },
}

impl View for NotesCall {
    type V = NotesCallV;
    open spec fn view(&self) -> NotesCallV {
        match self {
            NotesCall::Add { anchor, body, author, tags, request_id } => NotesCallV::Add {
                anchor: anchor@,
                body: body@,
                author: *author,
                tags: strings_view(tags@),
                request_id: opt_str(*request_id),
            },
            NotesCall::Resolve { note_id, reply, op_ids } => NotesCallV::Resolve {
                note_id: note_id@,
                reply: reply@,
                op_ids: strings_view(op_ids@),
            },
            NotesCall::Reject { note_id, reason } => NotesCallV::Reject { note_id: note_id@, reason: reason@ },
        }
    }
}

/// The anchor kind a string names; clip for any other.
pub open spec fn anchor_kind_spec(s: Seq<char>) -> AnchorKind {
    if s == "track"@ {
        AnchorKind::Track
    } else if s == "time"@ {
        AnchorKind::Time
    } else if s == "word"@ {
        AnchorKind::Word
    } else if s == "subtitleCard"@ {
        AnchorKind::SubtitleCard
    } else {
        AnchorKind::Clip
    }
}

/// The anchor an anchor object describes: its kind (clip by default), its
/// target and its instant (0 by default).
pub open spec fn anchor_spec(an: JVal) -> AnchorV {
    AnchorV {
        kind: match as_str(arg(an, "kind"@)) {
            Some(k) => anchor_kind_spec(k),
            None => AnchorKind::Clip,
        },
        ref_: as_str(arg(an, "ref"@)),
        t_ms: match as_u64(arg(an, "tMs"@)) {
            Some(t) => t,
            None => 0,
        },
        span: None,
    }
}

pub open spec fn notes_call_spec(name: Seq<char>, a: JVal) -> Result<NotesCallV, (Seq<char>, Seq<char>)> {
    if name == "notes_add"@ {
        match (arg(a, "anchor"@), as_str(arg(a, "body"@))) {
            (Some(JVal::Obj(fs)), Some(body)) => Ok(
                NotesCallV::Add {
                    anchor: anchor_spec(JVal::Obj(fs)),
                    body: body,
                    author: if as_str(arg(a, "author"@)) == Some("agent"@) {
                        NoteAuthor::Agent
                    } else {
                        NoteAuthor::User
                    },
                    tags: as_strs(arg(a, "tags"@)),
                    request_id: as_str(arg(a, "requestId"@)),
                },
            ),
            _ => Err(("PRECONDITION_FAILED"@, "缺 anchor/body"@)),
        }
    } else if name == "notes_resolve"@ {
        match (as_str(arg(a, "noteId"@)), as_str(arg(a, "reply"@))) {
            (Some(id), Some(reply)) => Ok(
                NotesCallV::Resolve { note_id: id, reply: reply, op_ids: as_strs(arg(a, "opIds"@)) },
            ),
            _ => Err(("PRECONDITION_FAILED"@, "缺 noteId/reply"@)),
        }
    } else if name == "notes_reject"@ {
        match (as_str(arg(a, "noteId"@)), as_str(arg(a, "reason"@))) {
            (Some(id), Some(reason)) => Ok(NotesCallV::Reject { note_id: id, reason: reason }),
            _ => Err(("PRECONDITION_FAILED"@, "缺 noteId/reason"@)),
        }
    } else {
        Err(("INTERNAL"@, "工具已注册但未实现: "@ + name))
    }
}

pub open spec fn notes_view(r: Result<NotesCall, (String, String)>) -> Result<NotesCallV, (Seq<char>, Seq<char>)> {
    match r {
        Ok(c) => Ok(c@),
        Err(e) => Err((e.0@, e.1@)),
    }
}

fn anchor_from(an: &Json) -> (r: Anchor)
    ensures
        r@ == anchor_spec(an@),
{
    let kind = match arg_str(an, "kind") {
        Some(k) => {
            let k = k.as_str();
            if str_eq(k, "track") {
                AnchorKind::Track
            } else if str_eq(k, "time") {
                AnchorKind::Time
            } else if str_eq(k, "word") {
                AnchorKind::Word
            } else if str_eq(k, "subtitleCard") {
                AnchorKind::SubtitleCard
            } else {
                AnchorKind::Clip
            }
        },
        None => AnchorKind::Clip,
    };
    Anchor {
        kind: kind,
        ref_: arg_str(an, "ref"),
        t_ms: match arg_u64(an, "tMs") {
            Some(t) => t,
            None => 0,
        },
        span: None,
    }
}

fn pf_err<T>(msg: &str) -> (r: Result<T, (String, String)>)
    ensures
        r matches Err(e) && e.0@ == "PRECONDITION_FAILED"@ && e.1@ == msg@,
{
    Err((String::from_str("PRECONDITION_FAILED"), msg.to_string()))
}

/// The notes call `name` asks for, read from its arguments, or the refusal
/// (code and message) it is answered with.
pub fn notes_call(name: &str, args: &Json) -> (r: Result<NotesCall, (String, String)>)
    ensures
        notes_view(r) == notes_call_spec(name@, args@),
{
    if str_eq(name, "notes_add") {
        let an = get_arg(args, "anchor");
        let body = arg_str(args, "body");
        match (an, body) {
            (Some(an), Some(body)) => match an {
                Json::Obj(_) => {
                    let agent = match arg_str(args, "author") {
                        Some(s) => str_eq(s.as_str(), "agent"),
                        None => false,
                    };
                    proof {
                        reveal_strlit("agent");
                    }
                    Ok(
                        NotesCall::Add {
                            anchor: anchor_from(an),
                            body: body,
                            author: if agent { NoteAuthor::Agent } else { NoteAuthor::User },
                            tags: arg_strs(args, "tags"),
                            request_id: arg_str(args, "requestId"),
                        },
                    )
                },
                _ => pf_err("缺 anchor/body"),
            },
            _ => pf_err("缺 anchor/body"),
        }
    } else if str_eq(name, "notes_resolve") {
        match (arg_str(args, "noteId"), arg_str(args, "reply")) {
            (Some(id), Some(reply)) => Ok(NotesCall::Resolve { note_id: id, reply: reply, op_ids: arg_strs(args, "opIds") }),
            _ => pf_err("缺 noteId/reply"),
        }
    } else if str_eq(name, "notes_reject") {
        match (arg_str(args, "noteId"), arg_str(args, "reason")) {
            (Some(id), Some(reason)) => Ok(NotesCall::Reject { note_id: id, reason: reason }),
            _ => pf_err("缺 noteId/reason"),
        }
    } else {
        Err((String::from_str("INTERNAL"), text_of("工具已注册但未实现: ", name)))
    }
}

// ---- answers ----

/// The data of the answer to an applied change: its op ids, the revision
/// and whether it was a repeat that changed nothing.
pub open spec fn receipt_data(rec: OpReceiptV) -> JVal {
    JVal::Obj(
        seq![
            ("idempotent"@, JVal::Bool(rec.idempotent)),
            ("opIds"@, JVal::Arr(rec.op_ids.map_values(|s: Seq<char>| JVal::Str(s)))),
            ("rev"@, JVal::Num(NumV::PosInt(rec.rev))),
        ],
    )
}

/// The answer to an applied change.
pub fn receipt_envelope(rec: &OpReceipt) -> (r: Json)
    ensures
        r@ == envelope_spec(true, "OK"@, "已应用"@, receipt_data(rec@)),
{
    let mut ids: Vec<Json> = Vec::new();
    let mut i: usize = 0;
    while i < rec.op_ids.len()
        invariant
            i <= rec.op_ids.len(),
            arr_view(ids@) == strings_view(rec.op_ids@).take(i as int).map_values(|s: Seq<char>| JVal::Str(s)),
        decreases rec.op_ids.len() - i,
    {
        let ghost before = ids@;
        ids.push(Json::Str(rec.op_ids[i].clone()));
        assert(arr_view(ids@) =~= arr_view(before).push(JVal::Str(rec.op_ids@[i as int]@)));
        assert(strings_view(rec.op_ids@).take(i + 1).map_values(|s: Seq<char>| JVal::Str(s)) =~= strings_view(
            rec.op_ids@,
        ).take(i as int).map_values(|s: Seq<char>| JVal::Str(s)).push(JVal::Str(rec.op_ids@[i as int]@)));
        i += 1;
    }
    assert(strings_view(rec.op_ids@).take(rec.op_ids.len() as int) =~= strings_view(rec.op_ids@));
    let mut fs: Vec<(String, Json)> = Vec::new();
    fs.push(("idempotent".to_string(), Json::Bool(rec.idempotent)));
    let ghost iv = arr_view(ids@);
    fs.push(("opIds".to_string(), Json::Arr(ids)));
    fs.push(("rev".to_string(), Json::Num(JNum::PosInt(rec.rev))));
    proof {
        crate::json::lemma_fields_view(fs);
        crate::json::lemma_arr_view(fs@[1].1->Arr_0);
        assert(fields_view(fs@) =~= seq![
            ("idempotent"@, JVal::Bool(rec@.idempotent)),
            ("opIds"@, JVal::Arr(rec@.op_ids.map_values(|s: Seq<char>| JVal::Str(s)))),
            ("rev"@, JVal::Num(NumV::PosInt(rec@.rev))),
        ]);
    }
    envelope(true, "OK", "已应用", Json::Obj(fs))
}

// ---- project creation ----

/// What `{:?}` writes for a string: the string quoted, with the characters
/// that need it escaped.
pub uninterp spec fn debug_str(s: Seq<char>) -> Seq<char>;

/// `format!("{:?}", s)`: the string in debug notation.
#[verifier::external_body]
pub(crate) fn debug_quote(s: &str) -> (r: String)
    ensures
        r@ == debug_str(s@),
{
    format!("{:?}", s)
}

/// The track kind a list item names.
pub open spec fn item_kind(v: JVal) -> Option<TrackKind> {
    match v {
        JVal::Str(s) => if s == "video"@ {
            Some(TrackKind::Video)
        } else if s == "audio"@ {
            Some(TrackKind::Audio)
        } else if s == "text"@ {
            Some(TrackKind::Text)
        } else {
            None
        },
        _ => None,
    }
}

/// The refusal for a list item that names no track kind.
pub open spec fn bad_kind_msg(v: JVal) -> Seq<char> {
    "未知轨道类型: "@ + match v {
        JVal::Str(s) => "Some("@ + debug_str(s) + ")"@,
        _ => "None"@,
    } + "(允许 video/audio/text)"@
}

/// The kinds a track list names, or the refusal for its first bad item.
pub open spec fn kinds_spec(items: Seq<JVal>) -> Result<Seq<TrackKind>, Seq<char>>
    decreases items.len(),
{
    if items.len() == 0 {
        Ok(seq![])
    } else {
        match kinds_spec(items.drop_last()) {
            Err(m) => Err(m),
            Ok(ks) => match item_kind(items.last()) {
                Some(k) => Ok(ks.push(k)),
                None => Err(bad_kind_msg(items.last())),
            },
        }
    }
}

/// The settings `project_new` asks for: the slug (else the directory's
/// name, else "cutforge-project"), 30 fps and a 1080x1920 canvas by
/// default, and a video and an audio track where no list is given.
pub open spec fn new_project_spec(a: JVal, dir_name: Option<Seq<char>>) -> Result<NewProjectV, (Seq<char>, Seq<char>)> {
    let slug = match as_str(arg(a, "slug"@)) {
        Some(s) => s,
        None => match dir_name {
            Some(d) => d,
            None => "cutforge-project"@,
        },
    };
    let items = match arg(a, "tracks"@) {
        Some(JVal::Arr(items)) => items,
        _ => seq![JVal::Str("video"@), JVal::Str("audio"@)],
    };
    match kinds_spec(items) {
        Err(m) => Err(("PRECONDITION_FAILED"@, m)),
        Ok(ks) => Ok(
            NewProjectV {
                slug: slug,
                fps: match as_u64(arg(a, "fps"@)) {
                    Some(n) => n as u32,
                    None => 30,
                },
                width: match as_u64(arg(a, "canvasW"@)) {
                    Some(n) => n as u32,
                    None => 1080,
                },
                height: match as_u64(arg(a, "canvasH"@)) {
                    Some(n) => n as u32,
                    None => 1920,
                },
                kinds: ks,
            },
        ),
    }
}

fn kinds_from(items: &Vec<Json>) -> (r: Result<Vec<TrackKind>, String>)
    ensures
        match r {
            Ok(ks) => kinds_spec(arr_view(items@)) == Ok::<Seq<TrackKind>, Seq<char>>(ks@),
            Err(m) => kinds_spec(arr_view(items@)) == Err::<Seq<TrackKind>, Seq<char>>(m@),
        },
{
    let ghost iv = arr_view(items@);
    let mut ks: Vec<TrackKind> = Vec::new();
    let mut i: usize = 0;
    while i < items.len()
        invariant
            i <= items.len(),
            iv == arr_view(items@),
            iv.len() == items.len(),
            kinds_spec(iv.take(i as int)) == Ok::<Seq<TrackKind>, Seq<char>>(ks@),
        decreases items.len() - i,
    {
        assert(iv.take(i + 1).drop_last() =~= iv.take(i as int));
        assert(iv[i as int] == items@[i as int]@);
        let k = match &items[i] {
            Json::Str(s) => {
                if str_eq(s.as_str(), "video") {
                    Some(TrackKind::Video)
                } else if str_eq(s.as_str(), "audio") {
                    Some(TrackKind::Audio)
                } else if str_eq(s.as_str(), "text") {
                    Some(TrackKind::Text)
                } else {
                    None
                }
            },
            _ => None,
        };
        match k {
            Some(k) => ks.push(k),
            None => {
                let mut m = String::from_str("未知轨道类型: ");
                match &items[i] {
                    Json::Str(s) => {
                        m.append("Some(");
                        let d = debug_quote(s.as_str());
                        m.append(d.as_str());
                        m.append(")");
                    },
                    _ => m.append("None"),
                }
                m.append("(允许 video/audio/text)");
                proof {
                    assert(item_kind(iv[i as int]) is None);
                    assert(m@ == bad_kind_msg(iv[i as int]));
                    assert(iv.take(i + 1).last() == iv[i as int]);
                    assert(kinds_spec(iv.take(i + 1)) == Err::<Seq<TrackKind>, Seq<char>>(m@));
                    lemma_kinds_err_stays(iv, i as int + 1);
                }
                return Err(m);
            },
        }
        i += 1;
    }
    assert(iv.take(items.len() as int) =~= iv);
    Ok(ks)
}

/// An error at a prefix stays the error of every longer prefix.
proof fn lemma_kinds_err_stays(items: Seq<JVal>, n: int)
    requires
        0 <= n <= items.len(),
        kinds_spec(items.take(n)) is Err,
    ensures
        kinds_spec(items) == kinds_spec(items.take(n)),
    decreases items.len() - n,
{
    if n < items.len() {
        assert(items.take(n + 1).drop_last() =~= items.take(n));
        lemma_kinds_err_stays(items, n + 1);
    } else {
        assert(items.take(n) =~= items);
    }
}

/// The settings of a `project_new` call; `dir_name` is the name of the
/// project directory, where it has one.
pub fn new_project_request(args: &Json, dir_name: Option<&str>) -> (r: Result<NewProject, (String, String)>)
    ensures
        match r {
            Ok(p) => new_project_spec(args@, opt_ref_str(dir_name)) == Ok::<NewProjectV, (Seq<char>, Seq<char>)>(p@),
            Err(e) => new_project_spec(args@, opt_ref_str(dir_name)) == Err::<NewProjectV, (Seq<char>, Seq<char>)>(
                (e.0@, e.1@),
            ),
        },
{
    let slug = match arg_str(args, "slug") {
        Some(s) => s,
        None => match dir_name {
            Some(d) => d.to_string(),
            None => String::from_str("cutforge-project"),
        },
    };
    let default_items = vec![Json::Str(String::from_str("video")), Json::Str(String::from_str("audio"))];
    proof {
        crate::json::lemma_arr_view(default_items);
        assert(arr_view(default_items@) =~= seq![JVal::Str("video"@), JVal::Str("audio"@)]);
    }
    let items = match get_arg(args, "tracks") {
        Some(Json::Arr(items)) => {
            proof {
                crate::json::lemma_arr_view(*items);
            }
            items
        },
        _ => &default_items,
    };
    let kinds = match kinds_from(items) {
        Ok(ks) => ks,
        Err(m) => return Err((String::from_str("PRECONDITION_FAILED"), m)),
    };
    let fps = match arg_u64(args, "fps") {
        Some(n) => n as u32,
        None => 30,
    };
    let width = match arg_u64(args, "canvasW") {
        Some(n) => n as u32,
        None => 1080,
    };
    let height = match arg_u64(args, "canvasH") {
        Some(n) => n as u32,
        None => 1920,
    };
    Ok(NewProject { slug: slug, fps: fps, width: width, height: height, kinds: kinds })
}

pub open spec fn opt_ref_str(o: Option<&str>) -> Option<Seq<char>> {
    match o {
        Some(s) => Some(s@),
        None => None,
    }
}

// ---- adding media clips ----

/// The target of a `clip_add` call: its track (which must exist), its
/// source and its start.
pub open spec fn clip_add_target_spec(a: JVal, p: ProjectV) -> Result<(Seq<char>, Seq<char>, u64), (Seq<char>, Seq<char>)> {
    match (as_str(arg(a, "trackId"@)), as_str(arg(a, "src"@)), as_u64(arg(a, "startMs"@))) {
        (Some(tid), Some(src), Some(start)) => if track_index(p.tracks, tid) is None {
            Err(("PRECONDITION_FAILED"@, "track 不存在: "@ + tid))
        } else {
            Ok((tid, src, start))
        },
        _ => Err(("PRECONDITION_FAILED"@, "缺 trackId/src/startMs"@)),
    }
}

/// The track, source and start of a `clip_add` call, or its refusal.
pub fn clip_add_target(args: &Json, project: &Project) -> (r: Result<(String, String, u64), (String, String)>)
    ensures
        match r {
            Ok(t) => clip_add_target_spec(args@, project@) == Ok::<(Seq<char>, Seq<char>, u64), (Seq<char>, Seq<char>)>(
                (t.0@, t.1@, t.2),
            ),
            Err(e) => clip_add_target_spec(args@, project@) == Err::<(Seq<char>, Seq<char>, u64), (Seq<char>, Seq<char>)>(
                (e.0@, e.1@),
            ),
        },
{
    match (arg_str(args, "trackId"), arg_str(args, "src"), arg_u64(args, "startMs")) {
        (Some(tid), Some(src), Some(start)) => {
            if project.find_track(tid.as_str()).is_none() {
                return Err((String::from_str("PRECONDITION_FAILED"), text_of("track 不存在: ", tid.as_str())));
            }
            Ok((tid, src, start))
        },
        _ => Err((String::from_str("PRECONDITION_FAILED"), String::from_str("缺 trackId/src/startMs"))),
    }
}

/// The offset into the source a `clip_add` call gives, 0 by default.
pub open spec fn source_in_spec(a: JVal) -> u64 {
    match as_u64(arg(a, "sourceInMs"@)) {
        Some(n) => n,
        None => 0,
    }
}

pub fn source_in_of(args: &Json) -> (r: u64)
    ensures
        r == source_in_spec(args@),
{
    match arg_u64(args, "sourceInMs") {
        Some(n) => n,
        None => 0,
    }
}

/// The duration of a clip taken from a probed source: what remains after
/// the offset, at least 1 ms.
pub open spec fn probed_duration_spec(total_ms: u64, source_in: u64) -> u64 {
    if total_ms > source_in + 1 {
        (total_ms - source_in) as u64
    } else {
        1
    }
}

pub fn probed_duration(total_ms: u64, source_in: u64) -> (r: u64)
    ensures
        r == probed_duration_spec(total_ms, source_in),
{
    let rest = total_ms.saturating_sub(source_in);
    if rest > 1 {
        rest
    } else {
        1
    }
}

/// The insertion a `clip_add` call makes once its duration is known.
pub open spec fn clip_add_spec(a: JVal, p: ProjectV, tid: Seq<char>, src: Seq<char>, start: u64, dur: u64) -> CommandV {
    CommandV::ClipInsert {
        to_track: tid,
        clip: ClipV {
            source_in_ms: Some(source_in_spec(a)),
            volume: as_num(arg(a, "volume"@)),
            ..new_clip_spec(next_id_in(p, tid), src, start, dur)
        },
        request_id: as_str(arg(a, "requestId"@)),
    }
}

/// Whether every track has room for another numbered clip.
pub fn has_id_room(project: &Project) -> (r: bool)
    ensures
        r == ids_room(project@),
{
    let ghost ts = project@.tracks;
    let mut ti: usize = 0;
    while ti < project.tracks.len()
        invariant
            ts == project@.tracks,
            ti <= ts.len(),
            forall|t: int| 0 <= t < ti ==> (#[trigger] ts[t]).clips.len() < 0x4000_0000_0000_0000,
        decreases ts.len() - ti,
    {
        assert(ts[ti as int] == project.tracks@[ti as int]@);
        if project.tracks[ti].clips.len() as u64 >= 0x4000_0000_0000_0000u64 {
            assert(!(ts[ti as int].clips.len() < 0x4000_0000_0000_0000));
            return false;
        }
        ti += 1;
    }
    true
}

pub open spec fn guarded_write_spec(name: Seq<char>, args: JVal, p: ProjectV) -> Result<CommandV, (Seq<char>, Seq<char>)> {
    if ids_room(p) {
        write_spec(name, args, p)
    } else {
        reject("GUARD_FAILED"@, "片段数已达上限"@)
    }
}

/// The command a write tool asks for, refused with `GUARD_FAILED` while
/// some track is full.
pub fn guarded_write_command(name: &str, args: &Json, project: &Project) -> (r: Result<Command, (String, String)>)
    ensures
        step_view(r) == guarded_write_spec(name@, args@, project@),
{
    if has_id_room(project) {
        write_command(name, args, project)
    } else {
        refuse("GUARD_FAILED", "片段数已达上限".to_string())
    }
}

/// The insertion of a new media clip on track `tid`.
pub fn clip_add_command(args: &Json, project: &Project, tid: String, src: String, start: u64, dur: u64) -> (r: Command)
    requires
        ids_room(project@),
    ensures
        r@ == clip_add_spec(args@, project@, tid@, src@, start, dur),
{
    let id = next_clip_id_for(project, tid.as_str());
    let mut clip = new_clip(id, src, start, dur);
    clip.source_in_ms = Some(source_in_of(args));
    clip.volume = arg_num(args, "volume");
    Command::ClipInsert { to_track: tid, clip: clip, request_id: arg_str(args, "requestId") }
}

} // verus!
