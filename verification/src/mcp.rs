//! Pure parts of the command-channel server: tool classification, result
//! envelopes, JSON merge patches, clip-id and sound-effect helpers, and the
//! decoding of query parameters.

use vstd::prelude::*;
use crate::json::{Json, JNum, JVal, NumV, str_eq, json_text, json_to_text, find_key, fields_view};
use crate::model::{Project, ProjectV, Track, TrackV, Clip, ClipV, Role, track_index, next_clip_id_spec, clip_end_spec, kind_name, opt_json};
use crate::codec::{num_u, opt_u64_j, opt_num_j, opt_str_j, opt_role_j, opt_u64_json, opt_num_json, opt_str_json, opt_role_json, opt_json_copy};
use crate::json::arr_view;
use crate::engine::{obj_insert};
use crate::text::{numbered};
use vstd::string::StringSliceAdditionalSpecFns;

verus! {

/// Query tools: they open the workspace read-only, without the exclusive
/// lock.
pub open spec fn readonly_tool(n: Seq<char>) -> bool {
    n == "project_get"@ || n == "wordline_get"@ || n == "cutlist_get"@ || n == "notes_list"@ || n
        == "oplog_tail"@ || n == "conflict_list"@ || n == "timeline_get"@
}

pub fn is_readonly_tool(name: &str) -> (r: bool)
    ensures
        r == readonly_tool(name@),
{
    str_eq(name, "project_get") || str_eq(name, "wordline_get") || str_eq(name, "cutlist_get") || str_eq(
        name,
        "notes_list",
    ) || str_eq(name, "oplog_tail") || str_eq(name, "conflict_list") || str_eq(name, "timeline_get")
}

/// Tools whose successful answer counts as a change of the session: all but
/// the queries, the static and orchestration tools and project creation.
pub open spec fn rev_mutation(n: Seq<char>) -> bool {
    !(readonly_tool(n) || n == "capability_matrix"@ || n == "project_new"@ || n == "render"@ || n == "render_run"@
        || n == "render_progress"@ || n == "media_probe"@ || n == "media_browse"@ || n == "render_probe"@ || n
        == "stage_status"@)
}

pub fn produces_rev_mutation(name: &str) -> (r: bool)
    ensures
        r == rev_mutation(name@),
{
    !(is_readonly_tool(name) || str_eq(name, "capability_matrix") || str_eq(name, "project_new") || str_eq(
        name,
        "render",
    ) || str_eq(name, "render_run") || str_eq(name, "render_progress") || str_eq(name, "media_probe") || str_eq(
        name,
        "media_browse",
    ) || str_eq(name, "render_probe") || str_eq(name, "stage_status"))
}

/// The protocol's error codes.
pub fn codes() -> (r: [&'static str; 10])
    ensures
        r[0]@ == "OK"@ && r[1]@ == "CONFLICT"@ && r[2]@ == "SCHEMA_INVALID"@ && r[3]@ == "PRECONDITION_FAILED"@
            && r[4]@ == "GUARD_FAILED"@ && r[5]@ == "JIANYING_RUNNING"@ && r[6]@ == "NO_CONFIG"@ && r[7]@
            == "DEP_MISSING"@ && r[8]@ == "GREEN_SCREEN_INPUT"@ && r[9]@ == "INTERNAL"@,
{
    [
        "OK",
        "CONFLICT",
        "SCHEMA_INVALID",
        "PRECONDITION_FAILED",
        "GUARD_FAILED",
        "JIANYING_RUNNING",
        "NO_CONFIG",
        "DEP_MISSING",
        "GREEN_SCREEN_INPUT",
        "INTERNAL",
    ]
}

/// The code of a refusal message, by its prefix.
pub open spec fn reject_code_spec(msg: Seq<char>) -> Seq<char> {
    if crate::stage::starts_with(msg, "PRECONDITION_FAILED"@) {
        "PRECONDITION_FAILED"@
    } else if crate::stage::starts_with(msg, "CONFLICT"@) {
        "CONFLICT"@
    } else if crate::stage::starts_with(msg, "SCHEMA_INVALID"@) {
        "SCHEMA_INVALID"@
    } else if crate::stage::starts_with(msg, "GUARD_FAILED"@) {
        "GUARD_FAILED"@
    } else if crate::stage::starts_with(msg, "NOTHING_TO_"@) {
        "PRECONDITION_FAILED"@
    } else {
        "INTERNAL"@
    }
}

pub fn reject_code(msg: &str) -> (r: &'static str)
    ensures
        r@ == reject_code_spec(msg@),
{
    if crate::stage::starts_with_path(msg, "PRECONDITION_FAILED") {
        "PRECONDITION_FAILED"
    } else if crate::stage::starts_with_path(msg, "CONFLICT") {
        "CONFLICT"
    } else if crate::stage::starts_with_path(msg, "SCHEMA_INVALID") {
        "SCHEMA_INVALID"
    } else if crate::stage::starts_with_path(msg, "GUARD_FAILED") {
        "GUARD_FAILED"
    } else if crate::stage::starts_with_path(msg, "NOTHING_TO_") {
        "PRECONDITION_FAILED"
    } else {
        "INTERNAL"
    }
}

/// The result envelope of every tool: `{code, data, message, ok}`.
pub open spec fn envelope_spec(ok: bool, code: Seq<char>, message: Seq<char>, data: JVal) -> JVal {
    JVal::Obj(
        seq![("code"@, JVal::Str(code)), ("data"@, data), ("message"@, JVal::Str(message)), ("ok"@, JVal::Bool(ok))],
    )
}

pub fn envelope(ok: bool, code: &str, message: &str, data: Json) -> (r: Json)
    ensures
        r@ == envelope_spec(ok, code@, message@, data@),
{
    let mut fs: Vec<(String, Json)> = Vec::new();
    let ghost dv = data@;
    fs.push(("code".to_string(), Json::Str(code.to_string())));
    fs.push(("data".to_string(), data));
    fs.push(("message".to_string(), Json::Str(message.to_string())));
    fs.push(("ok".to_string(), Json::Bool(ok)));
    proof {
        crate::json::lemma_fields_view(fs);
        assert(fields_view(fs@) =~= seq![
            ("code"@, JVal::Str(code@)),
            ("data"@, dv),
            ("message"@, JVal::Str(message@)),
            ("ok"@, JVal::Bool(ok)),
        ]);
    }
    Json::Obj(fs)
}

/// The envelope of a refused change: its code chosen by the message.
pub fn reject_to_envelope(msg: String) -> (r: Json)
    ensures
        r@ == envelope_spec(false, reject_code_spec(msg@), msg@, JVal::Obj(Seq::empty())),
{
    let code = reject_code(msg.as_str());
    let empty: Vec<(String, Json)> = Vec::new();
    proof {
        crate::json::lemma_fields_view(empty);
        assert(fields_view(empty@) =~= Seq::<(Seq<char>, JVal)>::empty());
    }
    envelope(false, code, msg.as_str(), Json::Obj(empty))
}

pub open spec fn media_kind_spec(ext: Seq<char>) -> Seq<char> {
    if ext == "mp4"@ || ext == "m4v"@ || ext == "mov"@ || ext == "webm"@ || ext == "mkv"@ {
        "video"@
    } else if ext == "mp3"@ || ext == "wav"@ || ext == "m4a"@ || ext == "aac"@ || ext == "ogg"@ || ext == "opus"@
        || ext == "flac"@ {
        "audio"@
    } else {
        "image"@
    }
}

/// The kind of a media file by its extension.
pub fn media_kind(ext: &str) -> (r: &'static str)
    ensures
        r@ == media_kind_spec(ext@),
{
    if str_eq(ext, "mp4") || str_eq(ext, "m4v") || str_eq(ext, "mov") || str_eq(ext, "webm") || str_eq(ext, "mkv") {
        "video"
    } else if str_eq(ext, "mp3") || str_eq(ext, "wav") || str_eq(ext, "m4a") || str_eq(ext, "aac") || str_eq(ext, "ogg")
        || str_eq(ext, "opus") || str_eq(ext, "flac") {
        "audio"
    } else {
        "image"
    }
}

pub open spec fn mime_spec(ext: Seq<char>) -> Seq<char> {
    if ext == "mp4"@ || ext == "m4v"@ || ext == "mov"@ {
        "video/mp4"@
    } else if ext == "webm"@ {
        "video/webm"@
    } else if ext == "mkv"@ {
        "video/x-matroska"@
    } else if ext == "mp3"@ {
        "audio/mpeg"@
    } else if ext == "wav"@ {
        "audio/wav"@
    } else if ext == "m4a"@ || ext == "aac"@ {
        "audio/mp4"@
    } else if ext == "ogg"@ || ext == "opus"@ {
        "audio/ogg"@
    } else if ext == "flac"@ {
        "audio/flac"@
    } else if ext == "png"@ {
        "image/png"@
    } else if ext == "jpg"@ || ext == "jpeg"@ {
        "image/jpeg"@
    } else if ext == "gif"@ {
        "image/gif"@
    } else {
        "application/octet-stream"@
    }
}

/// The MIME type served for a file extension.
pub fn mime_of(ext: &str) -> (r: &'static str)
    ensures
        r@ == mime_spec(ext@),
{
    if str_eq(ext, "mp4") || str_eq(ext, "m4v") || str_eq(ext, "mov") {
        "video/mp4"
    } else if str_eq(ext, "webm") {
        "video/webm"
    } else if str_eq(ext, "mkv") {
        "video/x-matroska"
    } else if str_eq(ext, "mp3") {
        "audio/mpeg"
    } else if str_eq(ext, "wav") {
        "audio/wav"
    } else if str_eq(ext, "m4a") || str_eq(ext, "aac") {
        "audio/mp4"
    } else if str_eq(ext, "ogg") || str_eq(ext, "opus") {
        "audio/ogg"
    } else if str_eq(ext, "flac") {
        "audio/flac"
    } else if str_eq(ext, "png") {
        "image/png"
    } else if str_eq(ext, "jpg") || str_eq(ext, "jpeg") {
        "image/jpeg"
    } else if str_eq(ext, "gif") {
        "image/gif"
    } else {
        "application/octet-stream"
    }
}

/// The id a new clip of a track gets; for a missing track, `<track>-999`.
pub fn next_clip_id_for(project: &Project, track_id: &str) -> (r: String)
    requires
        forall|t: int| 0 <= t < project@.tracks.len() ==> (#[trigger] project@.tracks[t]).clips.len() < 0x4000_0000_0000_0000,
    ensures
        r@ == match track_index(project@.tracks, track_id@) {
            Some(ti) => next_clip_id_spec(project@.tracks[ti]),
            None => track_id@ + "-999"@,
        },
{
    match project.find_track(track_id) {
        Some(ti) => {
            proof {
                crate::model::lemma_track_index_from(project@.tracks, track_id@, 0);
                assert(project@.tracks[ti as int].clips.len() == project.tracks@[ti as int].clips.len());
            }
            Project::next_clip_id(&project.tracks[ti])
        },
        None => {
            let mut s = track_id.to_string();
            s.append("-999");
            s
        },
    }
}

/// Whether a sound-effect clip lies within `window` of the instant `t`.
pub open spec fn sfx_near(c: ClipV, t: u64, window: u64) -> bool {
    c.role == Some(Role::Sfx) && c.start_ms <= t + window && t <= clip_end_spec(c) + window
}

pub open spec fn count_in_clips(cs: Seq<ClipV>, t: u64, window: u64) -> nat
    decreases cs.len(),
{
    if cs.len() == 0 {
        0
    } else {
        count_in_clips(cs.drop_last(), t, window) + if sfx_near(cs.last(), t, window) { 1nat } else { 0nat }
    }
}

pub open spec fn count_in_tracks(ts: Seq<TrackV>, t: u64, window: u64) -> nat
    decreases ts.len(),
{
    if ts.len() == 0 {
        0
    } else {
        count_in_tracks(ts.drop_last(), t, window) + count_in_clips(ts.last().clips, t, window)
    }
}

pub open spec fn sat_count(n: nat) -> nat {
    if n > usize::MAX {
        usize::MAX as nat
    } else {
        n
    }
}

/// The number of sound-effect clips within `window` of `t_ms` (at most the
/// largest `usize`).
pub fn count_sfx_near(project: &Project, t_ms: u64, window: u64) -> (r: usize)
    ensures
        r as nat == sat_count(count_in_tracks(project@.tracks, t_ms, window)),
{
    let ghost ts = project@.tracks;
    let mut n: usize = 0;
    let mut ti: usize = 0;
    while ti < project.tracks.len()
        invariant
            ti <= project.tracks.len(),
            ts == project@.tracks,
            n as nat == sat_count(count_in_tracks(ts.take(ti as int), t_ms, window)),
        decreases project.tracks.len() - ti,
    {
        let track = &project.tracks[ti];
        let ghost cs = ts[ti as int].clips;
        let ghost base = count_in_tracks(ts.take(ti as int), t_ms, window);
        let mut ci: usize = 0;
        while ci < track.clips.len()
            invariant
                ci <= track.clips.len(),
                ti < project.tracks.len(),
                ts == project@.tracks,
                track == project.tracks@[ti as int],
                cs == ts[ti as int].clips,
                n as nat == sat_count(base + count_in_clips(cs.take(ci as int), t_ms, window)),
                base == count_in_tracks(ts.take(ti as int), t_ms, window),
            decreases track.clips.len() - ci,
        {
            let c = &track.clips[ci];
            assert(cs[ci as int] == c@);
            assert(cs.take(ci + 1).drop_last() =~= cs.take(ci as int));
            let end = Project::clip_end(c);
            let is_sfx = match c.role {
                Some(Role::Sfx) => true,
                _ => false,
            };
            let near = c.start_ms as u128 <= t_ms as u128 + window as u128 && t_ms as u128 <= end as u128
                + window as u128;
            if is_sfx && near {
                n = n.saturating_add(1);
            }
            ci += 1;
        }
        assert(cs.take(track.clips.len() as int) =~= cs);
        assert(ts.take(ti + 1).drop_last() =~= ts.take(ti as int));
        ti += 1;
    }
    assert(ts.take(project.tracks.len() as int) =~= ts);
    n
}

} // verus!

verus! {

pub open spec fn obj_remove(t: Seq<(Seq<char>, JVal)>, k: Seq<char>) -> Seq<(Seq<char>, JVal)> {
    match find_key(t, k) {
        Some(i) => t.remove(i),
        None => t,
    }
}

/// A JSON merge patch (RFC 7386): members of an object patch are merged
/// into an object target (null removes a member, objects merge
/// recursively); any other patch replaces the target.
pub open spec fn merge_patch_spec(target: JVal, patch: JVal) -> JVal
    decreases patch, 1int, 0int,
{
    match (target, patch) {
        (JVal::Obj(t), JVal::Obj(p)) => JVal::Obj(merge_members(t, p, 0)),
        _ => patch,
    }
}

pub open spec fn merge_members(t: Seq<(Seq<char>, JVal)>, p: Seq<(Seq<char>, JVal)>, i: int) -> Seq<(Seq<char>, JVal)>
    decreases p, 0int, p.len() - i,
{
    if i < 0 || i >= p.len() {
        t
    } else {
        let (k, v) = p[i];
        let t2 = if v is Null {
            obj_remove(t, k)
        } else {
            let nv = match crate::codec::lookup(t, k) {
                Some(e) => if e is Obj && v is Obj {
                    merge_patch_spec(e, v)
                } else {
                    v
                },
                None => v,
            };
            obj_insert(t, k, nv)
        };
        merge_members(t2, p, i + 1)
    }
}

fn obj_remove_exec(fs: Vec<(String, Json)>, k: &str) -> (r: Vec<(String, Json)>)
    ensures
        fields_view(r@) == obj_remove(fields_view(fs@), k@),
{
    let ghost fv = fields_view(fs@);
    let mut fs = fs;
    match crate::json::field_index(&fs, k) {
        Some(i) => {
            let _gone = fs.remove(i);
            assert(fields_view(fs@) =~= fv.remove(i as int));
        },
        None => {},
    }
    fs
}

/// Applies a JSON merge patch to a value.
pub fn merge_patch(target: Json, patch: &Json) -> (r: Json)
    ensures
        r@ == merge_patch_spec(target@, patch@),
    decreases patch,
{
    match (target, patch) {
        (Json::Obj(t), Json::Obj(p)) => {
            let ghost tv0 = fields_view(t@);
            let ghost pv = fields_view(p@);
            proof {
                crate::json::lemma_fields_view(t);
                crate::json::lemma_fields_view(*p);
            }
            let mut t = t;
            let mut i: usize = 0;
            while i < p.len()
                invariant
                    i <= p.len(),
                    *patch == Json::Obj(*p),
                    pv == fields_view(p@),
                    patch@ == JVal::Obj(pv),
                    merge_members(tv0, pv, 0) == merge_members(fields_view(t@), pv, i as int),
                decreases p.len() - i,
            {
                proof {
                    assert(decreases_to!(*patch => (*patch)->Obj_0));
                    assert(decreases_to!(*patch => p@[i as int].1));
                }
                let k = p[i].0.as_str();
                let v = &p[i].1;
                assert(pv[i as int] == (k@, v@));
                let ghost tv = fields_view(t@);
                match v {
                    Json::Null => {
                        t = obj_remove_exec(t, k);
                    },
                    _ => {
                        let nv = match crate::codec::get_field(&t, k) {
                            Some(e) => {
                                let both = match (e, v) {
                                    (Json::Obj(_), Json::Obj(_)) => true,
                                    _ => false,
                                };
                                if both {
                                    merge_patch(e.deep_copy(), v)
                                } else {
                                    v.deep_copy()
                                }
                            },
                            None => v.deep_copy(),
                        };
                        t = crate::engine::obj_insert_exec(t, k, nv);
                    },
                }
                i += 1;
            }
            let r = Json::Obj(t);
            proof {
                crate::json::lemma_fields_view(t);
            }
            r
        },
        (target, _) => {
            let r = patch.deep_copy();
            assert(merge_patch_spec(target@, patch@) == patch@) by {
                match (target@, patch@) {
                    (JVal::Obj(_), JVal::Obj(_)) => {
                        if let Json::Obj(_) = target {
                        } else {
                        }
                    },
                    _ => {},
                }
            }
            r
        },
    }
}

} // verus!

verus! {

/// A script argument as command-line text: strings as they are, numbers
/// and booleans as their JSON text; anything else is refused.
pub open spec fn script_arg_spec(v: JVal) -> Result<Seq<char>, Seq<char>> {
    match v {
        JVal::Str(s) => Ok(s),
        JVal::Num(n) => Ok(crate::json::num_text(n)),
        JVal::Bool(b) => Ok(if b { "true"@ } else { "false"@ }),
        _ => Err("不支持scriptArgs 元素类型: "@ + json_text(v)),
    }
}

pub fn script_arg_to_string(v: &Json) -> (r: Result<String, String>)
    ensures
        match r {
            Ok(s) => script_arg_spec(v@) == Ok::<Seq<char>, Seq<char>>(s@),
            Err(e) => script_arg_spec(v@) == Err::<Seq<char>, Seq<char>>(e@),
        },
{
    match v {
        Json::Str(s) => Ok(s.clone()),
        Json::Num(_) => {
            let t = json_to_text(v);
            Ok(t)
        },
        Json::Bool(b) => Ok(if *b {
            "true".to_string()
        } else {
            "false".to_string()
        }),
        _ => {
            let mut m = "不支持scriptArgs 元素类型: ".to_string();
            m.append(json_to_text(v).as_str());
            Err(m)
        },
    }
}

pub open spec fn hex_val(b: u8) -> Option<u8> {
    if 48 <= b <= 57 {
        Some((b - 48) as u8)
    } else if 97 <= b <= 102 {
        Some((b - 87) as u8)
    } else if 65 <= b <= 70 {
        Some((b - 55) as u8)
    } else {
        None
    }
}

/// Percent-decoding of bytes from position `i`: `%XX` with two hex digits
/// (and a byte after them, as the decoder requires) becomes one byte, any
/// other byte stays.
pub open spec fn pct_from(b: Seq<u8>, i: int) -> Seq<u8>
    decreases b.len() - i,
{
    if i < 0 || i >= b.len() {
        Seq::empty()
    } else if b[i] == 37 && i + 2 < b.len() && hex_val(b[i + 1]) is Some && hex_val(b[i + 2]) is Some {
        seq![(hex_val(b[i + 1])->0 * 16 + hex_val(b[i + 2])->0) as u8] + pct_from(b, i + 3)
    } else {
        seq![b[i]] + pct_from(b, i + 1)
    }
}

/// What `String::from_utf8_lossy` makes of bytes (invalid sequences become
/// U+FFFD).
pub uninterp spec fn utf8_lossy(b: Seq<u8>) -> Seq<char>;

/// `String::from_utf8_lossy(..).into_owned()`: the text of the bytes, with
/// each invalid UTF-8 sequence replaced by U+FFFD. The result is a function
/// of the bytes alone.
#[verifier::external_body]
pub(crate) fn from_utf8_lossy(b: Vec<u8>) -> (r: String)
    ensures
        r@ == utf8_lossy(b@),
{
    String::from_utf8_lossy(&b).into_owned()
}

fn hex_digit_value(b: u8) -> (r: Option<u8>)
    ensures
        r == hex_val(b),
{
    if 48 <= b && b <= 57 {
        Some(b - 48)
    } else if 97 <= b && b <= 102 {
        Some(b - 87)
    } else if 65 <= b && b <= 70 {
        Some(b - 55)
    } else {
        None
    }
}

/// Percent-decoding of a query parameter.
pub fn pct_decode(s: &str) -> (r: String)
    ensures
        r@ == utf8_lossy(pct_from(s.spec_bytes(), 0)),
{
    let b = s.as_bytes();
    let ghost bv = b@;
    let mut out: Vec<u8> = Vec::new();
    let mut i: usize = 0;
    while i < b.len()
        invariant
            i <= b.len(),
            bv == b@,
            bv == s.spec_bytes(),
            pct_from(bv, 0) == out@ + pct_from(bv, i as int),
        decreases b.len() - i,
    {
        let ghost prev = out@;
        if b[i] == 37 && b.len() - i > 2 {
            match (hex_digit_value(b[i + 1]), hex_digit_value(b[i + 2])) {
                (Some(hi), Some(lo)) => {
                    out.push(hi * 16 + lo);
                    assert(out@ + pct_from(bv, i + 3) =~= prev + pct_from(bv, i as int));
                    i += 3;
                    continue;
                },
                _ => {},
            }
        }
        out.push(b[i]);
        assert(out@ + pct_from(bv, i + 1) =~= prev + pct_from(bv, i as int));
        i += 1;
    }
    assert(pct_from(bv, i as int) =~= Seq::<u8>::empty());
    assert(out@ =~= pct_from(bv, 0));
    from_utf8_lossy(out)
}

pub open spec fn slug_char(c: char) -> char {
    if c == '<' || c == '>' || c == ':' || c == '"' || c == '/' || c == '\\' || c == '|' || c == '?' || c == '*' || (c
        as u32) < 0x20 {
        '_'
    } else {
        c
    }
}

/// A slug made safe as a file name: reserved and control characters become
/// underscores.
pub fn sanitize_slug(slug: &str) -> (r: String)
    ensures
        r@ == slug@.map_values(|c: char| slug_char(c)),
{
    let n = slug.unicode_len();
    let mut out = String::new();
    let mut i: usize = 0;
    while i < n
        invariant
            n == slug@.len(),
            i <= n,
            out@ == slug@.take(i as int).map_values(|c: char| slug_char(c)),
        decreases n - i,
    {
        let c = slug.get_char(i);
        let ghost prev = out@;
        proof {
            reveal_strlit("_");
        }
        if c == '<' || c == '>' || c == ':' || c == '"' || c == '/' || c == '\\' || c == '|' || c == '?' || c == '*' || (c
            as u32) < 0x20 {
            out.append("_");
        } else {
            out.append(slug.substring_char(i, i + 1));
        }
        assert(out@ =~= prev.push(slug_char(c)));
        assert(slug@.take(i + 1).map_values(|c: char| slug_char(c)) =~= slug@.take(i as int).map_values(
            |c: char| slug_char(c),
        ).push(slug_char(c)));
        i += 1;
    }
    assert(slug@.take(n as int) =~= slug@);
    out
}

/// The name of a tool definition: its "name" member where that is a string.
pub open spec fn tool_name(t: JVal) -> Option<Seq<char>> {
    match t {
        JVal::Obj(fs) => match crate::codec::lookup(fs, "name"@) {
            Some(JVal::Str(n)) => Some(n),
            _ => None,
        },
        _ => None,
    }
}

/// The tool definitions of a registry document: its "tools" array, if any.
pub open spec fn registry_tools(doc: JVal) -> Seq<JVal> {
    match doc {
        JVal::Obj(fs) => match crate::codec::lookup(fs, "tools"@) {
            Some(JVal::Arr(a)) => a,
            _ => Seq::empty(),
        },
        _ => Seq::empty(),
    }
}

/// The names of the tools `ts[..k]`, in order, skipping nameless ones.
pub open spec fn names_upto(ts: Seq<JVal>, k: int) -> Seq<Seq<char>>
    decreases k,
{
    if k <= 0 || k > ts.len() {
        Seq::empty()
    } else {
        match tool_name(ts[k - 1]) {
            Some(n) => names_upto(ts, k - 1).push(n),
            None => names_upto(ts, k - 1),
        }
    }
}

fn tool_name_exec(t: &Json) -> (r: Option<String>)
    ensures
        r matches Some(n) ==> tool_name(t@) == Some(n@),
        r is None ==> tool_name(t@) is None,
{
    match t {
        Json::Obj(fs) => match {
            proof {
                crate::json::lemma_fields_view(*fs);
            }
            crate::json::field_index(fs, "name")
        } {
            Some(i) => match &fs[i].1 {
                Json::Str(n) => Some(n.clone()),
                _ => None,
            },
            None => None,
        },
        _ => None,
    }
}

/// The names of the tools a registry document defines, in order.
pub fn tool_names(doc: &Json) -> (r: Vec<String>)
    ensures
        crate::oplog::strings_view(r@) == names_upto(registry_tools(doc@), registry_tools(doc@).len() as int),
{
    let mut out: Vec<String> = Vec::new();
    assert(crate::oplog::strings_view(out@) =~= Seq::<Seq<char>>::empty());
    match doc {
        Json::Obj(fs) => match {
            proof {
                crate::json::lemma_fields_view(*fs);
            }
            crate::json::field_index(fs, "tools")
        } {
            Some(k) => match &fs[k].1 {
                Json::Arr(a) => {
                    proof {
                        crate::json::lemma_arr_view(*a);
                    }
                    let ghost tv = crate::json::arr_view(a@);
                    assert(registry_tools(doc@) == tv);
                    let mut i: usize = 0;
                    while i < a.len()
                        invariant
                            i <= a.len(),
                            tv == crate::json::arr_view(a@),
                            crate::oplog::strings_view(out@) == names_upto(tv, i as int),
                        decreases a.len() - i,
                    {
                        let ghost before = crate::oplog::strings_view(out@);
                        assert(tv[i as int] == a@[i as int]@);
                        match tool_name_exec(&a[i]) {
                            Some(n) => {
                                out.push(n);
                                assert(crate::oplog::strings_view(out@) =~= before.push(tool_name(tv[i as int])->0));
                            },
                            None => {},
                        }
                        i += 1;
                    }
                    out
                },
                _ => out,
            },
            None => out,
        },
        _ => out,
    }
}

/// A value, or null where there is none.
pub open spec fn or_null_j(o: Option<JVal>) -> JVal {
    match o {
        Some(v) => v,
        None => JVal::Null,
    }
}

/// The timeline row of clip `c` of track `t`, with its end computed.
pub open spec fn row_spec(t: TrackV, c: ClipV) -> JVal {
    JVal::Obj(
        seq![
            ("durationMs"@, num_u(c.duration_ms)),
            ("endMs"@, JVal::Num(NumV::PosInt((c.start_ms + c.duration_ms) as u64))),
            ("fade"@, or_null_j(c.fade)),
            ("freezeMs"@, or_null_j(opt_u64_j(c.freeze_ms))),
            ("id"@, JVal::Str(c.id)),
            ("motion"@, or_null_j(c.motion)),
            ("opacity"@, or_null_j(opt_num_j(c.opacity))),
            ("overlay"@, or_null_j(c.overlay)),
            ("position"@, or_null_j(c.position)),
            ("punchIn"@, or_null_j(c.punch_in)),
            ("role"@, or_null_j(opt_role_j(c.role))),
            ("scale"@, or_null_j(opt_num_j(c.scale))),
            ("sourceInMs"@, or_null_j(opt_u64_j(c.source_in_ms))),
            ("speed"@, or_null_j(opt_num_j(c.speed))),
            ("src"@, or_null_j(opt_str_j(c.src))),
            ("startMs"@, num_u(c.start_ms)),
            ("text"@, or_null_j(opt_str_j(c.text))),
            ("track"@, JVal::Str(t.id)),
            ("trackKind"@, JVal::Str(kind_name(t.kind))),
            ("transition"@, or_null_j(c.transition)),
            ("volume"@, or_null_j(opt_num_j(c.volume))),
        ],
    )
}

/// The rows of all clips, track by track, each track's clips in order.
pub open spec fn projection_spec(ts: Seq<TrackV>) -> Seq<JVal>
    decreases ts.len(),
{
    if ts.len() == 0 {
        seq![]
    } else {
        projection_spec(ts.drop_last()) + ts.last().clips.map_values(|c: ClipV| row_spec(ts.last(), c))
    }
}

/// No clip ends past the largest instant.
pub open spec fn ends_fit(ts: Seq<TrackV>) -> bool {
    forall|t: int, c: int|
        0 <= t < ts.len() && 0 <= c < ts[t].clips.len() ==> #[trigger] ts[t].clips[c].start_ms + ts[t].clips[c].duration_ms
            <= u64::MAX
}

fn null_or(o: Option<Json>) -> (r: Json)
    ensures
        r@ == or_null_j(opt_json(o)),
{
    match o {
        Some(j) => j,
        None => Json::Null,
    }
}

fn row_of(t: &Track, c: &Clip) -> (r: Json)
    requires
        c.start_ms + c.duration_ms <= u64::MAX,
    ensures
        r@ == row_spec(t@, c@),
{
    let mut fs: Vec<(String, Json)> = Vec::new();
    fs.push(("durationMs".to_string(), Json::Num(JNum::PosInt(c.duration_ms))));
    fs.push(("endMs".to_string(), Json::Num(JNum::PosInt(c.start_ms + c.duration_ms))));
    fs.push(("fade".to_string(), null_or(opt_json_copy(&c.fade))));
    fs.push(("freezeMs".to_string(), null_or(opt_u64_json(c.freeze_ms))));
    fs.push(("id".to_string(), Json::Str(c.id.clone())));
    fs.push(("motion".to_string(), null_or(opt_json_copy(&c.motion))));
    fs.push(("opacity".to_string(), null_or(opt_num_json(&c.opacity))));
    fs.push(("overlay".to_string(), null_or(opt_json_copy(&c.overlay))));
    fs.push(("position".to_string(), null_or(opt_json_copy(&c.position))));
    fs.push(("punchIn".to_string(), null_or(opt_json_copy(&c.punch_in))));
    fs.push(("role".to_string(), null_or(opt_role_json(c.role))));
    fs.push(("scale".to_string(), null_or(opt_num_json(&c.scale))));
    fs.push(("sourceInMs".to_string(), null_or(opt_u64_json(c.source_in_ms))));
    fs.push(("speed".to_string(), null_or(opt_num_json(&c.speed))));
    fs.push(("src".to_string(), null_or(opt_str_json(&c.src))));
    fs.push(("startMs".to_string(), Json::Num(JNum::PosInt(c.start_ms))));
    fs.push(("text".to_string(), null_or(opt_str_json(&c.text))));
    fs.push(("track".to_string(), Json::Str(t.id.clone())));
    fs.push(("trackKind".to_string(), Json::Str(t.kind.kind_json().to_string())));
    fs.push(("transition".to_string(), null_or(opt_json_copy(&c.transition))));
    fs.push(("volume".to_string(), null_or(opt_num_json(&c.volume))));
    proof {
        crate::json::lemma_fields_view(fs);
        let cv = c@;
        let tv = t@;
        assert(fields_view(fs@) =~= seq![
            ("durationMs"@, num_u(cv.duration_ms)),
            ("endMs"@, JVal::Num(NumV::PosInt((cv.start_ms + cv.duration_ms) as u64))),
            ("fade"@, or_null_j(cv.fade)),
            ("freezeMs"@, or_null_j(opt_u64_j(cv.freeze_ms))),
            ("id"@, JVal::Str(cv.id)),
            ("motion"@, or_null_j(cv.motion)),
            ("opacity"@, or_null_j(opt_num_j(cv.opacity))),
            ("overlay"@, or_null_j(cv.overlay)),
            ("position"@, or_null_j(cv.position)),
            ("punchIn"@, or_null_j(cv.punch_in)),
            ("role"@, or_null_j(opt_role_j(cv.role))),
            ("scale"@, or_null_j(opt_num_j(cv.scale))),
            ("sourceInMs"@, or_null_j(opt_u64_j(cv.source_in_ms))),
            ("speed"@, or_null_j(opt_num_j(cv.speed))),
            ("src"@, or_null_j(opt_str_j(cv.src))),
            ("startMs"@, num_u(cv.start_ms)),
            ("text"@, or_null_j(opt_str_j(cv.text))),
            ("track"@, JVal::Str(tv.id)),
            ("trackKind"@, JVal::Str(kind_name(tv.kind))),
            ("transition"@, or_null_j(cv.transition)),
            ("volume"@, or_null_j(opt_num_j(cv.volume))),
        ]);
    }
    Json::Obj(fs)
}

/// The timeline as rows, one per clip: the clip's fields a viewer needs,
/// its track and track kind, and its end (start plus duration) computed
/// here so that no client does timeline arithmetic.
pub fn timeline_projection(project: &Project) -> (r: Vec<Json>)
    requires
        ends_fit(project@.tracks),
    ensures
        arr_view(r@) == projection_spec(project@.tracks),
{
    let ghost ts = project@.tracks;
    let mut rows: Vec<Json> = Vec::new();
    let mut ti: usize = 0;
    while ti < project.tracks.len()
        invariant
            ts == project@.tracks,
            ends_fit(ts),
            ti <= ts.len(),
            arr_view(rows@) == projection_spec(ts.take(ti as int)),
        decreases ts.len() - ti,
    {
        let t = &project.tracks[ti];
        let ghost tv = ts[ti as int];
        let ghost base = arr_view(rows@);
        assert(tv == t@);
        let mut ci: usize = 0;
        while ci < t.clips.len()
            invariant
                ts == project@.tracks,
                ends_fit(ts),
                ti < ts.len(),
                t == project.tracks@[ti as int],
                tv == ts[ti as int],
                tv == t@,
                ci <= t.clips.len(),
                arr_view(rows@) == base + tv.clips.take(ci as int).map_values(|c: ClipV| row_spec(tv, c)),
            decreases t.clips.len() - ci,
        {
            assert(tv.clips[ci as int] == t.clips@[ci as int]@);
            assert(ts[ti as int].clips[ci as int].start_ms + ts[ti as int].clips[ci as int].duration_ms <= u64::MAX);
            let ghost before = rows@;
            rows.push(row_of(t, &t.clips[ci]));
            assert(arr_view(rows@) =~= arr_view(before).push(row_spec(tv, tv.clips[ci as int])));
            assert(tv.clips.take(ci + 1).map_values(|c: ClipV| row_spec(tv, c)) =~= tv.clips.take(ci as int).map_values(
                |c: ClipV| row_spec(tv, c),
            ).push(row_spec(tv, tv.clips[ci as int])));
            ci += 1;
        }
        assert(tv.clips.take(t.clips.len() as int) =~= tv.clips);
        assert(ts.take(ti + 1).drop_last() =~= ts.take(ti as int));
        ti += 1;
    }
    assert(ts.take(ts.len() as int) =~= ts);
    rows
}

/// Whether every clip's end fits in 64 bits.
pub fn ends_fit_all(project: &Project) -> (r: bool)
    ensures
        r == ends_fit(project@.tracks),
{
    let ghost ts = project@.tracks;
    let mut ti: usize = 0;
    while ti < project.tracks.len()
        invariant
            ts == project@.tracks,
            ti <= ts.len(),
            forall|t: int, c: int|
                0 <= t < ti && 0 <= c < ts[t].clips.len() ==> #[trigger] ts[t].clips[c].start_ms
                    + ts[t].clips[c].duration_ms <= u64::MAX,
        decreases ts.len() - ti,
    {
        let t = &project.tracks[ti];
        assert(ts[ti as int] == t@);
        let mut ci: usize = 0;
        while ci < t.clips.len()
            invariant
                ts == project@.tracks,
                ti < ts.len(),
                t == project.tracks@[ti as int],
                ts[ti as int] == t@,
                ci <= t.clips.len(),
                forall|t2: int, c: int|
                    0 <= t2 < ti && 0 <= c < ts[t2].clips.len() ==> #[trigger] ts[t2].clips[c].start_ms
                        + ts[t2].clips[c].duration_ms <= u64::MAX,
                forall|c: int|
                    0 <= c < ci ==> #[trigger] ts[ti as int].clips[c].start_ms + ts[ti as int].clips[c].duration_ms
                        <= u64::MAX,
            decreases t.clips.len() - ci,
        {
            assert(ts[ti as int].clips[ci as int] == t.clips@[ci as int]@);
            if t.clips[ci].start_ms.checked_add(t.clips[ci].duration_ms).is_none() {
                assert(!(ts[ti as int].clips[ci as int].start_ms + ts[ti as int].clips[ci as int].duration_ms
                    <= u64::MAX));
                return false;
            }
            ci += 1;
        }
        ti += 1;
    }
    true
}

/// The timeline projection, or `None` when some clip ends past the largest
/// instant.
pub fn timeline_checked(project: &Project) -> (r: Option<Vec<Json>>)
    ensures
        r is Some <==> ends_fit(project@.tracks),
        r matches Some(v) ==> arr_view(v@) == projection_spec(project@.tracks),
{
    if ends_fit_all(project) {
        Some(timeline_projection(project))
    } else {
        None
    }
}

} // verus!

verus! {

pub open spec fn is_path_sep(c: char) -> bool {
    c == '/' || c == '\\'
}

/// The segments of `s` between `/` or `\` separators (`cur` is the
/// segment read so far and `acc` the segments before it).
pub open spec fn path_segments(s: Seq<char>, cur: Seq<char>, acc: Seq<Seq<char>>) -> Seq<Seq<char>>
    decreases s.len(),
{
    if s.len() == 0 {
        acc.push(cur)
    } else if is_path_sep(s[0]) {
        path_segments(s.drop_first(), Seq::empty(), acc.push(cur))
    } else {
        path_segments(s.drop_first(), cur.push(s[0]), acc)
    }
}

/// What a relative path inside the project is checked for before it is
/// looked up: it is not empty, not absolute (it does not start with `/`),
/// and no segment is `..`.
pub open spec fn rel_path_verdict(rel: Seq<char>) -> Result<(), Seq<char>> {
    if rel.len() == 0 {
        Err("路径为空"@)
    } else if rel[0] == '/' || path_segments(rel, Seq::empty(), Seq::empty()).contains(".."@) {
        Err("非法路径"@)
    } else {
        Ok(())
    }
}

fn is_dotdot(s: &str) -> (r: bool)
    ensures
        r == (s@ == ".."@),
{
    proof {
        reveal_strlit("..");
    }
    let r = s.unicode_len() == 2 && s.get_char(0) == '.' && s.get_char(1) == '.';
    if r {
        assert(s@ =~= ".."@);
    }
    r
}

/// The check of a project-relative path before it is looked up on disk.
pub fn check_rel_path(rel: &str) -> (r: Result<(), &'static str>)
    ensures
        match r {
            Ok(()) => rel_path_verdict(rel@) is Ok,
            Err(m) => rel_path_verdict(rel@) == Err::<(), Seq<char>>(m@),
        },
{
    let n = rel.unicode_len();
    if n == 0 {
        return Err("路径为空");
    }
    if rel.get_char(0) == '/' {
        return Err("非法路径");
    }
    let mut acc: Vec<String> = Vec::new();
    let mut cur = String::new();
    let mut i: usize = 0;
    assert(rel@.skip(0) =~= rel@);
    assert(crate::oplog::strings_view(acc@) =~= Seq::<Seq<char>>::empty());
    assert(cur@ =~= Seq::<char>::empty());
    while i < n
        invariant
            n == rel@.len(),
            i <= n,
            path_segments(rel@, Seq::empty(), Seq::empty()) == path_segments(
                rel@.skip(i as int),
                cur@,
                crate::oplog::strings_view(acc@),
            ),
        decreases n - i,
    {
        let ghost t = rel@.skip(i as int);
        assert(t.drop_first() =~= rel@.skip(i + 1));
        let c = rel.get_char(i);
        if c == '/' || c == '\\' {
            let ghost av = crate::oplog::strings_view(acc@);
            let ghost cv = cur@;
            acc.push(cur);
            cur = String::new();
            assert(crate::oplog::strings_view(acc@) =~= av.push(cv));
            assert(cur@ =~= Seq::<char>::empty());
        } else {
            let ghost cv = cur@;
            let one = rel.substring_char(i, i + 1);
            assert(one@ =~= seq![c]);
            cur.append(one);
            assert(cur@ =~= cv.push(c));
        }
        i += 1;
    }
    let ghost av = crate::oplog::strings_view(acc@);
    let ghost cv = cur@;
    assert(rel@.skip(n as int) =~= Seq::<char>::empty());
    acc.push(cur);
    let ghost segs = crate::oplog::strings_view(acc@);
    assert(segs =~= av.push(cv));
    let mut k: usize = 0;
    while k < acc.len()
        invariant
            k <= acc.len(),
            segs == crate::oplog::strings_view(acc@),
            segs == path_segments(rel@, Seq::empty(), Seq::empty()),
            rel@.len() > 0,
            forall|q: int| 0 <= q < k ==> segs[q] != ".."@,
        decreases acc.len() - k,
    {
        if is_dotdot(acc[k].as_str()) {
            assert(segs[k as int] == ".."@);
            assert(segs.contains(".."@));
            assert(rel_path_verdict(rel@) == Err::<(), Seq<char>>("非法路径"@));
            return Err("非法路径");
        }
        k += 1;
    }
    Ok(())
}

} // verus!

verus! {

/// The answer codes of the tool channel, in table order.
pub open spec fn code_table() -> Seq<Seq<char>> {
    seq![
        "OK"@,
        "CONFLICT"@,
        "SCHEMA_INVALID"@,
        "PRECONDITION_FAILED"@,
        "GUARD_FAILED"@,
        "JIANYING_RUNNING"@,
        "NO_CONFIG"@,
        "DEP_MISSING"@,
        "GREEN_SCREEN_INPUT"@,
        "INTERNAL"@,
    ]
}

/// A refused write is answered with a code from the code table, whatever
/// its message says.
pub proof fn law_reject_code_in_table(msg: Seq<char>)
    ensures
        code_table().contains(reject_code_spec(msg)),
{
    let t = code_table();
    let c = reject_code_spec(msg);
    if c == "PRECONDITION_FAILED"@ {
        assert(t[3] == c);
    } else if c == "CONFLICT"@ {
        assert(t[1] == c);
    } else if c == "SCHEMA_INVALID"@ {
        assert(t[2] == c);
    } else if c == "GUARD_FAILED"@ {
        assert(t[4] == c);
    } else {
        assert(t[9] == c);
    }
}

} // verus!
