//! The empty project template: the smallest valid document from which a
//! project can start, with a canvas, a frame rate and empty tracks.

use vstd::prelude::*;
use crate::json::Json;
use crate::model::{Backend, Canvas, Project, ProjectV, Track, TrackKind, TrackV, track_letter_spec, tracks_view};
use crate::codec::{project_json, project_to_json, project_from_json, track_wf, lemma_project_roundtrip};
use crate::text::{dec, numbered, numbered_string, push_dec};
use crate::cli::{trim, trim_exec, Args, ArgsV};
use crate::text::{parse_u64, parse_u64_spec};
use crate::json::str_eq;
use vstd::string::StrSliceExecFns;

verus! {

/// The frame rates a project may have.
pub open spec fn fps_allowed(fps: u32) -> bool {
    fps == 24 || fps == 25 || fps == 30 || fps == 50 || fps == 60
}

/// The canvas edge lengths a project may have.
pub open spec fn dim_allowed(d: u32) -> bool {
    d == 1080 || d == 1440 || d == 1920
}

/// How many of `kinds` are `k`.
pub open spec fn count_kind(kinds: Seq<TrackKind>, k: TrackKind) -> nat
    decreases kinds.len(),
{
    if kinds.len() == 0 {
        0
    } else {
        count_kind(kinds.drop_last(), k) + if kinds.last() == k { 1nat } else { 0nat }
    }
}

/// The template's tracks: one empty track per kind, in order, each kind
/// numbered from 1 on its own (V1, A1, V2, ...).
pub open spec fn template_tracks(kinds: Seq<TrackKind>) -> Seq<TrackV>
    decreases kinds.len(),
{
    if kinds.len() == 0 {
        seq![]
    } else {
        let k = kinds.last();
        template_tracks(kinds.drop_last()).push(
            TrackV {
                id: numbered(seq![track_letter_spec(k)], count_kind(kinds, k), 0),
                kind: k,
                name: None,
                clips: seq![],
            },
        )
    }
}

/// The template project itself.
pub open spec fn template_project(slug: Seq<char>, fps: u32, width: u32, height: u32, kinds: Seq<TrackKind>) -> ProjectV {
    ProjectV {
        version: 1,
        schema_version: "2.0.0"@,
        slug: trim(slug),
        fps: fps,
        canvas: Canvas { width: width, height: height },
        backends: seq![Backend::Ffmpeg, Backend::Cutforge],
        notes: "notes.json"@,
        tracks: template_tracks(kinds),
        bgm: None,
        outputs: None,
        markers: None,
        subtitle: None,
        join_crossfade_ms: None,
    }
}

pub open spec fn fps_error(fps: u32) -> Seq<char> {
    "fps "@ + dec(fps as nat) + " 不在允许集 [24, 25, 30, 50, 60](契约枚举)"@
}

pub open spec fn dim_error(width: u32, height: u32) -> Seq<char> {
    "画幅 "@ + dec(width as nat) + "x"@ + dec(height as nat) + " 不在允许集 [1080, 1440, 1920](契约枚举)"@
}

pub open spec fn slug_error() -> Seq<char> {
    "slug(工程标识)必填"@
}

/// Whether the template can be made from these settings.
pub open spec fn template_ok(slug: Seq<char>, fps: u32, width: u32, height: u32) -> bool {
    fps_allowed(fps) && dim_allowed(width) && dim_allowed(height) && trim(slug).len() > 0
}

/// The error for settings the template refuses, the first check that fails.
pub open spec fn template_error(slug: Seq<char>, fps: u32, width: u32, height: u32) -> Seq<char> {
    if !fps_allowed(fps) {
        fps_error(fps)
    } else if !(dim_allowed(width) && dim_allowed(height)) {
        dim_error(width, height)
    } else {
        slug_error()
    }
}

proof fn lemma_count_le(kinds: Seq<TrackKind>, k: TrackKind)
    ensures
        count_kind(kinds, k) <= kinds.len(),
    decreases kinds.len(),
{
    if kinds.len() > 0 {
        lemma_count_le(kinds.drop_last(), k);
    }
}

proof fn lemma_template_tracks_empty(kinds: Seq<TrackKind>)
    ensures
        template_tracks(kinds).len() == kinds.len(),
        forall|i: int| 0 <= i < kinds.len() ==> (#[trigger] template_tracks(kinds)[i]).clips.len() == 0,
    decreases kinds.len(),
{
    if kinds.len() > 0 {
        lemma_template_tracks_empty(kinds.drop_last());
    }
}

/// The template reads back: decoding the document of any template that is
/// made gives the template project itself, so a new project can always be
/// opened.
pub proof fn law_template_reads_back(slug: Seq<char>, fps: u32, width: u32, height: u32, kinds: Seq<TrackKind>)
    ensures
        project_from_json(project_json(template_project(slug, fps, width, height, kinds))) == Some(
            template_project(slug, fps, width, height, kinds),
        ),
{
    let p = template_project(slug, fps, width, height, kinds);
    lemma_template_tracks_empty(kinds);
    assert forall|i: int| 0 <= i < p.tracks.len() implies #[trigger] track_wf(p.tracks[i]) by {
        assert(p.tracks[i].clips.len() == 0);
    }
    lemma_project_roundtrip(p);
}

fn fps_ok(fps: u32) -> (r: bool)
    ensures
        r == fps_allowed(fps),
{
    fps == 24 || fps == 25 || fps == 30 || fps == 50 || fps == 60
}

fn dim_ok(d: u32) -> (r: bool)
    ensures
        r == dim_allowed(d),
{
    d == 1080 || d == 1440 || d == 1920
}

/// The template's tracks for `kinds`.
fn make_tracks(kinds: &[TrackKind]) -> (r: Vec<Track>)
    ensures
        tracks_view(r@) == template_tracks(kinds@),
{
    let mut tracks: Vec<Track> = Vec::new();
    let mut count_v: u64 = 0;
    let mut count_a: u64 = 0;
    let mut count_t: u64 = 0;
    let mut i: usize = 0;
    while i < kinds.len()
        invariant
            i <= kinds.len(),
            tracks_view(tracks@) == template_tracks(kinds@.take(i as int)),
            count_v == count_kind(kinds@.take(i as int), TrackKind::Video),
            count_a == count_kind(kinds@.take(i as int), TrackKind::Audio),
            count_t == count_kind(kinds@.take(i as int), TrackKind::Text),
        decreases kinds.len() - i,
    {
        let ghost pre = kinds@.take(i as int);
        let ghost cur = kinds@.take(i + 1);
        assert(cur.drop_last() =~= pre);
        assert(cur.last() == kinds@[i as int]);
        proof {
            lemma_count_le(pre, TrackKind::Video);
            lemma_count_le(pre, TrackKind::Audio);
            lemma_count_le(pre, TrackKind::Text);
        }
        let kind = kinds[i];
        let (letter, n) = match kind {
            TrackKind::Video => {
                count_v = count_v + 1;
                ("V", count_v)
            },
            TrackKind::Audio => {
                count_a = count_a + 1;
                ("A", count_a)
            },
            TrackKind::Text => {
                count_t = count_t + 1;
                ("T", count_t)
            },
        };
        proof {
            reveal_strlit("V");
            reveal_strlit("A");
            reveal_strlit("T");
        }
        assert(letter@ == seq![track_letter_spec(kind)]);
        assert(n == count_kind(cur, kind));
        let id = numbered_string(letter, n, 0);
        let t = Track { id: id, kind: kind, name: None, clips: Vec::new() };
        let ghost before = tracks@;
        tracks.push(t);
        proof {
            assert(t@.clips =~= Seq::<crate::model::ClipV>::empty());
            assert(tracks_view(tracks@) =~= tracks_view(before).push(t@));
        }
        i = i + 1;
    }
    assert(kinds@.take(kinds.len() as int) =~= kinds@);
    tracks
}

/// The template document for a new project: version 1, schema "2.0.0", the
/// trimmed slug, the frame rate, the canvas, both back ends, "notes.json"
/// and one empty track per entry of `kinds`. Refused where the frame rate
/// or a canvas edge is not an allowed value, or the slug is blank.
pub fn new_project_value(slug: &str, fps: u32, width: u32, height: u32, kinds: &[TrackKind]) -> (r: Result<Json, String>)
    ensures
        match r {
            Ok(j) => template_ok(slug@, fps, width, height) && j@ == project_json(
                template_project(slug@, fps, width, height, kinds@),
            ),
            Err(e) => !template_ok(slug@, fps, width, height) && e@ == template_error(slug@, fps, width, height),
        },
{
    if !fps_ok(fps) {
        let mut e = String::from_str("fps ");
        push_dec(&mut e, fps as u64);
        e.append(" 不在允许集 [24, 25, 30, 50, 60](契约枚举)");
        return Err(e);
    }
    if !dim_ok(width) || !dim_ok(height) {
        let mut e = String::from_str("画幅 ");
        push_dec(&mut e, width as u64);
        e.append("x");
        push_dec(&mut e, height as u64);
        e.append(" 不在允许集 [1080, 1440, 1920](契约枚举)");
        return Err(e);
    }
    let s = trim_exec(slug);
    if s.unicode_len() == 0 {
        return Err(String::from_str("slug(工程标识)必填"));
    }
    let tracks = make_tracks(kinds);
    let mut backends: Vec<Backend> = Vec::new();
    backends.push(Backend::Ffmpeg);
    backends.push(Backend::Cutforge);
    let p = Project {
        version: 1,
        schema_version: String::from_str("2.0.0"),
        slug: s.to_string(),
        fps: fps,
        canvas: Canvas { width: width, height: height },
        backends: backends,
        notes: String::from_str("notes.json"),
        tracks: tracks,
        bgm: None,
        outputs: None,
        markers: None,
        subtitle: None,
        join_crossfade_ms: None,
    };
    assert(p.backends@ =~= seq![Backend::Ffmpeg, Backend::Cutforge]);
    assert(p@ == template_project(slug@, fps, width, height, kinds@));
    Ok(project_to_json(&p))
}

/// The settings of a new project.
pub struct NewProject {
    pub slug: String,
    pub fps: u32,
    pub width: u32,
    pub height: u32,
    pub kinds: Vec<TrackKind>,
}

pub struct NewProjectV {
    pub slug: Seq<char>,
    pub fps: u32,
    pub width: u32,
    pub height: u32,
    pub kinds: Seq<TrackKind>,
}

impl View for NewProject {
    type V = NewProjectV;
    open spec fn view(&self) -> NewProjectV {
        NewProjectV { slug: self.slug@, fps: self.fps, width: self.width, height: self.height, kinds: self.kinds@ }
    }
}

/// The pieces of `s` between the separators, as `str::split` gives them
/// (an empty string is one empty piece).
pub open spec fn split_on(s: Seq<char>, sep: char) -> Seq<Seq<char>>
    decreases s.len(),
{
    if s.len() == 0 {
        seq![seq![]]
    } else {
        let rest = split_on(s.drop_last(), sep);
        if s.last() == sep {
            rest.push(seq![])
        } else {
            rest.update(rest.len() - 1, rest.last().push(s.last()))
        }
    }
}

pub proof fn lemma_split_nonempty(s: Seq<char>, sep: char)
    ensures
        split_on(s, sep).len() >= 1,
    decreases s.len(),
{
    if s.len() > 0 {
        lemma_split_nonempty(s.drop_last(), sep);
    }
}

/// The track kind a word names.
pub open spec fn word_kind(w: Seq<char>) -> Option<TrackKind> {
    if w == "video"@ {
        Some(TrackKind::Video)
    } else if w == "audio"@ {
        Some(TrackKind::Audio)
    } else if w == "text"@ {
        Some(TrackKind::Text)
    } else {
        None
    }
}

/// One more piece of a track list: blank pieces are skipped, others must
/// name a kind.
pub open spec fn kinds_step(acc: Result<Seq<TrackKind>, Seq<char>>, piece: Seq<char>) -> Result<Seq<TrackKind>, Seq<char>> {
    match acc {
        Err(m) => Err(m),
        Ok(ks) => {
            let w = trim(piece);
            if w.len() == 0 {
                Ok(ks)
            } else {
                match word_kind(w) {
                    Some(k) => Ok(ks.push(k)),
                    None => Err("未知轨道类型: "@ + w + "(允许 video/audio/text)"@),
                }
            }
        },
    }
}

/// The kinds a list of pieces names, or the refusal of its first bad piece.
pub open spec fn list_kinds(ps: Seq<Seq<char>>) -> Result<Seq<TrackKind>, Seq<char>>
    decreases ps.len(),
{
    if ps.len() == 0 {
        Ok(seq![])
    } else {
        kinds_step(list_kinds(ps.drop_last()), ps.last())
    }
}

/// What `str::parse::<u32>` gives.
pub open spec fn parse_u32_spec(s: Seq<char>) -> Option<u32> {
    match parse_u64_spec(s) {
        Some(n) => if n <= u32::MAX {
            Some(n as u32)
        } else {
            None
        },
        None => None,
    }
}

/// A number flag, or its default where it is absent or no number.
pub open spec fn num_flag(a: ArgsV, k: Seq<char>, d: u32) -> u32 {
    if a.flags.contains_key(k) {
        match parse_u32_spec(a.flags[k]) {
            Some(n) => n,
            None => d,
        }
    } else {
        d
    }
}

/// The settings the `new` command asks for: `--slug` (else the directory's
/// name, else "cutforge-project"), `--fps`, `--width`, `--height` (30,
/// 1080, 1920 where absent or no number) and `--track`, a comma-separated
/// list of kinds (a video and an audio track where it names none).
pub open spec fn new_flags_spec(a: ArgsV, dir_name: Option<Seq<char>>) -> Result<NewProjectV, Seq<char>> {
    let slug = if a.flags.contains_key("slug"@) {
        a.flags["slug"@]
    } else {
        match dir_name {
            Some(d) => d,
            None => "cutforge-project"@,
        }
    };
    let kinds = if a.flags.contains_key("track"@) {
        list_kinds(split_on(a.flags["track"@], ','))
    } else {
        Ok(seq![])
    };
    match kinds {
        Err(m) => Err(m),
        Ok(ks) => Ok(
            NewProjectV {
                slug: slug,
                fps: num_flag(a, "fps"@, 30),
                width: num_flag(a, "width"@, 1080),
                height: num_flag(a, "height"@, 1920),
                kinds: if ks.len() == 0 {
                    seq![TrackKind::Video, TrackKind::Audio]
                } else {
                    ks
                },
            },
        ),
    }
}

fn parse_u32(s: &str) -> (r: Option<u32>)
    ensures
        r == parse_u32_spec(s@),
{
    match parse_u64(s) {
        Some(n) => if n <= 0xffff_ffff {
            Some(n as u32)
        } else {
            None
        },
        None => None,
    }
}

fn num_flag_of(a: &Args, k: &str, d: u32) -> (r: u32)
    ensures
        r == num_flag(a@, k@, d),
{
    match a.flag(k) {
        Some(v) => match parse_u32(v.as_str()) {
            Some(n) => n,
            None => d,
        },
        None => d,
    }
}

fn step_kinds(acc: Result<Vec<TrackKind>, String>, piece: &str) -> (r: Result<Vec<TrackKind>, String>)
    ensures
        kinds_res(r) == kinds_step(kinds_res(acc), piece@),
{
    match acc {
        Err(m) => Err(m),
        Ok(mut ks) => {
            let w = trim_exec(piece);
            if w.unicode_len() == 0 {
                Ok(ks)
            } else if str_eq(w, "video") {
                ks.push(TrackKind::Video);
                Ok(ks)
            } else if str_eq(w, "audio") {
                ks.push(TrackKind::Audio);
                Ok(ks)
            } else if str_eq(w, "text") {
                ks.push(TrackKind::Text);
                Ok(ks)
            } else {
                let mut m = String::from_str("未知轨道类型: ");
                m.append(w);
                m.append("(允许 video/audio/text)");
                Err(m)
            }
        },
    }
}

pub open spec fn kinds_res(r: Result<Vec<TrackKind>, String>) -> Result<Seq<TrackKind>, Seq<char>> {
    match r {
        Ok(ks) => Ok(ks@),
        Err(m) => Err(m@),
    }
}

/// The kinds of a comma-separated list.
fn kinds_of_list(v: &str) -> (r: Result<Vec<TrackKind>, String>)
    ensures
        kinds_res(r) == list_kinds(split_on(v@, ',')),
{
    let n = v.unicode_len();
    let mut acc: Result<Vec<TrackKind>, String> = Ok(Vec::new());
    let mut start: usize = 0;
    let mut i: usize = 0;
    proof {
        assert(v@.take(0) =~= Seq::<char>::empty());
    }
    while i < n
        invariant
            n == v@.len(),
            start <= i <= n,
            split_on(v@.take(i as int), ',').len() >= 1,
            split_on(v@.take(i as int), ',').last() == v@.subrange(start as int, i as int),
            kinds_res(acc) == list_kinds(split_on(v@.take(i as int), ',').drop_last()),
        decreases n - i,
    {
        let c = v.get_char(i);
        let ghost pre = v@.take(i as int);
        let ghost sp = split_on(pre, ',');
        assert(v@.take(i + 1).drop_last() =~= pre);
        assert(v@.take(i + 1).last() == c);
        if c == ',' {
            let piece = v.substring_char(start, i);
            acc = step_kinds(acc, piece);
            proof {
                let sp2 = split_on(v@.take(i + 1), ',');
                assert(sp2 == sp.push(seq![]));
                assert(sp2.drop_last() =~= sp);
                assert(sp =~= sp.drop_last().push(sp.last()));
                assert(v@.subrange(i + 1, i + 1) =~= Seq::<char>::empty());
            }
            start = i + 1;
        } else {
            proof {
                let sp2 = split_on(v@.take(i + 1), ',');
                assert(sp2 == sp.update(sp.len() - 1, sp.last().push(c)));
                assert(sp2.drop_last() =~= sp.drop_last());
                assert(v@.subrange(start as int, i + 1) =~= v@.subrange(start as int, i as int).push(c));
                lemma_split_nonempty(v@.take(i + 1), ',');
            }
        }
        i += 1;
    }
    let piece = v.substring_char(start, n);
    proof {
        assert(v@.take(n as int) =~= v@);
        let sp = split_on(v@, ',');
        assert(sp =~= sp.drop_last().push(sp.last()));
    }
    step_kinds(acc, piece)
}

/// The settings of the `new` command; `dir_name` is the name of the
/// project directory, where it has one.
pub fn new_project_flags(a: &Args, dir_name: Option<&str>) -> (r: Result<NewProject, String>)
    ensures
        match r {
            Ok(p) => new_flags_spec(a@, opt_name(dir_name)) == Ok::<NewProjectV, Seq<char>>(p@),
            Err(m) => new_flags_spec(a@, opt_name(dir_name)) == Err::<NewProjectV, Seq<char>>(m@),
        },
{
    let slug = match a.flag("slug") {
        Some(s) => s.clone(),
        None => match dir_name {
            Some(d) => d.to_string(),
            None => String::from_str("cutforge-project"),
        },
    };
    let kinds = match a.flag("track") {
        Some(v) => kinds_of_list(v.as_str()),
        None => Ok(Vec::new()),
    };
    let mut kinds = match kinds {
        Ok(ks) => ks,
        Err(m) => return Err(m),
    };
    if kinds.len() == 0 {
        kinds.push(TrackKind::Video);
        kinds.push(TrackKind::Audio);
        assert(kinds@ =~= seq![TrackKind::Video, TrackKind::Audio]);
    }
    Ok(
        NewProject {
            slug: slug,
            fps: num_flag_of(a, "fps", 30),
            width: num_flag_of(a, "width", 1080),
            height: num_flag_of(a, "height", 1920),
            kinds: kinds,
        },
    )
}

pub open spec fn opt_name(o: Option<&str>) -> Option<Seq<char>> {
    match o {
        Some(s) => Some(s@),
        None => None,
    }
}

} // verus!
