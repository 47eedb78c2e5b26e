//! The edit model: a project holds tracks, a track holds clips. Times are in
//! milliseconds. Numbers that the document may carry with a fraction
//! (speed, volume, opacity, scale, crossfade) are held as JSON numbers, and
//! the nested presentation objects (position, motion, fade, ...) as JSON
//! subtrees, exactly as the document gives them.

use vstd::prelude::*;
use crate::json::{Json, JNum, JVal, NumV, str_eq};
use crate::text::{numbered, names_contain, first_free};

verus! {

#[derive(Clone, Copy, PartialEq, Eq, Structural, Debug)]
pub enum TrackKind {
    Video,
    Audio,
    Text,
}

#[derive(Clone, Copy, PartialEq, Eq, Structural, Debug)]
pub enum Role {
    Voice,
    Sfx,
    Music,
    Ambient,
}

#[derive(Clone, Copy, PartialEq, Eq, Structural, Debug)]
pub enum Backend {
    Ffmpeg,
    Jianying,
    Cutforge,
}

#[derive(Clone, Copy, PartialEq, Eq, Structural, Debug)]
pub enum Ratio {
    NineBySixteen,
    ThreeByFour,
    SixteenByNine,
}

/// The closed set of video types.
#[derive(Clone, Copy, PartialEq, Eq, Structural, Debug)]
pub enum ClipKind {
    TalkingHead,
    TalkingHeadAnimation,
    PureAnimation,
}

#[derive(Clone, Copy, PartialEq, Eq, Structural, Debug)]
pub struct Canvas {
    pub width: u32,
    pub height: u32,
}

#[derive(Debug)]
pub struct Marker {
    pub ms: u64,
    pub label: String,
}

#[derive(Debug)]
pub struct Subtitle {
    pub ass: Option<String>,
    pub source: Option<String>,
    pub style: Option<String>,
}

/// A clip: an element that occupies a time span on a track. Its stable `id`
/// (such as V1-001) is what anchors and operations refer to.
#[derive(Debug)]
pub struct Clip {
    pub id: String,
    pub source_hash: Option<String>,
    pub src: Option<String>,
    pub start_ms: u64,
    pub duration_ms: u64,
    pub source_in_ms: Option<u64>,
    pub speed: Option<JNum>,
    pub volume: Option<JNum>,
    pub role: Option<Role>,
    pub text: Option<String>,
    pub position: Option<Json>,
    pub scale: Option<JNum>,
    pub reframe: Option<Json>,
    pub motion: Option<Json>,
    pub transition: Option<Json>,
    pub overlay: Option<Json>,
    pub opacity: Option<JNum>,
    pub fade: Option<Json>,
    pub loop_: Option<bool>,
    pub punch_in: Option<Json>,
    pub freeze_ms: Option<u64>,
}

/// A track: a container of clips of one kind; its `id` (such as V1) never
/// changes once written.
#[derive(Debug)]
pub struct Track {
    pub id: String,
    pub kind: TrackKind,
    pub name: Option<String>,
    pub clips: Vec<Clip>,
}

/// A project document.
#[derive(Debug)]
pub struct Project {
    pub version: u8,
    pub schema_version: String,
    pub slug: String,
    pub fps: u32,
    pub canvas: Canvas,
    pub backends: Vec<Backend>,
    pub notes: String,
    pub tracks: Vec<Track>,
    pub bgm: Option<Json>,
    pub outputs: Option<Vec<Ratio>>,
    pub markers: Option<Vec<Marker>>,
    pub subtitle: Option<Subtitle>,
    pub join_crossfade_ms: Option<JNum>,
}

pub struct MarkerV {
    pub ms: u64,
    pub label: Seq<char>,
}

pub struct SubtitleV {
    pub ass: Option<Seq<char>>,
    pub source: Option<Seq<char>>,
    pub style: Option<Seq<char>>,
}

pub struct ClipV {
    pub id: Seq<char>,
    pub source_hash: Option<Seq<char>>,
    pub src: Option<Seq<char>>,
    pub start_ms: u64,
    pub duration_ms: u64,
    pub source_in_ms: Option<u64>,
    pub speed: Option<NumV>,
    pub volume: Option<NumV>,
    pub role: Option<Role>,
    pub text: Option<Seq<char>>,
    pub position: Option<JVal>,
    pub scale: Option<NumV>,
    pub reframe: Option<JVal>,
    pub motion: Option<JVal>,
    pub transition: Option<JVal>,
    pub overlay: Option<JVal>,
    pub opacity: Option<NumV>,
    pub fade: Option<JVal>,
    pub loop_: Option<bool>,
    pub punch_in: Option<JVal>,
    pub freeze_ms: Option<u64>,
}

pub struct TrackV {
    pub id: Seq<char>,
    pub kind: TrackKind,
    pub name: Option<Seq<char>>,
    pub clips: Seq<ClipV>,
}

pub struct ProjectV {
    pub version: u8,
    pub schema_version: Seq<char>,
    pub slug: Seq<char>,
    pub fps: u32,
    pub canvas: Canvas,
    pub backends: Seq<Backend>,
    pub notes: Seq<char>,
    pub tracks: Seq<TrackV>,
    pub bgm: Option<JVal>,
    pub outputs: Option<Seq<Ratio>>,
    pub markers: Option<Seq<MarkerV>>,
    pub subtitle: Option<SubtitleV>,
    pub join_crossfade_ms: Option<NumV>,
}

pub open spec fn opt_str(o: Option<String>) -> Option<Seq<char>> {
    match o {
        Some(s) => Some(s@),
        None => None,
    }
}

pub open spec fn opt_num(o: Option<JNum>) -> Option<NumV> {
    match o {
        Some(n) => Some(n@),
        None => None,
    }
}

pub open spec fn opt_json(o: Option<Json>) -> Option<JVal> {
    match o {
        Some(j) => Some(j@),
        None => None,
    }
}

impl View for Marker {
    type V = MarkerV;
    open spec fn view(&self) -> MarkerV {
        MarkerV { ms: self.ms, label: self.label@ }
    }
}

impl View for Subtitle {
    type V = SubtitleV;
    open spec fn view(&self) -> SubtitleV {
        SubtitleV { ass: opt_str(self.ass), source: opt_str(self.source), style: opt_str(self.style) }
    }
}

impl View for Clip {
    type V = ClipV;
    open spec fn view(&self) -> ClipV {
        ClipV {
            id: self.id@,
            source_hash: opt_str(self.source_hash),
            src: opt_str(self.src),
            start_ms: self.start_ms,
            duration_ms: self.duration_ms,
            source_in_ms: self.source_in_ms,
            speed: opt_num(self.speed),
            volume: opt_num(self.volume),
            role: self.role,
            text: opt_str(self.text),
            position: opt_json(self.position),
            scale: opt_num(self.scale),
            reframe: opt_json(self.reframe),
            motion: opt_json(self.motion),
            transition: opt_json(self.transition),
            overlay: opt_json(self.overlay),
            opacity: opt_num(self.opacity),
            fade: opt_json(self.fade),
            loop_: self.loop_,
            punch_in: opt_json(self.punch_in),
            freeze_ms: self.freeze_ms,
        }
    }
}

pub open spec fn clips_view(cs: Seq<Clip>) -> Seq<ClipV> {
    cs.map_values(|c: Clip| c@)
}

impl View for Track {
    type V = TrackV;
    open spec fn view(&self) -> TrackV {
        TrackV { id: self.id@, kind: self.kind, name: opt_str(self.name), clips: clips_view(self.clips@) }
    }
}

pub open spec fn tracks_view(ts: Seq<Track>) -> Seq<TrackV> {
    ts.map_values(|t: Track| t@)
}

pub open spec fn markers_view(ms: Seq<Marker>) -> Seq<MarkerV> {
    ms.map_values(|m: Marker| m@)
}

impl View for Project {
    type V = ProjectV;
    open spec fn view(&self) -> ProjectV {
        ProjectV {
            version: self.version,
            schema_version: self.schema_version@,
            slug: self.slug@,
            fps: self.fps,
            canvas: self.canvas,
            backends: self.backends@,
            notes: self.notes@,
            tracks: tracks_view(self.tracks@),
            bgm: opt_json(self.bgm),
            outputs: match self.outputs {
                Some(v) => Some(v@),
                None => None,
            },
            markers: match self.markers {
                Some(v) => Some(markers_view(v@)),
                None => None,
            },
            subtitle: match self.subtitle {
                Some(s) => Some(s@),
                None => None,
            },
            join_crossfade_ms: opt_num(self.join_crossfade_ms),
        }
    }
}

} // verus!

verus! {

pub fn copy_opt_str(o: &Option<String>) -> (r: Option<String>)
    ensures
        opt_str(r) == opt_str(*o),
{
    match o {
        Some(s) => Some(s.clone()),
        None => None,
    }
}

pub fn copy_opt_num(o: &Option<JNum>) -> (r: Option<JNum>)
    ensures
        opt_num(r) == opt_num(*o),
{
    match o {
        Some(n) => Some(n.copy_num()),
        None => None,
    }
}

pub fn copy_opt_json(o: &Option<Json>) -> (r: Option<Json>)
    ensures
        opt_json(r) == opt_json(*o),
{
    match o {
        Some(j) => Some(j.deep_copy()),
        None => None,
    }
}

impl Marker {
    pub fn duplicate(&self) -> (r: Marker)
        ensures
            r@ == self@,
    {
        Marker { ms: self.ms, label: self.label.clone() }
    }
}

impl Subtitle {
    pub fn duplicate(&self) -> (r: Subtitle)
        ensures
            r@ == self@,
    {
        Subtitle {
            ass: copy_opt_str(&self.ass),
            source: copy_opt_str(&self.source),
            style: copy_opt_str(&self.style),
        }
    }
}

impl Clip {
    /// A copy with the same model.
    pub fn duplicate(&self) -> (r: Clip)
        ensures
            r@ == self@,
    {
        Clip {
            id: self.id.clone(),
            source_hash: copy_opt_str(&self.source_hash),
            src: copy_opt_str(&self.src),
            start_ms: self.start_ms,
            duration_ms: self.duration_ms,
            source_in_ms: self.source_in_ms,
            speed: copy_opt_num(&self.speed),
            volume: copy_opt_num(&self.volume),
            role: self.role,
            text: copy_opt_str(&self.text),
            position: copy_opt_json(&self.position),
            scale: copy_opt_num(&self.scale),
            reframe: copy_opt_json(&self.reframe),
            motion: copy_opt_json(&self.motion),
            transition: copy_opt_json(&self.transition),
            overlay: copy_opt_json(&self.overlay),
            opacity: copy_opt_num(&self.opacity),
            fade: copy_opt_json(&self.fade),
            loop_: self.loop_,
            punch_in: copy_opt_json(&self.punch_in),
            freeze_ms: self.freeze_ms,
        }
    }
}

pub fn copy_clips(v: &Vec<Clip>) -> (r: Vec<Clip>)
    ensures
        clips_view(r@) == clips_view(v@),
        r.len() == v.len(),
{
    let mut out: Vec<Clip> = Vec::new();
    let mut i: usize = 0;
    while i < v.len()
        invariant
            i <= v.len(),
            out.len() == i,
            clips_view(out@) == clips_view(v@.take(i as int)),
        decreases v.len() - i,
    {
        let c = v[i].duplicate();
        let ghost prev = out@;
        out.push(c);
        assert(v@.take(i + 1) =~= v@.take(i as int).push(v@[i as int]));
        assert(clips_view(out@) =~= clips_view(prev).push(c@));
        assert(clips_view(v@.take(i + 1)) =~= clips_view(v@.take(i as int)).push(v@[i as int]@));
        i += 1;
    }
    assert(v@.take(i as int) =~= v@);
    out
}

impl Track {
    pub fn duplicate(&self) -> (r: Track)
        ensures
            r@ == self@,
    {
        Track { id: self.id.clone(), kind: self.kind, name: copy_opt_str(&self.name), clips: copy_clips(&self.clips) }
    }
}

pub fn copy_tracks(v: &Vec<Track>) -> (r: Vec<Track>)
    ensures
        tracks_view(r@) == tracks_view(v@),
        r.len() == v.len(),
{
    let mut out: Vec<Track> = Vec::new();
    let mut i: usize = 0;
    while i < v.len()
        invariant
            i <= v.len(),
            out.len() == i,
            tracks_view(out@) == tracks_view(v@.take(i as int)),
        decreases v.len() - i,
    {
        let c = v[i].duplicate();
        let ghost prev = out@;
        out.push(c);
        assert(v@.take(i + 1) =~= v@.take(i as int).push(v@[i as int]));
        assert(tracks_view(out@) =~= tracks_view(prev).push(c@));
        assert(tracks_view(v@.take(i + 1)) =~= tracks_view(v@.take(i as int)).push(v@[i as int]@));
        i += 1;
    }
    assert(v@.take(i as int) =~= v@);
    out
}

fn copy_markers(v: &Vec<Marker>) -> (r: Vec<Marker>)
    ensures
        markers_view(r@) == markers_view(v@),
{
    let mut out: Vec<Marker> = Vec::new();
    let mut i: usize = 0;
    while i < v.len()
        invariant
            i <= v.len(),
            markers_view(out@) == markers_view(v@.take(i as int)),
        decreases v.len() - i,
    {
        let c = v[i].duplicate();
        let ghost prev = out@;
        out.push(c);
        assert(v@.take(i + 1) =~= v@.take(i as int).push(v@[i as int]));
        assert(markers_view(out@) =~= markers_view(prev).push(c@));
        assert(markers_view(v@.take(i + 1)) =~= markers_view(v@.take(i as int)).push(v@[i as int]@));
        i += 1;
    }
    assert(v@.take(i as int) =~= v@);
    out
}

fn copy_vec_copy<T: Copy>(v: &Vec<T>) -> (r: Vec<T>)
    ensures
        r@ == v@,
{
    let mut out: Vec<T> = Vec::new();
    let mut i: usize = 0;
    while i < v.len()
        invariant
            i <= v.len(),
            out@ == v@.take(i as int),
        decreases v.len() - i,
    {
        out.push(v[i]);
        assert(v@.take(i + 1) =~= v@.take(i as int).push(v@[i as int]));
        i += 1;
    }
    assert(v@.take(i as int) =~= v@);
    out
}

impl Project {
    /// A copy with the same model.
    pub fn duplicate(&self) -> (r: Project)
        ensures
            r@ == self@,
    {
        Project {
            version: self.version,
            schema_version: self.schema_version.clone(),
            slug: self.slug.clone(),
            fps: self.fps,
            canvas: self.canvas,
            backends: copy_vec_copy(&self.backends),
            notes: self.notes.clone(),
            tracks: copy_tracks(&self.tracks),
            bgm: copy_opt_json(&self.bgm),
            outputs: match &self.outputs {
                Some(v) => Some(copy_vec_copy(v)),
                None => None,
            },
            markers: match &self.markers {
                Some(v) => Some(copy_markers(v)),
                None => None,
            },
            subtitle: match &self.subtitle {
                Some(s) => Some(s.duplicate()),
                None => None,
            },
            join_crossfade_ms: copy_opt_num(&self.join_crossfade_ms),
        }
    }
}

} // verus!

verus! {

/// Index of the first clip with id `id`, scanning from `c`.
pub open spec fn clip_index_from(clips: Seq<ClipV>, id: Seq<char>, c: int) -> Option<int>
    decreases clips.len() - c,
{
    if c < 0 || c >= clips.len() {
        None
    } else if clips[c].id == id {
        Some(c)
    } else {
        clip_index_from(clips, id, c + 1)
    }
}

/// Position (track, clip) of the first clip with id `id`, tracks scanned
/// from `t` in order and clips in order within a track.
pub open spec fn clip_pos_from(tracks: Seq<TrackV>, id: Seq<char>, t: int) -> Option<(int, int)>
    decreases tracks.len() - t,
{
    if t < 0 || t >= tracks.len() {
        None
    } else {
        match clip_index_from(tracks[t].clips, id, 0) {
            Some(c) => Some((t, c)),
            None => clip_pos_from(tracks, id, t + 1),
        }
    }
}

pub open spec fn clip_pos(tracks: Seq<TrackV>, id: Seq<char>) -> Option<(int, int)> {
    clip_pos_from(tracks, id, 0)
}

/// Index of the first track with id `id`, scanning from `t`.
pub open spec fn track_index_from(tracks: Seq<TrackV>, id: Seq<char>, t: int) -> Option<int>
    decreases tracks.len() - t,
{
    if t < 0 || t >= tracks.len() {
        None
    } else if tracks[t].id == id {
        Some(t)
    } else {
        track_index_from(tracks, id, t + 1)
    }
}

pub open spec fn track_index(tracks: Seq<TrackV>, id: Seq<char>) -> Option<int> {
    track_index_from(tracks, id, 0)
}

pub proof fn lemma_clip_index_from(clips: Seq<ClipV>, id: Seq<char>, c: int)
    requires
        0 <= c,
    ensures
        clip_index_from(clips, id, c) matches Some(j) ==> c <= j < clips.len() && clips[j].id == id,
        clip_index_from(clips, id, c) is None ==> forall|j: int| c <= j < clips.len() ==> clips[j].id != id,
    decreases clips.len() - c,
{
    if c < clips.len() && clips[c].id != id {
        lemma_clip_index_from(clips, id, c + 1);
    }
}

pub proof fn lemma_clip_pos_from(tracks: Seq<TrackV>, id: Seq<char>, t: int)
    requires
        0 <= t,
    ensures
        clip_pos_from(tracks, id, t) matches Some(p) ==> t <= p.0 < tracks.len() && 0 <= p.1
            < tracks[p.0].clips.len() && tracks[p.0].clips[p.1].id == id,
        clip_pos_from(tracks, id, t) is None ==> forall|a: int, b: int|
            t <= a < tracks.len() && 0 <= b < tracks[a].clips.len() ==> tracks[a].clips[b].id != id,
    decreases tracks.len() - t,
{
    if t < tracks.len() {
        lemma_clip_index_from(tracks[t].clips, id, 0);
        if clip_index_from(tracks[t].clips, id, 0) is None {
            lemma_clip_pos_from(tracks, id, t + 1);
        }
    }
}

pub proof fn lemma_track_index_from(tracks: Seq<TrackV>, id: Seq<char>, t: int)
    requires
        0 <= t,
    ensures
        track_index_from(tracks, id, t) matches Some(j) ==> t <= j < tracks.len() && tracks[j].id == id,
        track_index_from(tracks, id, t) is None ==> forall|j: int| t <= j < tracks.len() ==> tracks[j].id != id,
    decreases tracks.len() - t,
{
    if t < tracks.len() && tracks[t].id != id {
        lemma_track_index_from(tracks, id, t + 1);
    }
}

/// End of a clip on the timeline (ms), saturating at the largest value.
pub open spec fn clip_end_spec(c: ClipV) -> u64 {
    if c.start_ms + c.duration_ms > u64::MAX {
        u64::MAX
    } else {
        (c.start_ms + c.duration_ms) as u64
    }
}

/// Whether clips `a` and `b` share some instant of the timeline.
pub open spec fn clips_overlap(a: ClipV, b: ClipV) -> bool {
    a.start_ms < clip_end_spec(b) && b.start_ms < clip_end_spec(a)
}

/// Overlapping pairs (i, j) with j < `upto`, for a fixed i < j.
pub open spec fn overlap_row(clips: Seq<ClipV>, i: int, upto: int) -> Seq<(Seq<char>, Seq<char>)>
    decreases upto,
{
    if upto <= i + 1 || upto <= 0 {
        Seq::empty()
    } else {
        let rest = overlap_row(clips, i, upto - 1);
        if clips_overlap(clips[i], clips[upto - 1]) {
            rest.push((clips[i].id, clips[upto - 1].id))
        } else {
            rest
        }
    }
}

/// Overlapping pairs (i, j), i < j, for first members i < `upto`, in order.
pub open spec fn overlap_pairs_upto(clips: Seq<ClipV>, upto: int) -> Seq<(Seq<char>, Seq<char>)>
    decreases upto,
{
    if upto <= 0 {
        Seq::empty()
    } else {
        overlap_pairs_upto(clips, upto - 1) + overlap_row(clips, upto - 1, clips.len() as int)
    }
}

/// All overlapping pairs of a track's clips, in index order.
pub open spec fn overlap_pairs(clips: Seq<ClipV>) -> Seq<(Seq<char>, Seq<char>)> {
    overlap_pairs_upto(clips, clips.len() as int)
}

pub open spec fn track_letter_spec(kind: TrackKind) -> char {
    match kind {
        TrackKind::Video => 'V',
        TrackKind::Audio => 'A',
        TrackKind::Text => 'T',
    }
}

pub open spec fn kind_name(kind: TrackKind) -> Seq<char> {
    match kind {
        TrackKind::Video => "video"@,
        TrackKind::Audio => "audio"@,
        TrackKind::Text => "text"@,
    }
}

impl TrackKind {
    /// The kind's name as the document writes it.
    pub fn kind_json(&self) -> (r: &'static str)
        ensures
            r@ == kind_name(*self),
    {
        match self {
            TrackKind::Video => "video",
            TrackKind::Audio => "audio",
            TrackKind::Text => "text",
        }
    }
}

pub open spec fn clip_id_taken(clips: Seq<ClipV>, id: Seq<char>) -> bool {
    exists|i: int| 0 <= i < clips.len() && #[trigger] clips[i].id == id
}

pub open spec fn track_id_taken(tracks: Seq<TrackV>, id: Seq<char>) -> bool {
    exists|i: int| 0 <= i < tracks.len() && #[trigger] tracks[i].id == id
}

fn clip_ids(clips: &Vec<Clip>) -> (r: Vec<String>)
    ensures
        r.len() == clips.len(),
        forall|i: int| 0 <= i < r.len() ==> #[trigger] r@[i]@ == clips@[i].id@,
{
    let mut out: Vec<String> = Vec::new();
    let mut i: usize = 0;
    while i < clips.len()
        invariant
            i <= clips.len(),
            out.len() == i,
            forall|k: int| 0 <= k < i ==> #[trigger] out@[k]@ == clips@[k].id@,
        decreases clips.len() - i,
    {
        out.push(clips[i].id.clone());
        i += 1;
    }
    out
}

fn track_ids(tracks: &Vec<Track>) -> (r: Vec<String>)
    ensures
        r.len() == tracks.len(),
        forall|i: int| 0 <= i < r.len() ==> #[trigger] r@[i]@ == tracks@[i].id@,
{
    let mut out: Vec<String> = Vec::new();
    let mut i: usize = 0;
    while i < tracks.len()
        invariant
            i <= tracks.len(),
            out.len() == i,
            forall|k: int| 0 <= k < i ==> #[trigger] out@[k]@ == tracks@[k].id@,
        decreases tracks.len() - i,
    {
        out.push(tracks[i].id.clone());
        i += 1;
    }
    out
}

impl Project {
    /// Position (track index, clip index) of the clip with id `clip_id`.
    pub fn find_clip(&self, clip_id: &str) -> (r: Option<(usize, usize)>)
        ensures
            r matches Some(p) ==> clip_pos(self@.tracks, clip_id@) == Some((p.0 as int, p.1 as int)),
            r is None ==> clip_pos(self@.tracks, clip_id@) is None,
    {
        let ghost ts = self@.tracks;
        let mut ti: usize = 0;
        while ti < self.tracks.len()
            invariant
                ts == self@.tracks,
                ti <= self.tracks.len(),
                clip_pos_from(ts, clip_id@, 0) == clip_pos_from(ts, clip_id@, ti as int),
            decreases self.tracks.len() - ti,
        {
            let t = &self.tracks[ti];
            let ghost cs = ts[ti as int].clips;
            let mut ci: usize = 0;
            while ci < t.clips.len()
                invariant
                    ts == self@.tracks,
                    t == self.tracks@[ti as int],
                    cs == ts[ti as int].clips,
                    ti < self.tracks.len(),
                    ci <= t.clips.len(),
                    clip_index_from(cs, clip_id@, 0) == clip_index_from(cs, clip_id@, ci as int),
                    clip_pos_from(ts, clip_id@, 0) == clip_pos_from(ts, clip_id@, ti as int),
                decreases t.clips.len() - ci,
            {
                assert(cs[ci as int].id == t.clips@[ci as int].id@);
                if str_eq(t.clips[ci].id.as_str(), clip_id) {
                    return Some((ti, ci));
                }
                ci += 1;
            }
            ti += 1;
        }
        None
    }

    /// Index of the track with id `track_id`.
    pub fn find_track(&self, track_id: &str) -> (r: Option<usize>)
        ensures
            r matches Some(i) ==> track_index(self@.tracks, track_id@) == Some(i as int),
            r is None ==> track_index(self@.tracks, track_id@) is None,
    {
        let ghost ts = self@.tracks;
        let mut ti: usize = 0;
        while ti < self.tracks.len()
            invariant
                ts == self@.tracks,
                ti <= self.tracks.len(),
                track_index_from(ts, track_id@, 0) == track_index_from(ts, track_id@, ti as int),
            decreases self.tracks.len() - ti,
        {
            assert(ts[ti as int].id == self.tracks@[ti as int].id@);
            if str_eq(self.tracks[ti].id.as_str(), track_id) {
                return Some(ti);
            }
            ti += 1;
        }
        None
    }

    /// End of the clip on the timeline (ms).
    pub fn clip_end(p: &Clip) -> (r: u64)
        ensures
            r == clip_end_spec(p@),
    {
        p.start_ms.saturating_add(p.duration_ms)
    }

    /// Pairs of clips of one track that overlap in time (the editing
    /// invariant that a track's clips never overlap), in index order.
    pub fn overlaps(track: &Track) -> (r: Vec<(String, String)>)
        ensures
            r@.map_values(|p: (String, String)| (p.0@, p.1@)) == overlap_pairs(track@.clips),
    {
        let ghost cs = track@.clips;
        let n = track.clips.len();
        let mut pairs: Vec<(String, String)> = Vec::new();
        let mut i: usize = 0;
        while i < n
            invariant
                n == track.clips.len(),
                cs == track@.clips,
                cs.len() == n,
                i <= n,
                pairs@.map_values(|p: (String, String)| (p.0@, p.1@)) == overlap_pairs_upto(cs, i as int),
            decreases n - i,
        {
            let ghost base = overlap_pairs_upto(cs, i as int);
            let mut j: usize = i + 1;
            while j < n
                invariant
                    n == track.clips.len(),
                    cs == track@.clips,
                    cs.len() == n,
                    i < n,
                    i + 1 <= j <= n,
                    pairs@.map_values(|p: (String, String)| (p.0@, p.1@)) == base + overlap_row(cs, i as int, j as int),
                decreases n - j,
            {
                let a = &track.clips[i];
                let b = &track.clips[j];
                assert(cs[i as int] == a@);
                assert(cs[j as int] == b@);
                let ghost prev = pairs@;
                if a.start_ms < Self::clip_end(b) && b.start_ms < Self::clip_end(a) {
                    pairs.push((a.id.clone(), b.id.clone()));
                    assert(pairs@.map_values(|p: (String, String)| (p.0@, p.1@)) =~= prev.map_values(|p: (String, String)| (p.0@, p.1@)).push((a.id@, b.id@)));
                }
                assert(overlap_row(cs, i as int, j + 1) == (if clips_overlap(cs[i as int], cs[j as int]) {
                    overlap_row(cs, i as int, j as int).push((cs[i as int].id, cs[j as int].id))
                } else {
                    overlap_row(cs, i as int, j as int)
                }));
                j += 1;
            }
            assert(overlap_pairs_upto(cs, i + 1) == base + overlap_row(cs, i as int, n as int));
            i += 1;
        }
        pairs
    }

    /// The next free clip id of a track: `<track id>-<nnn>`, numbered from
    /// the track's clip count plus one.
    pub fn next_clip_id(track: &Track) -> (r: String)
        requires
            track.clips.len() < 0x7fff_ffff_ffff_ffff,
        ensures
            r@ == next_clip_id_spec(track@),
            !clip_id_taken(track@.clips, r@),
    {
        let mut prefix = track.id.clone();
        prefix.append("-");
        let ids = clip_ids(&track.clips);
        let start = (track.clips.len() as u64) + 1;
        let (id, n) = first_free(prefix.as_str(), &ids, start, 3);
        proof {
            let cs = track@.clips;
            assert(cs.len() == track.clips.len());
            assert forall|s: Seq<char>| names_contain(ids@, s) <==> clip_id_taken(cs, s) by {
                if names_contain(ids@, s) {
                    let i = choose|i: int| 0 <= i < ids.len() && #[trigger] ids@[i]@ == s;
                    assert(cs[i].id == s);
                }
                if clip_id_taken(cs, s) {
                    let i = choose|i: int| 0 <= i < cs.len() && #[trigger] cs[i].id == s;
                    assert(ids@[i]@ == s);
                }
            }
            assert forall|k: nat| track.clips.len() + 1 <= k < n implies #[trigger] clip_id_taken(track@.clips, numbered(track@.id + "-"@, k, 3)) by {
                let ki: int = k as int;
                assert(names_contain(ids@, numbered(prefix@, ki as nat, 3)));
            }
            assert(prefix@ == track@.id + "-"@);
            let nn: nat = n as nat;
            assert(track.clips.len() + 1 <= nn && id@ == numbered(track@.id + "-"@, nn, 3));
            assert(!clip_id_taken(track@.clips, id@));
            assert(is_first_free_clip_num(track@, nn));
            lemma_next_clip_id_spec(track@, nn);
        }
        id
    }

    /// The letter of a track kind, first part of a track id.
    pub fn track_letter(kind: TrackKind) -> (r: char)
        ensures
            r == track_letter_spec(kind),
    {
        match kind {
            TrackKind::Video => 'V',
            TrackKind::Audio => 'A',
            TrackKind::Text => 'T',
        }
    }

    /// The next free track id of a kind: its letter and the first free
    /// number from 1.
    pub fn next_track_id(&self, kind: TrackKind) -> (r: String)
        requires
            self.tracks.len() < 0x7fff_ffff_ffff_ffff,
        ensures
            exists|n: nat|
                1 <= n && r@ == numbered(seq![track_letter_spec(kind)], n, 0) && !track_id_taken(
                    self@.tracks,
                    r@,
                ) && forall|k: nat|
                    1 <= k < n ==> #[trigger] track_id_taken(self@.tracks, numbered(seq![track_letter_spec(kind)], k, 0)),
    {
        let letter = match kind {
            TrackKind::Video => "V",
            TrackKind::Audio => "A",
            TrackKind::Text => "T",
        };
        proof {
            reveal_strlit("V");
            reveal_strlit("A");
            reveal_strlit("T");
        }
        assert(letter@ == seq![track_letter_spec(kind)]);
        let ids = track_ids(&self.tracks);
        let (id, n) = first_free(letter, &ids, 1, 0);
        proof {
            let ts = self@.tracks;
            assert forall|s: Seq<char>| names_contain(ids@, s) <==> track_id_taken(ts, s) by {
                if names_contain(ids@, s) {
                    let i = choose|i: int| 0 <= i < ids.len() && #[trigger] ids@[i]@ == s;
                    assert(ts[i].id == s);
                }
                if track_id_taken(ts, s) {
                    let i = choose|i: int| 0 <= i < ts.len() && #[trigger] ts[i].id == s;
                    assert(ids@[i]@ == s);
                }
            }
            assert forall|k: nat| 1 <= k < n implies #[trigger] track_id_taken(self@.tracks, numbered(seq![track_letter_spec(kind)], k, 0)) by {
                let ki: int = k as int;
                assert(names_contain(ids@, numbered(letter@, ki as nat, 0)));
            }
            let nn: nat = n as nat;
            assert(1 <= nn && id@ == numbered(seq![track_letter_spec(kind)], nn, 0));
            assert(!track_id_taken(self@.tracks, id@));
        }
        id
    }
}

} // verus!

verus! {

/// Whether `n` is the first number from the track's clip count plus one
/// whose id `<track id>-<nnn>` no clip of the track has.
pub open spec fn is_first_free_clip_num(t: TrackV, n: nat) -> bool {
    &&& t.clips.len() + 1 <= n
    &&& !clip_id_taken(t.clips, numbered(t.id + "-"@, n, 3))
    &&& forall|k: nat| t.clips.len() + 1 <= k < n ==> #[trigger] clip_id_taken(t.clips, numbered(t.id + "-"@, k, 3))
}

/// The id `next_clip_id` gives a track.
pub open spec fn next_clip_id_spec(t: TrackV) -> Seq<char> {
    numbered(t.id + "-"@, choose|n: nat| is_first_free_clip_num(t, n), 3)
}

pub proof fn lemma_first_free_clip_unique(t: TrackV, a: nat, b: nat)
    requires
        is_first_free_clip_num(t, a),
        is_first_free_clip_num(t, b),
    ensures
        a == b,
{
    if a < b {
        assert(clip_id_taken(t.clips, numbered(t.id + "-"@, a, 3)));
    } else if b < a {
        assert(clip_id_taken(t.clips, numbered(t.id + "-"@, b, 3)));
    }
}

pub proof fn lemma_next_clip_id_spec(t: TrackV, n: nat)
    requires
        is_first_free_clip_num(t, n),
    ensures
        next_clip_id_spec(t) == numbered(t.id + "-"@, n, 3),
        !clip_id_taken(t.clips, next_clip_id_spec(t)),
{
    let m = choose|m: nat| is_first_free_clip_num(t, m);
    lemma_first_free_clip_unique(t, m, n);
}

} // verus!

verus! {

/// `p` names clips `i < j < upto` that overlap, `i` fixed.
pub open spec fn row_pair(clips: Seq<ClipV>, i: int, upto: int, p: (Seq<char>, Seq<char>)) -> bool {
    exists|j: int| i < j < upto && #[trigger] clips_overlap(clips[i], clips[j]) && p == (clips[i].id, clips[j].id)
}

/// `p` names two clips `i < j` of the track that overlap.
pub open spec fn overlapping_pair(clips: Seq<ClipV>, p: (Seq<char>, Seq<char>)) -> bool {
    exists|i: int, j: int|
        0 <= i < j < clips.len() && #[trigger] clips_overlap(clips[i], clips[j]) && p == (clips[i].id, clips[j].id)
}

proof fn lemma_overlap_row(clips: Seq<ClipV>, i: int, upto: int)
    requires
        0 <= i,
        upto <= clips.len(),
    ensures
        forall|j: int|
            i < j < upto && #[trigger] clips_overlap(clips[i], clips[j]) ==> overlap_row(clips, i, upto).contains(
                (clips[i].id, clips[j].id),
            ),
        forall|k: int|
            0 <= k < overlap_row(clips, i, upto).len() ==> row_pair(clips, i, upto, #[trigger] overlap_row(clips, i, upto)[k]),
    decreases upto,
{
    if upto > i + 1 && upto > 0 {
        lemma_overlap_row(clips, i, upto - 1);
        let rest = overlap_row(clips, i, upto - 1);
        let row = overlap_row(clips, i, upto);
        assert forall|j: int| i < j < upto && #[trigger] clips_overlap(clips[i], clips[j]) implies row.contains(
            (clips[i].id, clips[j].id),
        ) by {
            if j < upto - 1 {
                let k = choose|k: int| 0 <= k < rest.len() && rest[k] == (clips[i].id, clips[j].id);
                assert(row[k] == rest[k]);
            } else {
                assert(row[rest.len() as int] == (clips[i].id, clips[j].id));
            }
        }
        assert forall|k: int| 0 <= k < row.len() implies row_pair(clips, i, upto, #[trigger] row[k]) by {
            if k < rest.len() {
                assert(row[k] == rest[k]);
                assert(row_pair(clips, i, upto - 1, rest[k]));
                let j = choose|j: int|
                    i < j < upto - 1 && #[trigger] clips_overlap(clips[i], clips[j]) && rest[k] == (clips[i].id, clips[j].id);
                assert(clips_overlap(clips[i], clips[j]));
            } else {
                assert(clips_overlap(clips[i], clips[upto - 1]));
            }
        }
    }
}

proof fn lemma_overlap_upto(clips: Seq<ClipV>, upto: int)
    requires
        0 <= upto <= clips.len(),
    ensures
        forall|i: int, j: int|
            0 <= i < j < clips.len() && i < upto && #[trigger] clips_overlap(clips[i], clips[j])
                ==> overlap_pairs_upto(clips, upto).contains((clips[i].id, clips[j].id)),
        forall|k: int|
            0 <= k < overlap_pairs_upto(clips, upto).len() ==> overlapping_pair(
                clips,
                #[trigger] overlap_pairs_upto(clips, upto)[k],
            ),
    decreases upto,
{
    if upto > 0 {
        lemma_overlap_upto(clips, upto - 1);
        lemma_overlap_row(clips, upto - 1, clips.len() as int);
        let a = overlap_pairs_upto(clips, upto - 1);
        let b = overlap_row(clips, upto - 1, clips.len() as int);
        let all = overlap_pairs_upto(clips, upto);
        assert(all == a + b);
        assert forall|i: int, j: int|
            0 <= i < j < clips.len() && i < upto && #[trigger] clips_overlap(clips[i], clips[j]) implies all.contains(
            (clips[i].id, clips[j].id),
        ) by {
            if i < upto - 1 {
                let k = choose|k: int| 0 <= k < a.len() && a[k] == (clips[i].id, clips[j].id);
                assert(all[k] == a[k]);
            } else {
                let k = choose|k: int| 0 <= k < b.len() && b[k] == (clips[i].id, clips[j].id);
                assert(all[a.len() + k] == b[k]);
            }
        }
        assert forall|k: int| 0 <= k < all.len() implies overlapping_pair(clips, #[trigger] all[k]) by {
            if k < a.len() {
                assert(all[k] == a[k]);
                assert(overlapping_pair(clips, a[k]));
            } else {
                assert(all[k] == b[k - a.len()]);
                assert(row_pair(clips, upto - 1, clips.len() as int, b[k - a.len()]));
                let j = choose|j: int|
                    upto - 1 < j < clips.len() && #[trigger] clips_overlap(clips[upto - 1], clips[j]) && b[k
                        - a.len()] == (clips[upto - 1].id, clips[j].id);
                assert(clips_overlap(clips[upto - 1], clips[j]));
            }
        }
    }
}

/// What `overlaps` reports is exactly the pairs of clips `i < j` of a track
/// that share an instant, given by their ids: every such pair is listed,
/// and every listed pair is one.
pub proof fn law_overlap_pairs_exact(clips: Seq<ClipV>)
    ensures
        forall|i: int, j: int|
            0 <= i < j < clips.len() && #[trigger] clips_overlap(clips[i], clips[j]) ==> overlap_pairs(clips).contains(
                (clips[i].id, clips[j].id),
            ),
        forall|k: int|
            0 <= k < overlap_pairs(clips).len() ==> overlapping_pair(clips, #[trigger] overlap_pairs(clips)[k]),
{
    lemma_overlap_upto(clips, clips.len() as int);
}

} // verus!
