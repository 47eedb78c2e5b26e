//! Anchors: stable references from a note to a point of the timeline or to
//! an element. Relocation never drops a note silently:
//! 1. the element is still there, only moved: the anchor follows it;
//! 2. its id is gone but an element lies within `nearest_ms`: the anchor
//!    is re-hung on the nearest one;
//! 3. otherwise the anchor is orphaned, and kept.

use vstd::prelude::*;
use crate::json::str_eq;
use crate::dispatch::debug_str;
use crate::text::{dec, push_dec};
use crate::model::{Project, ProjectV, TrackV, ClipV, clip_pos, track_index, clip_end_spec, opt_str, lemma_clip_pos_from};

verus! {

#[derive(Clone, Copy, PartialEq, Eq, Structural, Debug)]
pub enum AnchorKind {
    Clip,
    Track,
    Time,
    Word,
    SubtitleCard,
}

#[derive(Clone, Copy, PartialEq, Eq, Structural, Debug)]
pub struct Span {
    pub start_ms: u64,
    pub end_ms: u64,
}

#[derive(Debug)]
pub struct Anchor {
    pub kind: AnchorKind,
    /// The stable id of the target; none for a time anchor.
    pub ref_: Option<String>,
    pub t_ms: u64,
    pub span: Option<Span>,
}

pub struct AnchorV {
    pub kind: AnchorKind,
    pub ref_: Option<Seq<char>>,
    pub t_ms: u64,
    pub span: Option<Span>,
}

impl View for Anchor {
    type V = AnchorV;
    open spec fn view(&self) -> AnchorV {
        AnchorV { kind: self.kind, ref_: opt_str(self.ref_), t_ms: self.t_ms, span: self.span }
    }
}

impl Anchor {
    pub fn duplicate(&self) -> (r: Anchor)
        ensures
            r@ == self@,
    {
        Anchor { kind: self.kind, ref_: crate::model::copy_opt_str(&self.ref_), t_ms: self.t_ms, span: self.span }
    }
}

#[derive(Clone, Copy, PartialEq, Eq, Structural, Debug)]
pub enum AnchorState {
    /// The anchor hits as it is.
    Resolved,
    /// Followed or re-hung.
    Relocated,
    /// Cannot be relocated (kept, never dropped).
    Orphan,
}

#[derive(Debug)]
pub struct Relocation {
    pub state: AnchorState,
    pub anchor: Anchor,
    /// Why the anchor was orphaned.
    pub orphan_reason: Option<String>,
}

pub struct RelocationV {
    pub state: AnchorState,
    pub anchor: AnchorV,
    pub orphan_reason: Option<Seq<char>>,
}

impl View for Relocation {
    type V = RelocationV;
    open spec fn view(&self) -> RelocationV {
        RelocationV { state: self.state, anchor: self.anchor@, orphan_reason: opt_str(self.orphan_reason) }
    }
}

/// The default neighbourhood for re-hanging an anchor (ms).
pub const DEFAULT_NEAREST_MS: u64 = 500;

/// Where an anchor points in the project now: a clip or subtitle-card
/// anchor to its clip, a track anchor to its track; time and word anchors
/// point nowhere in the project.
pub open spec fn resolve_spec(p: ProjectV, a: AnchorV) -> Option<Seq<char>> {
    match a.kind {
        AnchorKind::Clip | AnchorKind::SubtitleCard => match a.ref_ {
            Some(id) => match clip_pos(p.tracks, id) {
                Some((ti, ci)) => Some("/tracks/"@ + dec(ti as nat) + "/clips/"@ + dec(ci as nat)),
                None => None,
            },
            None => None,
        },
        AnchorKind::Track => match a.ref_ {
            Some(id) => match track_index(p.tracks, id) {
                Some(ti) => Some("/tracks/"@ + dec(ti as nat)),
                None => None,
            },
            None => None,
        },
        _ => None,
    }
}

pub fn resolve(project: &Project, anchor: &Anchor) -> (r: Option<String>)
    ensures
        opt_str(r) == resolve_spec(project@, anchor@),
{
    match anchor.kind {
        AnchorKind::Clip | AnchorKind::SubtitleCard => match &anchor.ref_ {
            Some(id) => match project.find_clip(id.as_str()) {
                Some((ti, ci)) => Some(crate::engine::clip_pointer(ti, ci)),
                None => None,
            },
            None => None,
        },
        AnchorKind::Track => match &anchor.ref_ {
            Some(id) => match project.find_track(id.as_str()) {
                Some(ti) => {
                    let mut s = "/tracks/".to_string();
                    push_dec(&mut s, ti as u64);
                    Some(s)
                },
                None => None,
            },
            None => None,
        },
        _ => None,
    }
}

/// `t` brought into `[lo, hi]`.
pub open spec fn clamp_spec(t: u64, lo: u64, hi: u64) -> u64 {
    if t < lo {
        lo
    } else if t > hi {
        hi
    } else {
        t
    }
}

/// Distance from an instant to a clip (zero inside it).
pub open spec fn dist_spec(c: ClipV, t: u64) -> u64 {
    if t < c.start_ms {
        (c.start_ms - t) as u64
    } else if t > clip_end_spec(c) {
        (t - clip_end_spec(c)) as u64
    } else {
        0
    }
}

/// The nearest clip within `near` among the first `upto` clips of track
/// `ti`, given the best found before; a strictly nearer clip wins, so the
/// first of equals stays.
pub open spec fn best_in_clips(
    cs: Seq<ClipV>,
    ti: int,
    t: u64,
    near: u64,
    best: Option<(u64, (int, int))>,
    upto: int,
) -> Option<(u64, (int, int))>
    decreases upto,
{
    if upto <= 0 {
        best
    } else {
        let b = best_in_clips(cs, ti, t, near, best, upto - 1);
        let d = dist_spec(cs[upto - 1], t);
        if d <= near && (b matches Some(x) ==> d < x.0) {
            Some((d, (ti, upto - 1)))
        } else {
            b
        }
    }
}

pub open spec fn best_upto(ts: Seq<TrackV>, t: u64, near: u64, upto: int) -> Option<(u64, (int, int))>
    decreases upto,
{
    if upto <= 0 {
        None
    } else {
        best_in_clips(
            ts[upto - 1].clips,
            upto - 1,
            t,
            near,
            best_upto(ts, t, near, upto - 1),
            ts[upto - 1].clips.len() as int,
        )
    }
}

pub open spec fn debug_opt(o: Option<Seq<char>>) -> Seq<char> {
    match o {
        Some(s) => "Some("@ + debug_str(s) + ")"@,
        None => "None"@,
    }
}

/// Relocation of an anchor after the project changed (the three rules).
pub open spec fn relocate_spec(p: ProjectV, a: AnchorV, near: u64) -> RelocationV {
    match a.kind {
        AnchorKind::Time | AnchorKind::Word => RelocationV { state: AnchorState::Resolved, anchor: a, orphan_reason: None },
        AnchorKind::Track => if a.ref_ matches Some(id) && track_index(p.tracks, id) is Some {
            RelocationV { state: AnchorState::Resolved, anchor: a, orphan_reason: None }
        } else {
            RelocationV {
                state: AnchorState::Orphan,
                anchor: a,
                orphan_reason: Some("轨道 "@ + debug_opt(a.ref_) + " 已不存在"@),
            }
        },
        _ => match a.ref_ {
            None => RelocationV { state: AnchorState::Orphan, anchor: a, orphan_reason: Some("锚点缺少目标 id"@) },
            Some(id) => match clip_pos(p.tracks, id) {
                Some((ti, ci)) => {
                    let c = p.tracks[ti].clips[ci];
                    if c.start_ms <= a.t_ms <= clip_end_spec(c) {
                        RelocationV { state: AnchorState::Resolved, anchor: a, orphan_reason: None }
                    } else {
                        RelocationV {
                            state: AnchorState::Relocated,
                            anchor: AnchorV { t_ms: clamp_spec(a.t_ms, c.start_ms, clip_end_spec(c)), ..a },
                            orphan_reason: None,
                        }
                    }
                },
                None => match best_upto(p.tracks, a.t_ms, near, p.tracks.len() as int) {
                    Some((_, (ti, ci))) => {
                        let c = p.tracks[ti].clips[ci];
                        RelocationV {
                            state: AnchorState::Relocated,
                            anchor: AnchorV {
                                ref_: Some(c.id),
                                t_ms: clamp_spec(a.t_ms, c.start_ms, clip_end_spec(c)),
                                ..a
                            },
                            orphan_reason: None,
                        }
                    },
                    None => RelocationV {
                        state: AnchorState::Orphan,
                        anchor: a,
                        orphan_reason: Some("id "@ + id + " 已消失且 "@ + dec(near as nat) + "ms 内无邻近片段"@),
                    },
                },
            },
        },
    }
}

fn clamp(t: u64, lo: u64, hi: u64) -> (r: u64)
    ensures
        r == clamp_spec(t, lo, hi),
{
    if t < lo {
        lo
    } else if t > hi {
        hi
    } else {
        t
    }
}

fn debug_opt_string(o: &Option<String>) -> (r: String)
    ensures
        r@ == debug_opt(opt_str(*o)),
{
    match o {
        Some(s) => {
            let mut out = "Some(".to_string();
            let q = crate::dispatch::debug_quote(s.as_str());
            out.append(q.as_str());
            out.append(")");
            proof {
                reveal_strlit("Some(");
                reveal_strlit(")");
            }
            assert(out@ =~= "Some("@ + debug_str(s@) + ")"@);
            out
        },
        None => "None".to_string(),
    }
}

/// Relocates an anchor: follow a moved element, re-hang on the nearest
/// element within `nearest_ms` (distance zero inside a clip), or orphan it.
pub fn relocate(project: &Project, anchor: &Anchor, nearest_ms: u64) -> (r: Relocation)
    ensures
        r@ == relocate_spec(project@, anchor@, nearest_ms),
{
    match anchor.kind {
        AnchorKind::Time | AnchorKind::Word => {
            return Relocation { state: AnchorState::Resolved, anchor: anchor.duplicate(), orphan_reason: None };
        },
        AnchorKind::Track => {
            if let Some(id) = &anchor.ref_ {
                if project.find_track(id.as_str()).is_some() {
                    return Relocation { state: AnchorState::Resolved, anchor: anchor.duplicate(), orphan_reason: None };
                }
            }
            let mut reason = "轨道 ".to_string();
            reason.append(debug_opt_string(&anchor.ref_).as_str());
            reason.append(" 已不存在");
            return Relocation { state: AnchorState::Orphan, anchor: anchor.duplicate(), orphan_reason: Some(reason) };
        },
        _ => {},
    }
    let id = match &anchor.ref_ {
        Some(id) => id,
        None => {
            return Relocation {
                state: AnchorState::Orphan,
                anchor: anchor.duplicate(),
                orphan_reason: Some("锚点缺少目标 id".to_string()),
            };
        },
    };
    if let Some((ti, ci)) = project.find_clip(id.as_str()) {
        proof {
            crate::model::lemma_clip_pos_from(project@.tracks, id@, 0);
        }
        let clip = &project.tracks[ti].clips[ci];
        let end = Project::clip_end(clip);
        if clip.start_ms <= anchor.t_ms && anchor.t_ms <= end {
            return Relocation { state: AnchorState::Resolved, anchor: anchor.duplicate(), orphan_reason: None };
        }
        let mut moved = anchor.duplicate();
        moved.t_ms = clamp(anchor.t_ms, clip.start_ms, Project::clip_end(clip));
        return Relocation { state: AnchorState::Relocated, anchor: moved, orphan_reason: None };
    }
    let ghost ts = project@.tracks;
    let t = anchor.t_ms;
    let mut best: Option<(u64, (usize, usize))> = None;
    let mut ti: usize = 0;
    while ti < project.tracks.len()
        invariant
            ti <= project.tracks.len(),
            ts == project@.tracks,
            t == anchor.t_ms,
            match best {
                Some((d, (a, b))) => best_upto(ts, t, nearest_ms, ti as int) == Some((d, (a as int, b as int)))
                    && a < ts.len() && b < ts[a as int].clips.len(),
                None => best_upto(ts, t, nearest_ms, ti as int) is None,
            },
        decreases project.tracks.len() - ti,
    {
        let track = &project.tracks[ti];
        let ghost before = best_upto(ts, t, nearest_ms, ti as int);
        let mut ci: usize = 0;
        while ci < track.clips.len()
            invariant
                ti < project.tracks.len(),
                ts == project@.tracks,
                t == anchor.t_ms,
                track == project.tracks@[ti as int],
                ci <= track.clips.len(),
                match best {
                    Some((d, (a, b))) => best_in_clips(ts[ti as int].clips, ti as int, t, nearest_ms, before, ci as int)
                        == Some((d, (a as int, b as int))) && a < ts.len() && b < ts[a as int].clips.len(),
                    None => best_in_clips(ts[ti as int].clips, ti as int, t, nearest_ms, before, ci as int) is None,
                },
            decreases track.clips.len() - ci,
        {
            let c = &track.clips[ci];
            let end = Project::clip_end(c);
            let dist = if t < c.start_ms {
                c.start_ms - t
            } else if t > end {
                t - end
            } else {
                0
            };
            assert(dist == dist_spec(ts[ti as int].clips[ci as int], t));
            let better = match best {
                Some((d, _)) => dist < d,
                None => true,
            };
            if dist <= nearest_ms && better {
                best = Some((dist, (ti, ci)));
            }
            ci += 1;
        }
        ti += 1;
    }
    match best {
        Some((_, (ti, ci))) => {
            let clip = &project.tracks[ti].clips[ci];
            let mut moved = anchor.duplicate();
            moved.ref_ = Some(clip.id.clone());
            moved.t_ms = clamp(anchor.t_ms, clip.start_ms, Project::clip_end(clip));
            Relocation { state: AnchorState::Relocated, anchor: moved, orphan_reason: None }
        },
        None => {
            let mut reason = "id ".to_string();
            reason.append(id.as_str());
            reason.append(" 已消失且 ");
            push_dec(&mut reason, nearest_ms);
            reason.append("ms 内无邻近片段");
            Relocation { state: AnchorState::Orphan, anchor: anchor.duplicate(), orphan_reason: Some(reason) }
        },
    }
}

} // verus!

verus! {

/// No two clips of the project carry the same id.
pub open spec fn unique_clip_ids(ts: Seq<TrackV>) -> bool {
    forall|a: int, b: int, x: int, y: int|
        0 <= a < ts.len() && 0 <= b < ts[a].clips.len() && 0 <= x < ts.len() && 0 <= y < ts[x].clips.len()
            && (#[trigger] ts[a].clips[b]).id == (#[trigger] ts[x].clips[y]).id ==> a == x && b == y
}

proof fn lemma_best_in_clips_valid(
    cs: Seq<ClipV>,
    ti: int,
    t: u64,
    near: u64,
    best: Option<(u64, (int, int))>,
    upto: int,
    ts: Seq<TrackV>,
)
    requires
        0 <= ti < ts.len(),
        cs == ts[ti].clips,
        upto <= cs.len(),
        best matches Some(x) ==> 0 <= x.1.0 < ts.len() && 0 <= x.1.1 < ts[x.1.0].clips.len(),
    ensures
        best_in_clips(cs, ti, t, near, best, upto) matches Some(x) ==> 0 <= x.1.0 < ts.len() && 0 <= x.1.1
            < ts[x.1.0].clips.len(),
    decreases upto,
{
    if upto > 0 {
        lemma_best_in_clips_valid(cs, ti, t, near, best, upto - 1, ts);
    }
}

proof fn lemma_best_upto_valid(ts: Seq<TrackV>, t: u64, near: u64, upto: int)
    requires
        upto <= ts.len(),
    ensures
        best_upto(ts, t, near, upto) matches Some(x) ==> 0 <= x.1.0 < ts.len() && 0 <= x.1.1 < ts[x.1.0].clips.len(),
    decreases upto,
{
    if upto > 0 {
        lemma_best_upto_valid(ts, t, near, upto - 1);
        lemma_best_in_clips_valid(
            ts[upto - 1].clips,
            upto - 1,
            t,
            near,
            best_upto(ts, t, near, upto - 1),
            ts[upto - 1].clips.len() as int,
            ts,
        );
    }
}

/// Relocation settles at once: relocating the anchor a relocation gave, in
/// the same project, changes nothing more, and an anchor that was not
/// orphaned now resolves as it stands (clip ids are unique).
pub proof fn law_relocate_settles(p: ProjectV, a: AnchorV, near: u64)
    requires
        unique_clip_ids(p.tracks),
    ensures
        ({
            let r1 = relocate_spec(p, a, near);
            let r2 = relocate_spec(p, r1.anchor, near);
            &&& r2.anchor == r1.anchor
            &&& r2.state == (if r1.state == AnchorState::Orphan {
                AnchorState::Orphan
            } else {
                AnchorState::Resolved
            })
        }),
{
    let r1 = relocate_spec(p, a, near);
    match a.kind {
        AnchorKind::Time | AnchorKind::Word | AnchorKind::Track => {},
        _ => match a.ref_ {
            None => {},
            Some(id) => {
                lemma_clip_pos_from(p.tracks, id, 0);
                match clip_pos(p.tracks, id) {
                    Some((ti, ci)) => {},
                    None => {
                        lemma_best_upto_valid(p.tracks, a.t_ms, near, p.tracks.len() as int);
                        match best_upto(p.tracks, a.t_ms, near, p.tracks.len() as int) {
                            Some((_, (ti, ci))) => {
                                let c = p.tracks[ti].clips[ci];
                                lemma_clip_pos_from(p.tracks, c.id, 0);
                                let (x, y) = clip_pos(p.tracks, c.id)->0;
                                assert(p.tracks[x].clips[y].id == p.tracks[ti].clips[ci].id);
                            },
                            None => {},
                        }
                    },
                }
            },
        },
    }
}

} // verus!

verus! {

pub open spec fn best_fits(ts: Seq<TrackV>, t: u64, near: u64, b: Option<(u64, (int, int))>) -> bool {
    b matches Some(x) ==> 0 <= x.1.0 < ts.len() && 0 <= x.1.1 < ts[x.1.0].clips.len() && x.0 == dist_spec(
        ts[x.1.0].clips[x.1.1],
        t,
    ) && x.0 <= near
}

proof fn lemma_best_in_clips_min(
    ts: Seq<TrackV>,
    ti: int,
    t: u64,
    near: u64,
    best: Option<(u64, (int, int))>,
    upto: int,
)
    requires
        0 <= ti < ts.len(),
        upto <= ts[ti].clips.len(),
        best_fits(ts, t, near, best),
    ensures
        ({
            let r = best_in_clips(ts[ti].clips, ti, t, near, best, upto);
            &&& best_fits(ts, t, near, r)
            &&& best matches Some(x) ==> (r matches Some(z) && z.0 <= x.0)
            &&& forall|y: int|
                0 <= y < upto && dist_spec(#[trigger] ts[ti].clips[y], t) <= near ==> (r matches Some(z) && z.0
                    <= dist_spec(ts[ti].clips[y], t))
        }),
    decreases upto,
{
    if upto > 0 {
        lemma_best_in_clips_min(ts, ti, t, near, best, upto - 1);
    }
}

proof fn lemma_best_upto_min(ts: Seq<TrackV>, t: u64, near: u64, upto: int)
    requires
        upto <= ts.len(),
    ensures
        ({
            let r = best_upto(ts, t, near, upto);
            &&& best_fits(ts, t, near, r)
            &&& forall|x: int, y: int|
                0 <= x < upto && 0 <= y < ts[x].clips.len() && dist_spec(#[trigger] ts[x].clips[y], t) <= near
                    ==> (r matches Some(z) && z.0 <= dist_spec(ts[x].clips[y], t))
        }),
    decreases upto,
{
    if upto > 0 {
        lemma_best_upto_min(ts, t, near, upto - 1);
        let prev = best_upto(ts, t, near, upto - 1);
        lemma_best_in_clips_min(ts, upto - 1, t, near, prev, ts[upto - 1].clips.len() as int);
    }
}

/// When an anchor's clip is gone, relocation re-hangs it on a nearest clip:
/// the clip it picks is within `near` of the anchor's instant and no clip of
/// the project is nearer; when it picks none, every clip is farther than
/// `near` (and the anchor is orphaned).
pub proof fn law_rehang_picks_nearest(ts: Seq<TrackV>, t: u64, near: u64)
    ensures
        match best_upto(ts, t, near, ts.len() as int) {
            Some((d, (x, y))) => {
                &&& 0 <= x < ts.len() && 0 <= y < ts[x].clips.len()
                &&& d == dist_spec(ts[x].clips[y], t) && d <= near
                &&& forall|a: int, b: int|
                    0 <= a < ts.len() && 0 <= b < ts[a].clips.len() ==> d <= dist_spec(#[trigger] ts[a].clips[b], t)
                        || dist_spec(ts[a].clips[b], t) > near
            },
            None => forall|a: int, b: int|
                0 <= a < ts.len() && 0 <= b < ts[a].clips.len() ==> dist_spec(#[trigger] ts[a].clips[b], t) > near,
        },
{
    lemma_best_upto_min(ts, t, near, ts.len() as int);
}

} // verus!

verus! {

/// Clip `(a, b)` comes before clip `(x, y)` in track and clip order.
pub open spec fn clip_before(a: int, b: int, x: int, y: int) -> bool {
    a < x || (a == x && b < y)
}

/// What the search keeps true of the clips it has scanned (those before
/// `(ti, upto)`): the best is the first of the nearest within `near`.
pub open spec fn best_so_far(ts: Seq<TrackV>, t: u64, near: u64, b: Option<(u64, (int, int))>, ti: int, upto: int) -> bool {
    &&& best_fits(ts, t, near, b)
    &&& b matches Some(x) ==> clip_before(x.1.0, x.1.1, ti, upto)
    &&& forall|a: int, c: int|
        0 <= a < ts.len() && 0 <= c < ts[a].clips.len() && #[trigger] clip_before(a, c, ti, upto) ==> match b {
            None => dist_spec(ts[a].clips[c], t) > near,
            Some(x) => dist_spec(ts[a].clips[c], t) >= x.0 && (clip_before(a, c, x.1.0, x.1.1) ==> dist_spec(
                ts[a].clips[c],
                t,
            ) > x.0),
        }
}

proof fn lemma_best_in_clips_first(
    ts: Seq<TrackV>,
    ti: int,
    t: u64,
    near: u64,
    best: Option<(u64, (int, int))>,
    upto: int,
)
    requires
        0 <= ti < ts.len(),
        0 <= upto <= ts[ti].clips.len(),
        best_so_far(ts, t, near, best, ti, 0),
    ensures
        best_so_far(ts, t, near, best_in_clips(ts[ti].clips, ti, t, near, best, upto), ti, upto),
    decreases upto,
{
    if upto > 0 {
        lemma_best_in_clips_first(ts, ti, t, near, best, upto - 1);
        let b = best_in_clips(ts[ti].clips, ti, t, near, best, upto - 1);
        let r = best_in_clips(ts[ti].clips, ti, t, near, best, upto);
        assert forall|a: int, c: int|
            0 <= a < ts.len() && 0 <= c < ts[a].clips.len() && #[trigger] clip_before(a, c, ti, upto) implies match r {
                None => dist_spec(ts[a].clips[c], t) > near,
                Some(x) => dist_spec(ts[a].clips[c], t) >= x.0 && (clip_before(a, c, x.1.0, x.1.1) ==> dist_spec(
                    ts[a].clips[c],
                    t,
                ) > x.0),
            } by {
            if clip_before(a, c, ti, upto - 1) {
            } else {
                assert(a == ti && c == upto - 1);
            }
        }
    }
}

proof fn lemma_best_upto_first(ts: Seq<TrackV>, t: u64, near: u64, upto: int)
    requires
        0 <= upto <= ts.len(),
    ensures
        best_so_far(ts, t, near, best_upto(ts, t, near, upto), upto, 0),
    decreases upto,
{
    if upto > 0 {
        lemma_best_upto_first(ts, t, near, upto - 1);
        let prev = best_upto(ts, t, near, upto - 1);
        assert(best_so_far(ts, t, near, prev, upto - 1, 0)) by {
            assert forall|a: int, c: int|
                0 <= a < ts.len() && 0 <= c < ts[a].clips.len() && #[trigger] clip_before(a, c, upto - 1, 0) implies
                clip_before(a, c, upto - 1, 0) by {}
        }
        lemma_best_in_clips_first(ts, upto - 1, t, near, prev, ts[upto - 1].clips.len() as int);
        let r = best_upto(ts, t, near, upto);
        assert forall|a: int, c: int|
            0 <= a < ts.len() && 0 <= c < ts[a].clips.len() && #[trigger] clip_before(a, c, upto, 0) implies
            clip_before(a, c, upto - 1, ts[upto - 1].clips.len() as int) by {}
    }
}

/// Among equally near clips, relocation re-hangs an anchor on the first in
/// track and clip order: every clip before the one it picks is farther.
pub proof fn law_rehang_picks_first_of_nearest(ts: Seq<TrackV>, t: u64, near: u64)
    ensures
        best_upto(ts, t, near, ts.len() as int) matches Some((d, (x, y))) ==> forall|a: int, b: int|
            0 <= a < ts.len() && 0 <= b < ts[a].clips.len() && #[trigger] clip_before(a, b, x, y) ==> dist_spec(
                ts[a].clips[b],
                t,
            ) > d,
{
    lemma_best_upto_first(ts, t, near, ts.len() as int);
    let r = best_upto(ts, t, near, ts.len() as int);
    if let Some((d, (x, y))) = r {
        assert forall|a: int, b: int|
            0 <= a < ts.len() && 0 <= b < ts[a].clips.len() && #[trigger] clip_before(a, b, x, y) implies dist_spec(
                ts[a].clips[b],
                t,
            ) > d by {
            assert(clip_before(a, b, ts.len() as int, 0));
        }
    }
}

} // verus!

verus! {

/// The rules for an anchor on a clip (or subtitle card) with an id: while
/// a clip with that id exists the anchor stays on it, with its instant
/// clamped into the clip, and it is resolved exactly when it hits the clip
/// as it stands; when the clip is gone the anchor moves to the clip that
/// relocation picks (the nearest, see `law_rehang_picks_nearest`), its
/// instant clamped into it; with none near enough it is orphaned, left as
/// it was, with a reason that names the id.
pub proof fn law_relocate_clip_rules(p: ProjectV, a: AnchorV, near: u64)
    requires
        a.kind == AnchorKind::Clip || a.kind == AnchorKind::SubtitleCard,
        a.ref_ is Some,
    ensures
        ({
            let r = relocate_spec(p, a, near);
            let id = a.ref_->0;
            &&& clip_pos(p.tracks, id) matches Some((ti, ci)) ==> {
                let c = p.tracks[ti].clips[ci];
                &&& r.anchor == AnchorV { t_ms: clamp_spec(a.t_ms, c.start_ms, clip_end_spec(c)), ..a }
                &&& r.orphan_reason is None
                &&& (r.state == AnchorState::Resolved <==> c.start_ms <= a.t_ms <= clip_end_spec(c))
                &&& r.state != AnchorState::Orphan
            }
            &&& clip_pos(p.tracks, id) is None ==> match best_upto(p.tracks, a.t_ms, near, p.tracks.len() as int) {
                Some((_, (x, y))) => {
                    let c = p.tracks[x].clips[y];
                    &&& r.state == AnchorState::Relocated
                    &&& r.anchor == AnchorV {
                        ref_: Some(c.id),
                        t_ms: clamp_spec(a.t_ms, c.start_ms, clip_end_spec(c)),
                        ..a
                    }
                    &&& r.orphan_reason is None
                },
                None => {
                    &&& r.state == AnchorState::Orphan
                    &&& r.anchor == a
                    &&& r.orphan_reason matches Some(m) && m.subrange(3, 3 + id.len() as int) == id
                },
            }
        }),
{
    let id = a.ref_->0;
    if let Some((ti, ci)) = clip_pos(p.tracks, id) {
        let c = p.tracks[ti].clips[ci];
        if c.start_ms <= a.t_ms <= clip_end_spec(c) {
            assert(AnchorV { t_ms: clamp_spec(a.t_ms, c.start_ms, clip_end_spec(c)), ..a } == a);
        }
    } else if best_upto(p.tracks, a.t_ms, near, p.tracks.len() as int) is None {
        reveal_strlit("id ");
        let m = "id "@ + id + " 已消失且 "@ + dec(near as nat) + "ms 内无邻近片段"@;
        assert(m.subrange(3, 3 + id.len() as int) =~= id);
    }
}

} // verus!
