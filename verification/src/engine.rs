//! The engine: the query side and the command side are kept apart.
//!
//! `query` is a pure projection. `apply`, `undo` and `redo` are the only
//! writes: check the preconditions, change, record an op (with its base
//! revision) in the log, raise the revision. A write based on a revision
//! that is no longer current is refused: nothing is overwritten silently.

use vstd::prelude::*;
use crate::json::{Json, JNum, JVal, NumV, json_text, quoted, json_eq, str_eq, json_to_text, push_escaped};
use crate::text::{dec, push_dec, dec_string};
use crate::model::{
    Clip, ClipV, Track, TrackV, Project, ProjectV, TrackKind, clip_pos, track_index, clip_end_spec,
    overlap_pairs, next_clip_id_spec, kind_name, clips_view, tracks_view, opt_str,
};
use crate::codec::{clip_json, clips_json, tracks_json, project_json, project_from_json, clip_to_json, clips_to_json, tracks_to_json, project_to_json, project_from};
use crate::command::{ClipPatch, ClipPatchV, Command, patch_is_empty, patch_apply, patch_changes, changes_view};
use crate::oplog::{Actor, ActorV, ActorKind, Op, OpV, OpKind, OpLog, OpLogV, OpTarget, strings_view, has_op_id, has_request};

verus! {

/// Why a write was refused.
#[derive(Debug)]
pub enum Reject {
    UnknownClip(String),
    UnknownTrack(String),
    UnknownOp(String),
    SplitOutside { clip_id: String, t_ms: u64 },
    NotAdjacent { left_id: String, right_id: String },
    DuplicateClipId(String),
    EmptyPatch(String),
    PreconditionFailed { expected: u64, actual: u64 },
    SchemaInvalid(Vec<String>),
    InvariantViolation(String),
    NothingToUndo,
    NothingToRedo,
}

pub enum RejectV {
    UnknownClip(Seq<char>),
    UnknownTrack(Seq<char>),
    UnknownOp(Seq<char>),
    SplitOutside { clip_id: Seq<char>, t_ms: u64 },
    NotAdjacent { left_id: Seq<char>, right_id: Seq<char> },
    DuplicateClipId(Seq<char>),
    EmptyPatch(Seq<char>),
    PreconditionFailed { expected: u64, actual: u64 },
    SchemaInvalid(Seq<Seq<char>>),
    InvariantViolation(Seq<char>),
    NothingToUndo,
    NothingToRedo,
}

impl View for Reject {
    type V = RejectV;
    open spec fn view(&self) -> RejectV {
        match self {
            Reject::UnknownClip(s) => RejectV::UnknownClip(s@),
            Reject::UnknownTrack(s) => RejectV::UnknownTrack(s@),
            Reject::UnknownOp(s) => RejectV::UnknownOp(s@),
            Reject::SplitOutside { clip_id, t_ms } => RejectV::SplitOutside { clip_id: clip_id@, t_ms: *t_ms },
            Reject::NotAdjacent { left_id, right_id } => RejectV::NotAdjacent {
                left_id: left_id@,
                right_id: right_id@,
            },
            Reject::DuplicateClipId(s) => RejectV::DuplicateClipId(s@),
            Reject::EmptyPatch(s) => RejectV::EmptyPatch(s@),
            Reject::PreconditionFailed { expected, actual } => RejectV::PreconditionFailed {
                expected: *expected,
                actual: *actual,
            },
            Reject::SchemaInvalid(v) => RejectV::SchemaInvalid(strings_view(v@)),
            Reject::InvariantViolation(s) => RejectV::InvariantViolation(s@),
            Reject::NothingToUndo => RejectV::NothingToUndo,
            Reject::NothingToRedo => RejectV::NothingToRedo,
        }
    }
}

/// Options of `apply`: `op_id` and `request_id` make a write idempotent,
/// `caused_by` ties the change to notes, `expect_rev` is the base revision
/// the caller wrote against, and `non_undoable` marks bookkeeping that is
/// audited but never undone.
#[derive(Debug)]
pub struct ApplyOpts {
    pub op_id: Option<String>,
    pub request_id: Option<String>,
    pub caused_by: Vec<String>,
    pub summary: Option<String>,
    pub expect_rev: Option<u64>,
    pub non_undoable: bool,
}

pub struct ApplyOptsV {
    pub op_id: Option<Seq<char>>,
    pub request_id: Option<Seq<char>>,
    pub caused_by: Seq<Seq<char>>,
    pub summary: Option<Seq<char>>,
    pub expect_rev: Option<u64>,
    pub non_undoable: bool,
}

impl View for ApplyOpts {
    type V = ApplyOptsV;
    open spec fn view(&self) -> ApplyOptsV {
        ApplyOptsV {
            op_id: opt_str(self.op_id),
            request_id: opt_str(self.request_id),
            caused_by: strings_view(self.caused_by@),
            summary: opt_str(self.summary),
            expect_rev: self.expect_rev,
            non_undoable: self.non_undoable,
        }
    }
}

impl Default for ApplyOpts {
    fn default() -> (r: ApplyOpts)
        ensures
            r@.op_id is None,
            r@.request_id is None,
            r@.caused_by.len() == 0,
            r@.summary is None,
            r@.expect_rev is None,
            !r@.non_undoable,
    {
        let r = ApplyOpts {
            op_id: None,
            request_id: None,
            caused_by: Vec::new(),
            summary: None,
            expect_rev: None,
            non_undoable: false,
        };
        assert(strings_view(r.caused_by@) =~= Seq::<Seq<char>>::empty());
        r
    }
}

/// The receipt of a write.
#[derive(Debug)]
pub struct OpReceipt {
    pub op_ids: Vec<String>,
    pub rev: u64,
    /// A repeated call that changed nothing.
    pub idempotent: bool,
}

pub struct OpReceiptV {
    pub op_ids: Seq<Seq<char>>,
    pub rev: u64,
    pub idempotent: bool,
}

impl View for OpReceipt {
    type V = OpReceiptV;
    open spec fn view(&self) -> OpReceiptV {
        OpReceiptV { op_ids: strings_view(self.op_ids@), rev: self.rev, idempotent: self.idempotent }
    }
}

#[derive(Debug)]
pub enum Query {
    /// The whole project document.
    ProjectView,
    /// One clip.
    Clip { id: String },
    /// One track.
    Track { id: String },
    /// (clip id, start, end, track id) of every clip.
    Timeline,
    /// The log's tail.
    OpLogTail { since_rev: Option<u64>, actor_kind: Option<ActorKind> },
    /// The current revision.
    Rev,
}

#[derive(Debug)]
pub enum Answer {
    Project(Json),
    Clip(Option<Json>),
    Track(Option<Json>),
    Timeline(Vec<(String, u64, u64, String)>),
    Ops(Vec<Op>),
    Rev(u64),
}

#[allow(inconsistent_fields)]
pub enum CommandV {
    ClipUpdate { clip_id: Seq<char>, patch: ClipPatchV },
    ClipSplit { clip_id: Seq<char>, t_ms: u64 },
    ClipDelete { clip_id: Seq<char> },
    ClipMove { clip_id: Seq<char>, new_start_ms: u64, to_track: Option<Seq<char>> },
    ClipInsert { to_track: Seq<char>, clip: ClipV, request_id: Option<Seq<char>> },
    ClipMerge { left_id: Seq<char>, right_id: Seq<char> },
}

impl View for Command {
    type V = CommandV;
    open spec fn view(&self) -> CommandV {
        match self {
            Command::ClipUpdate { clip_id, patch } => CommandV::ClipUpdate { clip_id: clip_id@, patch: patch@ },
            Command::ClipSplit { clip_id, t_ms } => CommandV::ClipSplit { clip_id: clip_id@, t_ms: *t_ms },
            Command::ClipDelete { clip_id } => CommandV::ClipDelete { clip_id: clip_id@ },
            Command::ClipMove { clip_id, new_start_ms, to_track } => CommandV::ClipMove {
                clip_id: clip_id@,
                new_start_ms: *new_start_ms,
                to_track: opt_str(*to_track),
            },
            Command::ClipInsert { to_track, clip, request_id } => CommandV::ClipInsert {
                to_track: to_track@,
                clip: clip@,
                request_id: opt_str(*request_id),
            },
            Command::ClipMerge { left_id, right_id } => CommandV::ClipMerge { left_id: left_id@, right_id: right_id@ },
        }
    }
}

// ---- pointers and texts ----

pub open spec fn clip_path(ti: nat, ci: nat) -> Seq<char> {
    "/tracks/"@ + dec(ti) + "/clips/"@ + dec(ci)
}

pub open spec fn clips_path(ti: nat) -> Seq<char> {
    "/tracks/"@ + dec(ti) + "/clips"@
}

/// Parts separated by `sep`.
pub open spec fn join_sep(parts: Seq<Seq<char>>, sep: Seq<char>) -> Seq<char>
    decreases parts.len(),
{
    if parts.len() == 0 {
        Seq::empty()
    } else if parts.len() == 1 {
        parts[0]
    } else {
        join_sep(parts.drop_last(), sep) + sep + parts.last()
    }
}

pub open spec fn pair_texts(ps: Seq<(Seq<char>, Seq<char>)>) -> Seq<Seq<char>>
    decreases ps.len(),
{
    if ps.len() == 0 {
        Seq::empty()
    } else {
        pair_texts(ps.drop_last()).push("("@ + quoted(ps.last().0) + ", "@ + quoted(ps.last().1) + ")"@)
    }
}

/// The message of an overlap refusal.
pub open spec fn overlap_msg(ps: Seq<(Seq<char>, Seq<char>)>) -> Seq<char> {
    "同轨时间重叠(CF-004): ["@ + join_sep(pair_texts(ps), ", "@) + "]"@
}

/// The message of a cross-kind move refusal.
pub open spec fn kind_msg(from: TrackKind, to: TrackKind) -> Seq<char> {
    "跨轨移动必须同 kind:"@ + kind_name(from) + "→"@ + kind_name(to)
}

pub open spec fn change_texts(chs: Seq<(Seq<char>, JVal, JVal)>) -> Seq<Seq<char>>
    decreases chs.len(),
{
    if chs.len() == 0 {
        Seq::empty()
    } else {
        change_texts(chs.drop_last()).push(
            chs.last().0 + ": "@ + json_text(chs.last().1) + "→"@ + json_text(chs.last().2),
        )
    }
}

pub open spec fn update_summary(id: Seq<char>, chs: Seq<(Seq<char>, JVal, JVal)>) -> Seq<char> {
    "clip_update "@ + id + ": "@ + if chs.len() == 0 {
        "无实际变更"@
    } else {
        join_sep(change_texts(chs), ", "@)
    }
}

// ---- the mutation model ----

/// What a command does to the project: the new project, the pointer of the
/// changed subtree, its old and new value, a summary and the op kind.
pub struct MutV {
    pub project: ProjectV,
    pub path: Seq<char>,
    pub before: JVal,
    pub after: JVal,
    pub summary: Seq<char>,
    pub kind: OpKind,
}

pub open spec fn with_clips(p: ProjectV, ti: int, cs: Seq<ClipV>) -> ProjectV {
    ProjectV { tracks: p.tracks.update(ti, TrackV { clips: cs, ..p.tracks[ti] }), ..p }
}

pub open spec fn overlap_check(cs: Seq<ClipV>, m: MutV) -> Result<MutV, RejectV> {
    if overlap_pairs(cs).len() > 0 {
        Err(RejectV::InvariantViolation(overlap_msg(overlap_pairs(cs))))
    } else {
        Ok(m)
    }
}

/// The most clips a track can hold while clip ids are still handed out
/// (far beyond any memory).
pub const CLIP_LIMIT: u64 = 0x4000_0000_0000_0000;

pub open spec fn too_many_msg() -> Seq<char> {
    "轨道片段数超出上限"@
}

pub open spec fn sat_add(a: u64, b: int) -> u64 {
    if a + b > u64::MAX {
        u64::MAX
    } else {
        (a + b) as u64
    }
}

pub open spec fn mut_update(p: ProjectV, id: Seq<char>, patch: ClipPatchV) -> Result<MutV, RejectV> {
    if patch_is_empty(patch) {
        Err(RejectV::EmptyPatch(id))
    } else {
        match clip_pos(p.tracks, id) {
            None => Err(RejectV::UnknownClip(id)),
            Some((ti, ci)) => {
                let c = p.tracks[ti].clips[ci];
                let c2 = patch_apply(patch, c);
                let cs2 = p.tracks[ti].clips.update(ci, c2);
                overlap_check(
                    cs2,
                    MutV {
                        project: with_clips(p, ti, cs2),
                        path: clip_path(ti as nat, ci as nat),
                        before: clip_json(c),
                        after: clip_json(c2),
                        summary: update_summary(id, patch_changes(patch, c)),
                        kind: OpKind::SetValue,
                    },
                )
            },
        }
    }
}

pub open spec fn split_done(cs: Seq<ClipV>, id: Seq<char>, t: u64) -> bool {
    exists|k: int| 0 <= k < cs.len() && #[trigger] cs[k].start_ms == t && cs[k].id != id
}

pub open spec fn mut_split(p: ProjectV, id: Seq<char>, t: u64) -> Result<MutV, RejectV> {
    match clip_pos(p.tracks, id) {
        None => Err(RejectV::UnknownClip(id)),
        Some((ti, ci)) => {
            let cs = p.tracks[ti].clips;
            let c = cs[ci];
            let end = clip_end_spec(c);
            if split_done(cs, id, t) {
                Ok(MutV {
                    project: p,
                    path: clips_path(ti as nat),
                    before: JVal::Arr(clips_json(cs)),
                    after: JVal::Arr(clips_json(cs)),
                    summary: "clip_split "@ + id + "@"@ + dec(t as nat) + "(已切,幂等)"@,
                    kind: OpKind::Split,
                })
            } else if t <= c.start_ms || t >= end {
                Err(RejectV::SplitOutside { clip_id: id, t_ms: t })
            } else if cs.len() >= CLIP_LIMIT {
                Err(RejectV::InvariantViolation(too_many_msg()))
            } else {
                let left = ClipV { duration_ms: (t - c.start_ms) as u64, ..c };
                let right = ClipV {
                    id: next_clip_id_spec(p.tracks[ti]),
                    start_ms: t,
                    duration_ms: (end - t) as u64,
                    source_in_ms: match c.source_in_ms {
                        Some(s) => Some(sat_add(s, t - c.start_ms)),
                        None => None,
                    },
                    text: None,
                    ..c
                };
                let cs2 = cs.take(ci) + seq![left, right] + cs.skip(ci + 1);
                Ok(MutV {
                    project: with_clips(p, ti, cs2),
                    path: clips_path(ti as nat),
                    before: JVal::Arr(clips_json(cs)),
                    after: JVal::Arr(clips_json(cs2)),
                    summary: "clip_split "@ + id + "@"@ + dec(t as nat),
                    kind: OpKind::Split,
                })
            }
        },
    }
}

pub open spec fn mut_delete(p: ProjectV, id: Seq<char>) -> Result<MutV, RejectV> {
    match clip_pos(p.tracks, id) {
        None => Err(RejectV::UnknownClip(id)),
        Some((ti, ci)) => {
            let cs = p.tracks[ti].clips;
            let cs2 = cs.remove(ci);
            Ok(MutV {
                project: with_clips(p, ti, cs2),
                path: clips_path(ti as nat),
                before: JVal::Arr(clips_json(cs)),
                after: JVal::Arr(clips_json(cs2)),
                summary: "clip_delete "@ + id,
                kind: OpKind::Delete,
            })
        },
    }
}

pub open spec fn mut_move_within(p: ProjectV, id: Seq<char>, start: u64) -> Result<MutV, RejectV> {
    match clip_pos(p.tracks, id) {
        None => Err(RejectV::UnknownClip(id)),
        Some((ti, ci)) => {
            let c = p.tracks[ti].clips[ci];
            let c2 = ClipV { start_ms: start, ..c };
            let cs2 = p.tracks[ti].clips.update(ci, c2);
            overlap_check(
                cs2,
                MutV {
                    project: with_clips(p, ti, cs2),
                    path: clip_path(ti as nat, ci as nat),
                    before: clip_json(c),
                    after: clip_json(c2),
                    summary: "clip_move "@ + id + "→"@ + dec(start as nat) + "ms"@,
                    kind: OpKind::Move,
                },
            )
        },
    }
}

pub open spec fn mut_move_across(p: ProjectV, id: Seq<char>, start: u64, track: Seq<char>) -> Result<MutV, RejectV> {
    match track_index(p.tracks, track) {
        None => Err(RejectV::UnknownTrack(track)),
        Some(ti) => match clip_pos(p.tracks, id) {
            None => Err(RejectV::UnknownClip(id)),
            Some((sti, ci)) => {
                if p.tracks[sti].kind != p.tracks[ti].kind {
                    Err(RejectV::InvariantViolation(kind_msg(p.tracks[sti].kind, p.tracks[ti].kind)))
                } else {
                    let c = p.tracks[sti].clips[ci];
                    let ts1 = p.tracks.update(sti, TrackV { clips: p.tracks[sti].clips.remove(ci), ..p.tracks[sti] });
                    if ts1[ti].clips.len() >= CLIP_LIMIT {
                        Err(RejectV::InvariantViolation(too_many_msg()))
                    } else {
                    let moved = ClipV { start_ms: start, id: next_clip_id_spec(ts1[ti]), ..c };
                    let ts2 = ts1.update(ti, TrackV { clips: ts1[ti].clips.push(moved), ..ts1[ti] });
                    overlap_check(
                        ts2[ti].clips,
                        MutV {
                            project: ProjectV { tracks: ts2, ..p },
                            path: "/tracks"@,
                            before: JVal::Arr(tracks_json(p.tracks)),
                            after: JVal::Arr(tracks_json(ts2)),
                            summary: "clip_move "@ + id + "→"@ + track + "@"@ + dec(start as nat) + "ms"@,
                            kind: OpKind::Move,
                        },
                    )
                    }
                }
            },
        },
    }
}

pub open spec fn mut_insert(p: ProjectV, track: Seq<char>, clip: ClipV) -> Result<MutV, RejectV> {
    match track_index(p.tracks, track) {
        None => Err(RejectV::UnknownTrack(track)),
        Some(ti) => {
            if clip_pos(p.tracks, clip.id) is Some {
                Err(RejectV::DuplicateClipId(clip.id))
            } else {
                let cs = p.tracks[ti].clips;
                let cs2 = cs.push(clip);
                overlap_check(
                    cs2,
                    MutV {
                        project: with_clips(p, ti, cs2),
                        path: clips_path(ti as nat),
                        before: JVal::Arr(clips_json(cs)),
                        after: JVal::Arr(clips_json(cs2)),
                        summary: "clip_insert "@ + clip.id + "→"@ + track,
                        kind: OpKind::Insert,
                    },
                )
            }
        },
    }
}

pub open spec fn mut_merge(p: ProjectV, l: Seq<char>, r: Seq<char>) -> Result<MutV, RejectV> {
    match clip_pos(p.tracks, l) {
        None => Err(RejectV::UnknownClip(l)),
        Some((lt, li)) => match clip_pos(p.tracks, r) {
            None => Err(RejectV::UnknownClip(r)),
            Some((rt, ri)) => {
                if lt != rt || ri != li + 1 {
                    Err(RejectV::NotAdjacent { left_id: l, right_id: r })
                } else {
                    let cs = p.tracks[lt].clips;
                    let left = cs[li];
                    let right = cs[ri];
                    if clip_end_spec(left) != right.start_ms {
                        Err(RejectV::NotAdjacent { left_id: l, right_id: r })
                    } else {
                        let merged = ClipV { duration_ms: (clip_end_spec(right) - left.start_ms) as u64, ..left };
                        let cs2 = cs.update(li, merged).remove(ri);
                        Ok(MutV {
                            project: with_clips(p, lt, cs2),
                            path: clips_path(lt as nat),
                            before: JVal::Arr(clips_json(cs)),
                            after: JVal::Arr(clips_json(cs2)),
                            summary: "clip_merge "@ + l + "+"@ + r,
                            kind: OpKind::Merge,
                        })
                    }
                }
            },
        },
    }
}

/// What a command does to a project, or why it is refused.
pub open spec fn mutate_spec(p: ProjectV, cmd: CommandV) -> Result<MutV, RejectV> {
    match cmd {
        CommandV::ClipUpdate { clip_id, patch } => mut_update(p, clip_id, patch),
        CommandV::ClipSplit { clip_id, t_ms } => mut_split(p, clip_id, t_ms),
        CommandV::ClipDelete { clip_id } => mut_delete(p, clip_id),
        CommandV::ClipMove { clip_id, new_start_ms, to_track } => match to_track {
            None => mut_move_within(p, clip_id, new_start_ms),
            Some(t) => mut_move_across(p, clip_id, new_start_ms, t),
        },
        CommandV::ClipInsert { to_track, clip, .. } => mut_insert(p, to_track, clip),
        CommandV::ClipMerge { left_id, right_id } => mut_merge(p, left_id, right_id),
    }
}

} // verus!

verus! {

pub fn clip_pointer(ti: usize, ci: usize) -> (r: String)
    ensures
        r@ == clip_path(ti as nat, ci as nat),
{
    let mut s = "/tracks/".to_string();
    push_dec(&mut s, ti as u64);
    s.append("/clips/");
    push_dec(&mut s, ci as u64);
    s
}

pub fn clips_pointer(ti: usize) -> (r: String)
    ensures
        r@ == clips_path(ti as nat),
{
    let mut s = "/tracks/".to_string();
    push_dec(&mut s, ti as u64);
    s.append("/clips");
    s
}

fn quoted_string(s: &str) -> (r: String)
    ensures
        r@ == quoted(s@),
{
    proof {
        reveal_strlit("\"");
    }
    let mut out = "\"".to_string();
    push_escaped(&mut out, s);
    out.append("\"");
    out
}

fn overlap_message(ps: &Vec<(String, String)>) -> (r: String)
    ensures
        r@ == overlap_msg(ps@.map_values(|p: (String, String)| (p.0@, p.1@))),
{
    let ghost pv = ps@.map_values(|p: (String, String)| (p.0@, p.1@));
    let mut out = "同轨时间重叠(CF-004): [".to_string();
    let ghost o0 = out@;
    let mut i: usize = 0;
    while i < ps.len()
        invariant
            i <= ps.len(),
            pv == ps@.map_values(|p: (String, String)| (p.0@, p.1@)),
            out@ == o0 + join_sep(pair_texts(pv.take(i as int)), ", "@),
        decreases ps.len() - i,
    {
        let ghost pi = pair_texts(pv.take(i + 1));
        assert(pv.take(i + 1).drop_last() =~= pv.take(i as int));
        assert(pv.take(i + 1).last() == (ps@[i as int].0@, ps@[i as int].1@));
        let mut t = "(".to_string();
        t.append(quoted_string(ps[i].0.as_str()).as_str());
        t.append(", ");
        t.append(quoted_string(ps[i].1.as_str()).as_str());
        t.append(")");
        assert(pi == pair_texts(pv.take(i as int)).push(t@));
        if i > 0 {
            out.append(", ");
            assert(pi.drop_last() =~= pair_texts(pv.take(i as int)));
        } else {
            assert(pair_texts(pv.take(0)) =~= Seq::<Seq<char>>::empty());
        }
        out.append(t.as_str());
        i += 1;
    }
    assert(pv.take(ps.len() as int) =~= pv);
    out.append("]");
    out
}

fn kind_message(from: TrackKind, to: TrackKind) -> (r: String)
    ensures
        r@ == kind_msg(from, to),
{
    let mut s = "跨轨移动必须同 kind:".to_string();
    s.append(from.kind_json());
    s.append("→");
    s.append(to.kind_json());
    s
}

fn update_summary_text(id: &str, chs: &Vec<(String, Json, Json)>) -> (r: String)
    ensures
        r@ == update_summary(id@, changes_view(chs@)),
{
    let mut s = "clip_update ".to_string();
    s.append(id);
    s.append(": ");
    let ghost s0 = s@;
    if chs.len() == 0 {
        s.append("无实际变更");
        return s;
    }
    let ghost cv = changes_view(chs@);
    let mut i: usize = 0;
    while i < chs.len()
        invariant
            i <= chs.len(),
            cv == changes_view(chs@),
            s@ == s0 + join_sep(change_texts(cv.take(i as int)), ", "@),
        decreases chs.len() - i,
    {
        let ghost pi = change_texts(cv.take(i + 1));
        assert(cv.take(i + 1).drop_last() =~= cv.take(i as int));
        assert(cv.take(i + 1).last() == (chs@[i as int].0@, chs@[i as int].1@, chs@[i as int].2@));
        let mut t = chs[i].0.clone();
        t.append(": ");
        t.append(json_to_text(&chs[i].1).as_str());
        t.append("→");
        t.append(json_to_text(&chs[i].2).as_str());
        assert(pi == change_texts(cv.take(i as int)).push(t@));
        if i > 0 {
            s.append(", ");
            assert(pi.drop_last() =~= change_texts(cv.take(i as int)));
        } else {
            assert(change_texts(cv.take(0)) =~= Seq::<Seq<char>>::empty());
        }
        s.append(t.as_str());
        i += 1;
    }
    assert(cv.take(chs.len() as int) =~= cv);
    s
}

} // verus!

verus! {

/// The outcome of a command on a project (see `MutV`).
#[derive(Debug)]
pub struct Mutation {
    pub project: Project,
    pub path: String,
    pub before: Json,
    pub after: Json,
    pub summary: String,
    pub kind: OpKind,
}

impl View for Mutation {
    type V = MutV;
    open spec fn view(&self) -> MutV {
        MutV {
            project: self.project@,
            path: self.path@,
            before: self.before@,
            after: self.after@,
            summary: self.summary@,
            kind: self.kind,
        }
    }
}

fn set_track_clips(tracks: Vec<Track>, ti: usize, cs: Vec<Clip>) -> (r: Vec<Track>)
    requires
        ti < tracks.len(),
    ensures
        tracks_view(r@) == tracks_view(tracks@).update(
            ti as int,
            TrackV { clips: clips_view(cs@), ..tracks_view(tracks@)[ti as int] },
        ),
{
    let ghost tv = tracks_view(tracks@);
    let mut tracks = tracks;
    let t = tracks.remove(ti);
    let t2 = Track { id: t.id, kind: t.kind, name: t.name, clips: cs };
    tracks.insert(ti, t2);
    assert(tracks_view(tracks@) =~= tv.update(ti as int, TrackV { clips: clips_view(cs@), ..tv[ti as int] }));
    tracks
}

fn with_tracks_exec(p: &Project, tracks: Vec<Track>) -> (r: Project)
    ensures
        r@ == (ProjectV { tracks: tracks_view(tracks@), ..p@ }),
{
    let q = p.duplicate();
    Project {
        version: q.version,
        schema_version: q.schema_version,
        slug: q.slug,
        fps: q.fps,
        canvas: q.canvas,
        backends: q.backends,
        notes: q.notes,
        tracks,
        bgm: q.bgm,
        outputs: q.outputs,
        markers: q.markers,
        subtitle: q.subtitle,
        join_crossfade_ms: q.join_crossfade_ms,
    }
}

fn with_clips_exec(p: &Project, ti: usize, cs: Vec<Clip>) -> (r: Project)
    requires
        ti < p.tracks.len(),
    ensures
        r@ == with_clips(p@, ti as int, clips_view(cs@)),
{
    let tracks = set_track_clips(crate::model::copy_tracks(&p.tracks), ti, cs);
    with_tracks_exec(p, tracks)
}

/// Refuses a change that makes clips of one track overlap.
fn check_overlap(t: &Track) -> (r: Result<(), Reject>)
    ensures
        r is Ok <==> overlap_pairs(t@.clips).len() == 0,
        r matches Err(e) ==> e@ == RejectV::InvariantViolation(overlap_msg(overlap_pairs(t@.clips))),
{
    let ov = Project::overlaps(t);
    if ov.len() == 0 {
        Ok(())
    } else {
        Err(Reject::InvariantViolation(overlap_message(&ov)))
    }
}

fn mutate_update(p: &Project, clip_id: String, patch: ClipPatch) -> (r: Result<Mutation, Reject>)
    ensures
        match r {
            Ok(m) => mut_update(p@, clip_id@, patch@) == Ok::<MutV, RejectV>(m@),
            Err(e) => mut_update(p@, clip_id@, patch@) == Err::<MutV, RejectV>(e@),
        },
{
    if patch.is_empty() {
        return Err(Reject::EmptyPatch(clip_id));
    }
    let (ti, ci) = match p.find_clip(clip_id.as_str()) {
        Some(x) => x,
        None => {
            return Err(Reject::UnknownClip(clip_id));
        },
    };
    proof {
        crate::model::lemma_clip_pos_from(p@.tracks, clip_id@, 0);
    }
    let path = clip_pointer(ti, ci);
    let old_clip = &p.tracks[ti].clips[ci];
    let before = clip_to_json(old_clip);
    let mut clip = old_clip.duplicate();
    let changes = patch.apply_to(&mut clip);
    let summary = update_summary_text(clip_id.as_str(), &changes);
    let after = clip_to_json(&clip);
    let mut cs = crate::model::copy_clips(&p.tracks[ti].clips);
    let ghost c2 = clip@;
    cs.set(ci, clip);
    assert(clips_view(cs@) =~= p@.tracks[ti as int].clips.update(ci as int, c2));
    let t2 = Track { id: p.tracks[ti].id.clone(), kind: p.tracks[ti].kind, name: crate::model::copy_opt_str(&p.tracks[ti].name), clips: cs };
    check_overlap(&t2)?;
    let project = with_clips_exec(p, ti, t2.clips);
    Ok(Mutation { project, path, before, after, summary, kind: OpKind::SetValue })
}

fn mutate_delete(p: &Project, clip_id: String) -> (r: Result<Mutation, Reject>)
    ensures
        match r {
            Ok(m) => mut_delete(p@, clip_id@) == Ok::<MutV, RejectV>(m@),
            Err(e) => mut_delete(p@, clip_id@) == Err::<MutV, RejectV>(e@),
        },
{
    let (ti, ci) = match p.find_clip(clip_id.as_str()) {
        Some(x) => x,
        None => {
            return Err(Reject::UnknownClip(clip_id));
        },
    };
    proof {
        crate::model::lemma_clip_pos_from(p@.tracks, clip_id@, 0);
    }
    let path = clips_pointer(ti);
    let before = clips_to_json(&p.tracks[ti].clips);
    let mut cs = crate::model::copy_clips(&p.tracks[ti].clips);
    let ghost cv = clips_view(cs@);
    let _removed = cs.remove(ci);
    assert(clips_view(cs@) =~= cv.remove(ci as int));
    let after = clips_to_json(&cs);
    let mut summary = "clip_delete ".to_string();
    summary.append(clip_id.as_str());
    let project = with_clips_exec(p, ti, cs);
    Ok(Mutation { project, path, before, after, summary, kind: OpKind::Delete })
}

fn mutate_move_within(p: &Project, clip_id: String, start: u64) -> (r: Result<Mutation, Reject>)
    ensures
        match r {
            Ok(m) => mut_move_within(p@, clip_id@, start) == Ok::<MutV, RejectV>(m@),
            Err(e) => mut_move_within(p@, clip_id@, start) == Err::<MutV, RejectV>(e@),
        },
{
    let (ti, ci) = match p.find_clip(clip_id.as_str()) {
        Some(x) => x,
        None => {
            return Err(Reject::UnknownClip(clip_id));
        },
    };
    proof {
        crate::model::lemma_clip_pos_from(p@.tracks, clip_id@, 0);
    }
    let path = clip_pointer(ti, ci);
    let old_clip = &p.tracks[ti].clips[ci];
    let before = clip_to_json(old_clip);
    let mut clip = old_clip.duplicate();
    clip.start_ms = start;
    let after = clip_to_json(&clip);
    let mut cs = crate::model::copy_clips(&p.tracks[ti].clips);
    let ghost c2 = clip@;
    cs.set(ci, clip);
    assert(clips_view(cs@) =~= p@.tracks[ti as int].clips.update(ci as int, c2));
    let t2 = Track { id: p.tracks[ti].id.clone(), kind: p.tracks[ti].kind, name: crate::model::copy_opt_str(&p.tracks[ti].name), clips: cs };
    check_overlap(&t2)?;
    let mut summary = "clip_move ".to_string();
    summary.append(clip_id.as_str());
    summary.append("→");
    push_dec(&mut summary, start);
    summary.append("ms");
    let project = with_clips_exec(p, ti, t2.clips);
    Ok(Mutation { project, path, before, after, summary, kind: OpKind::Move })
}

fn mutate_insert(p: &Project, to_track: String, clip: Clip) -> (r: Result<Mutation, Reject>)
    ensures
        match r {
            Ok(m) => mut_insert(p@, to_track@, clip@) == Ok::<MutV, RejectV>(m@),
            Err(e) => mut_insert(p@, to_track@, clip@) == Err::<MutV, RejectV>(e@),
        },
{
    let ti = match p.find_track(to_track.as_str()) {
        Some(x) => x,
        None => {
            return Err(Reject::UnknownTrack(to_track));
        },
    };
    proof {
        crate::model::lemma_track_index_from(p@.tracks, to_track@, 0);
    }
    if p.find_clip(clip.id.as_str()).is_some() {
        return Err(Reject::DuplicateClipId(clip.id));
    }
    let path = clips_pointer(ti);
    let before = clips_to_json(&p.tracks[ti].clips);
    let mut summary = "clip_insert ".to_string();
    summary.append(clip.id.as_str());
    summary.append("→");
    summary.append(to_track.as_str());
    let mut cs = crate::model::copy_clips(&p.tracks[ti].clips);
    let ghost cv = clips_view(cs@);
    let ghost c = clip@;
    cs.push(clip);
    assert(clips_view(cs@) =~= cv.push(c));
    let after = clips_to_json(&cs);
    let t2 = Track { id: p.tracks[ti].id.clone(), kind: p.tracks[ti].kind, name: crate::model::copy_opt_str(&p.tracks[ti].name), clips: cs };
    check_overlap(&t2)?;
    let project = with_clips_exec(p, ti, t2.clips);
    Ok(Mutation { project, path, before, after, summary, kind: OpKind::Insert })
}

} // verus!

verus! {

fn too_many_message() -> (r: String)
    ensures
        r@ == too_many_msg(),
{
    "轨道片段数超出上限".to_string()
}

#[verifier::rlimit(80)]
fn mutate_split(p: &Project, clip_id: String, t_ms: u64) -> (r: Result<Mutation, Reject>)
    ensures
        match r {
            Ok(m) => mut_split(p@, clip_id@, t_ms) == Ok::<MutV, RejectV>(m@),
            Err(e) => mut_split(p@, clip_id@, t_ms) == Err::<MutV, RejectV>(e@),
        },
{
    let (ti, ci) = match p.find_clip(clip_id.as_str()) {
        Some(x) => x,
        None => {
            return Err(Reject::UnknownClip(clip_id));
        },
    };
    proof {
        crate::model::lemma_clip_pos_from(p@.tracks, clip_id@, 0);
    }
    let track = &p.tracks[ti];
    let ghost cs0 = track@.clips;
    let clip = &track.clips[ci];
    let end = Project::clip_end(clip);
    let mut k: usize = 0;
    let mut done = false;
    while k < track.clips.len() && !done
        invariant
            k <= track.clips.len(),
            cs0 == track@.clips,
            !done ==> forall|q: int| 0 <= q < k ==> !(#[trigger] cs0[q].start_ms == t_ms && cs0[q].id != clip_id@),
            done ==> k < track.clips.len() && cs0[k as int].start_ms == t_ms && cs0[k as int].id != clip_id@,
        decreases track.clips.len() - k + (if done { 0int } else { 1int }),
    {
        assert(cs0[k as int] == track.clips@[k as int]@);
        if track.clips[k].start_ms == t_ms && !str_eq(track.clips[k].id.as_str(), clip_id.as_str()) {
            done = true;
        } else {
            k += 1;
        }
    }
    if done {
        let arr = clips_to_json(&track.clips);
        let before = arr.deep_copy();
        let mut summary = "clip_split ".to_string();
        summary.append(clip_id.as_str());
        summary.append("@");
        push_dec(&mut summary, t_ms);
        summary.append("(已切,幂等)");
        return Ok(Mutation { project: p.duplicate(), path: clips_pointer(ti), before, after: arr, summary, kind: OpKind::Split });
    }
    if t_ms <= clip.start_ms || t_ms >= end {
        return Err(Reject::SplitOutside { clip_id, t_ms });
    }
    if track.clips.len() as u64 >= CLIP_LIMIT {
        return Err(Reject::InvariantViolation(too_many_message()));
    }
    let path = clips_pointer(ti);
    let before = clips_to_json(&track.clips);
    let mut left = clip.duplicate();
    left.duration_ms = t_ms - left.start_ms;
    let mut right = clip.duplicate();
    right.id = Project::next_clip_id(track);
    right.start_ms = t_ms;
    right.duration_ms = end - t_ms;
    right.source_in_ms = match clip.source_in_ms {
        Some(s) => Some(s.saturating_add(t_ms - clip.start_ms)),
        None => None,
    };
    right.text = None;
    let mut cs = crate::model::copy_clips(&track.clips);
    let ghost lv = left@;
    let ghost rv = right@;
    cs.set(ci, left);
    cs.insert(ci + 1, right);
    assert(clips_view(cs@) =~= cs0.take(ci as int) + seq![lv, rv] + cs0.skip(ci + 1));
    let after = clips_to_json(&cs);
    let mut summary = "clip_split ".to_string();
    summary.append(clip_id.as_str());
    summary.append("@");
    push_dec(&mut summary, t_ms);
    let project = with_clips_exec(p, ti, cs);
    Ok(Mutation { project, path, before, after, summary, kind: OpKind::Split })
}

fn mutate_move_across(p: &Project, clip_id: String, start: u64, to_track: String) -> (r: Result<Mutation, Reject>)
    ensures
        match r {
            Ok(m) => mut_move_across(p@, clip_id@, start, to_track@) == Ok::<MutV, RejectV>(m@),
            Err(e) => mut_move_across(p@, clip_id@, start, to_track@) == Err::<MutV, RejectV>(e@),
        },
{
    let ti = match p.find_track(to_track.as_str()) {
        Some(x) => x,
        None => {
            return Err(Reject::UnknownTrack(to_track));
        },
    };
    proof {
        crate::model::lemma_track_index_from(p@.tracks, to_track@, 0);
    }
    let (sti, ci) = match p.find_clip(clip_id.as_str()) {
        Some(x) => x,
        None => {
            return Err(Reject::UnknownClip(clip_id));
        },
    };
    proof {
        crate::model::lemma_clip_pos_from(p@.tracks, clip_id@, 0);
    }
    if p.tracks[sti].kind != p.tracks[ti].kind {
        return Err(Reject::InvariantViolation(kind_message(p.tracks[sti].kind, p.tracks[ti].kind)));
    }
    let before = tracks_to_json(&p.tracks);
    let mut src_clips = crate::model::copy_clips(&p.tracks[sti].clips);
    let ghost sv = clips_view(src_clips@);
    let mut clip = src_clips.remove(ci);
    assert(clips_view(src_clips@) =~= sv.remove(ci as int));
    let ts1 = set_track_clips(crate::model::copy_tracks(&p.tracks), sti, src_clips);
    if ts1[ti].clips.len() as u64 >= CLIP_LIMIT {
        return Err(Reject::InvariantViolation(too_many_message()));
    }
    clip.start_ms = start;
    clip.id = Project::next_clip_id(&ts1[ti]);
    let mut dst_clips = crate::model::copy_clips(&ts1[ti].clips);
    let ghost dv = clips_view(dst_clips@);
    let ghost mv = clip@;
    dst_clips.push(clip);
    assert(clips_view(dst_clips@) =~= dv.push(mv));
    let ts2 = set_track_clips(ts1, ti, dst_clips);
    check_overlap(&ts2[ti])?;
    let after = tracks_to_json(&ts2);
    let mut summary = "clip_move ".to_string();
    summary.append(clip_id.as_str());
    summary.append("→");
    summary.append(to_track.as_str());
    summary.append("@");
    push_dec(&mut summary, start);
    summary.append("ms");
    let project = with_tracks_exec(p, ts2);
    Ok(Mutation { project, path: "/tracks".to_string(), before, after, summary, kind: OpKind::Move })
}

fn mutate_merge(p: &Project, left_id: String, right_id: String) -> (r: Result<Mutation, Reject>)
    ensures
        match r {
            Ok(m) => mut_merge(p@, left_id@, right_id@) == Ok::<MutV, RejectV>(m@),
            Err(e) => mut_merge(p@, left_id@, right_id@) == Err::<MutV, RejectV>(e@),
        },
{
    let (lt, li) = match p.find_clip(left_id.as_str()) {
        Some(x) => x,
        None => {
            return Err(Reject::UnknownClip(left_id));
        },
    };
    let (rt, ri) = match p.find_clip(right_id.as_str()) {
        Some(x) => x,
        None => {
            return Err(Reject::UnknownClip(right_id));
        },
    };
    proof {
        crate::model::lemma_clip_pos_from(p@.tracks, left_id@, 0);
        crate::model::lemma_clip_pos_from(p@.tracks, right_id@, 0);
    }
    if lt != rt || ri == 0 || ri - 1 != li {
        return Err(Reject::NotAdjacent { left_id, right_id });
    }
    let cs0 = &p.tracks[lt].clips;
    let left_end = Project::clip_end(&cs0[li]);
    if left_end != cs0[ri].start_ms {
        return Err(Reject::NotAdjacent { left_id, right_id });
    }
    let path = clips_pointer(lt);
    let before = clips_to_json(cs0);
    let right_end = Project::clip_end(&cs0[ri]);
    let mut merged = cs0[li].duplicate();
    merged.duration_ms = right_end - merged.start_ms;
    let mut cs = crate::model::copy_clips(cs0);
    let ghost cv = clips_view(cs@);
    let ghost mv = merged@;
    cs.set(li, merged);
    let _r = cs.remove(ri);
    assert(clips_view(cs@) =~= cv.update(li as int, mv).remove(ri as int));
    let after = clips_to_json(&cs);
    let mut summary = "clip_merge ".to_string();
    summary.append(left_id.as_str());
    summary.append("+");
    summary.append(right_id.as_str());
    let project = with_clips_exec(p, lt, cs);
    Ok(Mutation { project, path, before, after, summary, kind: OpKind::Merge })
}

/// What a command does to the project (the project itself is not changed).
pub fn mutate(p: &Project, cmd: Command) -> (r: Result<Mutation, Reject>)
    ensures
        match r {
            Ok(m) => mutate_spec(p@, cmd@) == Ok::<MutV, RejectV>(m@),
            Err(e) => mutate_spec(p@, cmd@) == Err::<MutV, RejectV>(e@),
        },
{
    match cmd {
        Command::ClipUpdate { clip_id, patch } => mutate_update(p, clip_id, patch),
        Command::ClipSplit { clip_id, t_ms } => mutate_split(p, clip_id, t_ms),
        Command::ClipDelete { clip_id } => mutate_delete(p, clip_id),
        Command::ClipMove { clip_id, new_start_ms, to_track } => match to_track {
            None => mutate_move_within(p, clip_id, new_start_ms),
            Some(t) => mutate_move_across(p, clip_id, new_start_ms, t),
        },
        Command::ClipInsert { to_track, clip, request_id: _ } => mutate_insert(p, to_track, clip),
        Command::ClipMerge { left_id, right_id } => mutate_merge(p, left_id, right_id),
    }
}

} // verus!

verus! {

/// The non-empty segments of a JSON pointer, split at `/`, scanning from
/// `i` with the segment `cur` in progress and `acc` done.
pub open spec fn segs_from(s: Seq<char>, i: int, cur: Seq<char>, acc: Seq<Seq<char>>) -> Seq<Seq<char>>
    decreases s.len() - i,
{
    if i < 0 || i >= s.len() {
        if cur.len() > 0 {
            acc.push(cur)
        } else {
            acc
        }
    } else if s[i] == '/' {
        segs_from(s, i + 1, Seq::empty(), if cur.len() > 0 { acc.push(cur) } else { acc })
    } else {
        segs_from(s, i + 1, cur.push(s[i]), acc)
    }
}

pub open spec fn ptr_segs(s: Seq<char>) -> Seq<Seq<char>> {
    segs_from(s, 0, Seq::empty(), Seq::empty())
}

/// Where a new key goes in a key-ordered field list.
pub open spec fn insert_pos(fs: Seq<(Seq<char>, JVal)>, k: Seq<char>, i: int) -> int
    decreases fs.len() - i,
{
    if i < 0 || i >= fs.len() {
        fs.len() as int
    } else if crate::json::seq_lt(fs[i].0, k) {
        insert_pos(fs, k, i + 1)
    } else {
        i
    }
}

/// Sets field `k` of an object: replaces its value, or inserts it in key
/// order.
pub open spec fn obj_insert(fs: Seq<(Seq<char>, JVal)>, k: Seq<char>, v: JVal) -> Seq<(Seq<char>, JVal)> {
    match crate::json::find_key(fs, k) {
        Some(i) => fs.update(i, (k, v)),
        None => fs.insert(insert_pos(fs, k, 0), (k, v)),
    }
}

pub open spec fn set_last(v: JVal, seg: Seq<char>, payload: JVal) -> Option<JVal> {
    match v {
        JVal::Obj(fs) => Some(JVal::Obj(obj_insert(fs, seg, payload))),
        JVal::Arr(a) => match crate::text::parse_u64_spec(seg) {
            Some(n) => if n < a.len() {
                Some(JVal::Arr(a.update(n as int, payload)))
            } else {
                None
            },
            None => None,
        },
        _ => None,
    }
}

/// The value with the subtree at the pointer segments replaced by
/// `payload`; `None` where the pointer does not lead into the value.
pub open spec fn set_at(v: JVal, segs: Seq<Seq<char>>, payload: JVal) -> Option<JVal>
    decreases segs.len(),
{
    if segs.len() == 0 {
        Some(v)
    } else if segs.len() == 1 {
        set_last(v, segs[0], payload)
    } else {
        match v {
            JVal::Obj(fs) => match crate::json::find_key(fs, segs[0]) {
                Some(i) => match set_at(fs[i].1, segs.drop_first(), payload) {
                    Some(c) => Some(JVal::Obj(fs.update(i, (fs[i].0, c)))),
                    None => None,
                },
                None => None,
            },
            JVal::Arr(a) => match crate::text::parse_u64_spec(segs[0]) {
                Some(n) => if n < a.len() {
                    match set_at(a[n as int], segs.drop_first(), payload) {
                        Some(c) => Some(JVal::Arr(a.update(n as int, c))),
                        None => None,
                    }
                } else {
                    None
                },
                None => None,
            },
            _ => None,
        }
    }
}

/// The project with the value at `ptr` of its document form replaced.
pub open spec fn value_at_spec(p: ProjectV, ptr: Seq<char>, payload: JVal) -> Option<ProjectV> {
    match set_at(project_json(p), ptr_segs(ptr), payload) {
        Some(v) => project_from_json(v),
        None => None,
    }
}

fn pointer_segments(s: &str) -> (r: Vec<String>)
    ensures
        crate::oplog::strings_view(r@) == ptr_segs(s@),
{
    let n = s.unicode_len();
    let mut acc: Vec<String> = Vec::new();
    let mut cur = String::new();
    let mut i: usize = 0;
    assert(crate::oplog::strings_view(acc@) =~= Seq::<Seq<char>>::empty());
    assert(cur@ =~= Seq::<char>::empty());
    while i < n
        invariant
            n == s@.len(),
            i <= n,
            ptr_segs(s@) == segs_from(s@, i as int, cur@, crate::oplog::strings_view(acc@)),
        decreases n - i,
    {
        let c = s.get_char(i);
        if c == '/' {
            if cur.as_str().unicode_len() > 0 {
                let ghost prev = acc@;
                let ghost cv = cur@;
                acc.push(cur);
                assert(crate::oplog::strings_view(acc@) =~= crate::oplog::strings_view(prev).push(cv));
            }
            cur = String::new();
        } else {
            let ghost cv = cur@;
            cur.append(s.substring_char(i, i + 1));
            assert(cur@ =~= cv.push(c));
        }
        i += 1;
    }
    if cur.as_str().unicode_len() > 0 {
        let ghost prev = acc@;
        let ghost cv = cur@;
        acc.push(cur);
        assert(crate::oplog::strings_view(acc@) =~= crate::oplog::strings_view(prev).push(cv));
    }
    acc
}

fn insert_position(fs: &Vec<(String, Json)>, k: &str) -> (r: usize)
    ensures
        r as int == insert_pos(crate::json::fields_view(fs@), k@, 0),
        r <= fs.len(),
{
    let ghost fv = crate::json::fields_view(fs@);
    let mut i: usize = 0;
    while i < fs.len()
        invariant
            i <= fs.len(),
            fv == crate::json::fields_view(fs@),
            insert_pos(fv, k@, 0) == insert_pos(fv, k@, i as int),
        decreases fs.len() - i,
    {
        if !crate::json::str_lt(fs[i].0.as_str(), k) {
            return i;
        }
        i += 1;
    }
    i
}

fn set_at_exec(v: Json, segs: &Vec<String>, i: usize, payload: Json) -> (r: Result<Json, String>)
    requires
        i <= segs.len(),
    ensures
        match r {
            Ok(x) => set_at(v@, crate::oplog::strings_view(segs@).skip(i as int), payload@) == Some(x@),
            Err(_) => set_at(v@, crate::oplog::strings_view(segs@).skip(i as int), payload@) is None,
        },
    decreases segs.len() - i,
{
    let ghost sv = crate::oplog::strings_view(segs@).skip(i as int);
    if i == segs.len() {
        assert(sv.len() == 0);
        return Ok(v);
    }
    let seg = segs[i].as_str();
    assert(sv[0] == seg@);
    let last = i + 1 == segs.len();
    match v {
        Json::Obj(fs) => {
            let ghost fv = crate::json::fields_view(fs@);
            proof {
                crate::json::lemma_fields_view(fs);
            }
            match crate::json::field_index(&fs, seg) {
                Some(idx) => {
                    proof {
                        crate::json::lemma_find_from(fv, seg@, 0);
                    }
                    let mut fs = fs;
                    let (k, child) = fs.remove(idx);
                    if last {
                        fs.insert(idx, (k, payload));
                        assert(crate::json::fields_view(fs@) =~= fv.update(idx as int, (seg@, payload@)));
                        proof {
                            crate::json::lemma_fields_view(fs);
                        }
                        Ok(Json::Obj(fs))
                    } else {
                        assert(sv.drop_first() =~= crate::oplog::strings_view(segs@).skip(i + 1));
                        let c = match set_at_exec(child, segs, i + 1, payload) {
                            Ok(c) => c,
                            Err(e) => {
                                return Err(e);
                            },
                        };
                        let ghost cv = c@;
                        fs.insert(idx, (k, c));
                        assert(crate::json::fields_view(fs@) =~= fv.update(idx as int, (fv[idx as int].0, cv)));
                        proof {
                            crate::json::lemma_fields_view(fs);
                        }
                        Ok(Json::Obj(fs))
                    }
                },
                None => {
                    if last {
                        let pos = insert_position(&fs, seg);
                        let mut fs = fs;
                        fs.insert(pos, (seg.to_string(), payload));
                        assert(crate::json::fields_view(fs@) =~= fv.insert(pos as int, (seg@, payload@)));
                        proof {
                            crate::json::lemma_fields_view(fs);
                        }
                        Ok(Json::Obj(fs))
                    } else {
                        Err("pointer names a missing key".to_string())
                    }
                },
            }
        },
        Json::Arr(a) => {
            let ghost av = crate::json::arr_view(a@);
            proof {
                crate::json::lemma_arr_view(a);
            }
            match crate::text::parse_u64(seg) {
                Some(n) => {
                    if n >= a.len() as u64 {
                        return Err("pointer index out of range".to_string());
                    }
                    let idx = n as usize;
                    let mut a = a;
                    let child = a.remove(idx);
                    if last {
                        a.insert(idx, payload);
                        assert(crate::json::arr_view(a@) =~= av.update(idx as int, payload@));
                        proof {
                            crate::json::lemma_arr_view(a);
                        }
                        Ok(Json::Arr(a))
                    } else {
                        assert(sv.drop_first() =~= crate::oplog::strings_view(segs@).skip(i + 1));
                        let c = match set_at_exec(child, segs, i + 1, payload) {
                            Ok(c) => c,
                            Err(e) => {
                                return Err(e);
                            },
                        };
                        let ghost cv = c@;
                        a.insert(idx, c);
                        assert(crate::json::arr_view(a@) =~= av.update(idx as int, cv));
                        proof {
                            crate::json::lemma_arr_view(a);
                        }
                        Ok(Json::Arr(a))
                    }
                },
                None => Err("pointer segment is not an array index".to_string()),
            }
        },
        _ => Err("pointer leads through a value that is not a container".to_string()),
    }
}

/// Sets the value at a JSON pointer of the project's document form and
/// reads the project back (the common mechanism of undo, redo and replay).
pub fn apply_value_at(project: &Project, pointer: &str, value: Json) -> (r: Result<Project, String>)
    ensures
        match r {
            Ok(p) => value_at_spec(project@, pointer@, value@) == Some(p@),
            Err(_) => value_at_spec(project@, pointer@, value@) is None,
        },
{
    let v = project_to_json(project);
    let segs = pointer_segments(pointer);
    assert(crate::oplog::strings_view(segs@).skip(0) =~= crate::oplog::strings_view(segs@));
    let nv = set_at_exec(v, &segs, 0, value)?;
    project_from(&nv)
}

} // verus!

verus! {

pub fn obj_insert_exec(fs: Vec<(String, Json)>, k: &str, v: Json) -> (r: Vec<(String, Json)>)
    ensures
        crate::json::fields_view(r@) == obj_insert(crate::json::fields_view(fs@), k@, v@),
{
    let ghost fv = crate::json::fields_view(fs@);
    let mut fs = fs;
    match crate::json::field_index(&fs, k) {
        Some(idx) => {
            let _old = fs.remove(idx);
            let ghost vv = v@;
            fs.insert(idx, (k.to_string(), v));
            assert(crate::json::fields_view(fs@) =~= fv.update(idx as int, (k@, vv)));
        },
        None => {
            let pos = insert_position(&fs, k);
            let ghost vv = v@;
            fs.insert(pos, (k.to_string(), v));
            assert(crate::json::fields_view(fs@) =~= fv.insert(pos as int, (k@, vv)));
        },
    }
    fs
}

pub open spec fn set_add(s: Seq<Seq<char>>, x: Seq<char>) -> Seq<Seq<char>> {
    if s.contains(x) {
        s
    } else {
        s.push(x)
    }
}

fn set_add_exec(v: &mut Vec<String>, x: &str)
    ensures
        crate::oplog::strings_view(final(v)@) == set_add(crate::oplog::strings_view(old(v)@), x@),
{
    let ghost sv = crate::oplog::strings_view(v@);
    let mut i: usize = 0;
    while i < v.len()
        invariant
            i <= v.len(),
            sv == crate::oplog::strings_view(v@),
            forall|k: int| 0 <= k < i ==> sv[k] != x@,
        decreases v.len() - i,
    {
        if str_eq(v[i].as_str(), x) {
            assert(sv[i as int] == x@);
            assert(sv.contains(x@));
            return;
        }
        i += 1;
    }
    assert(!sv.contains(x@));
    v.push(x.to_string());
    assert(crate::oplog::strings_view(v@) =~= sv.push(x@));
}

/// The engine's state: the project, the log, the revision, the undo and
/// redo stacks (op ids), the in-memory states of the other source-of-truth
/// files, and the files written since they were last taken.
#[derive(Debug)]
pub struct Engine {
    project: Project,
    log: OpLog,
    rev: u64,
    undo_stack: Vec<String>,
    redo_stack: Vec<String>,
    file_states: Vec<(String, Json)>,
    dirty_files: Vec<String>,
    schema: Option<Json>,
}

pub struct EngineV {
    pub project: ProjectV,
    pub log: OpLogV,
    pub rev: u64,
    pub undo: Seq<Seq<char>>,
    pub redo: Seq<Seq<char>>,
    pub files: Seq<(Seq<char>, JVal)>,
    pub dirty: Seq<Seq<char>>,
    /// The project schema every write must satisfy, once one is set.
    pub schema: Option<JVal>,
}

impl View for Engine {
    type V = EngineV;
    closed spec fn view(&self) -> EngineV {
        EngineV {
            project: self.project@,
            log: self.log@,
            rev: self.rev,
            undo: crate::oplog::strings_view(self.undo_stack@),
            redo: crate::oplog::strings_view(self.redo_stack@),
            files: crate::json::fields_view(self.file_states@),
            dirty: crate::oplog::strings_view(self.dirty_files@),
            schema: match self.schema {
                Some(j) => Some(j@),
                None => None,
            },
        }
    }
}

pub open spec fn receipt(ids: Seq<Seq<char>>, rev: u64, idem: bool) -> OpReceiptV {
    OpReceiptV { op_ids: ids, rev, idempotent: idem }
}

pub open spec fn result_view(r: Result<OpReceipt, Reject>) -> Result<OpReceiptV, RejectV> {
    match r {
        Ok(x) => Ok(x@),
        Err(e) => Err(e@),
    }
}

pub open spec fn caused_view(c: Seq<Seq<char>>) -> Option<Seq<Seq<char>>> {
    if c.len() == 0 {
        None
    } else {
        Some(c)
    }
}

pub open spec fn rev_label(n: u64) -> Seq<char> {
    "rev-"@ + dec(n as nat)
}

/// The op `apply` records for a change (the timestamp aside).
pub open spec fn op_fits(
    o: OpV,
    id: Seq<char>,
    actor: ActorV,
    file: Seq<char>,
    path: Seq<char>,
    kind: OpKind,
    before: JVal,
    after: JVal,
    old_rev: u64,
    opts: ApplyOptsV,
    summary: Seq<char>,
    auto: Option<bool>,
) -> bool {
    &&& o.op_id == id
    &&& o.actor == actor
    &&& o.file == file
    &&& o.path == path
    &&& o.op_kind == kind
    &&& o.before == before
    &&& o.after == after
    &&& o.base_rev == rev_label(old_rev)
    &&& o.rev == Some((old_rev + 1) as u64)
    &&& o.caused_by == caused_view(opts.caused_by)
    &&& o.summary == match opts.summary {
        Some(s) => s,
        None => summary,
    }
    &&& o.request_id == opts.request_id
    &&& o.auto == auto
}

/// The early answers of a write: a repeated request id, a stale base
/// revision, a repeated op id.
pub open spec fn early_answer(e: EngineV, opts: ApplyOptsV) -> Option<Result<OpReceiptV, RejectV>> {
    if opts.request_id matches Some(rid) && has_request(e.log.ops, rid) {
        Some(Ok(receipt(Seq::empty(), e.rev, true)))
    } else if opts.expect_rev matches Some(x) && x != e.rev {
        Some(Err(RejectV::PreconditionFailed { expected: opts.expect_rev->0, actual: e.rev }))
    } else if opts.op_id matches Some(id) && has_op_id(e.log.ops, id) {
        Some(Ok(receipt(seq![opts.op_id->0], e.rev, true)))
    } else {
        None
    }
}

/// The op id a write records, and the op-number bound after it.
pub open spec fn write_id(e: EngineV, opts: ApplyOptsV) -> (Seq<char>, u64) {
    match opts.op_id {
        Some(id) => (id, e.log.next_op),
        None => crate::oplog::alloc_op_id(e.log),
    }
}

/// The state after a recorded write: one op appended, the revision raised,
/// the undo stack grown and the redo stack cleared (unless the write is
/// bookkeeping).
pub open spec fn recorded(old: EngineV, new: EngineV, id: Seq<char>, next_op: u64, opts: ApplyOptsV) -> bool {
    &&& new.rev == old.rev + 1
    &&& new.log.next_op == next_op
    &&& new.log.ops.len() == old.log.ops.len() + 1
    &&& new.log.ops.take(old.log.ops.len() as int) == old.log.ops
    &&& new.undo == (if opts.non_undoable { old.undo } else { old.undo.push(id) })
    &&& new.redo == (if opts.non_undoable { old.redo } else { Seq::<Seq<char>>::empty() })
    &&& new.schema == old.schema
}

/// The text of the refusal a write gets when the schema set on the engine
/// cannot be used.
pub open spec fn unusable_schema_text() -> Seq<char> {
    "project schema 无法使用($ref 或 pattern 无效)"@
}

/// What the schema says of a changed project: nothing without a schema;
/// the violations, when there are any; the unusable-schema refusal when a
/// `$ref` cannot be resolved or a `pattern` does not compile.
pub open spec fn schema_check(schema: Option<JVal>, p: ProjectV) -> Option<RejectV> {
    match schema {
        None => None,
        Some(sc) => match crate::schema::validate_spec(sc, sc, crate::codec::project_json(p), "$"@) {
            None => Some(RejectV::InvariantViolation(unusable_schema_text())),
            Some(errs) => if errs.len() > 0 {
                Some(RejectV::SchemaInvalid(errs))
            } else {
                None
            },
        },
    }
}

/// What `apply` answers and how the state changes.
pub open spec fn apply_post(
    old: EngineV,
    cmd: CommandV,
    actor: ActorV,
    opts: ApplyOptsV,
    new: EngineV,
    res: Result<OpReceiptV, RejectV>,
) -> bool {
    match early_answer(old, opts) {
        Some(a) => res == a && new == old,
        None => match mutate_spec(old.project, cmd) {
            Err(e) => res == Err::<OpReceiptV, RejectV>(e) && new == old,
            Ok(m) => if m.before == m.after {
                res == Ok::<OpReceiptV, RejectV>(receipt(Seq::empty(), old.rev, true)) && new == old
            } else if schema_check(old.schema, m.project) is Some {
                res == Err::<OpReceiptV, RejectV>(schema_check(old.schema, m.project)->0) && new == old
            } else {
                let (id, nxt) = write_id(old, opts);
                if has_op_id(old.log.ops, id) {
                    &&& res == Ok::<OpReceiptV, RejectV>(receipt(seq![id], old.rev, true))
                    &&& new == EngineV { log: OpLogV { next_op: nxt, ..old.log }, ..old }
                } else {
                    &&& res == Ok::<OpReceiptV, RejectV>(receipt(seq![id], (old.rev + 1) as u64, false))
                    &&& recorded(old, new, id, nxt, opts)
                    &&& new.project == m.project
                    &&& new.files == old.files
                    &&& new.dirty == old.dirty
                    &&& op_fits(
                        new.log.ops.last(),
                        id,
                        actor,
                        "project.json"@,
                        m.path,
                        m.kind,
                        m.before,
                        m.after,
                        old.rev,
                        opts,
                        m.summary,
                        if opts.non_undoable { Some(true) } else { None },
                    )
                }
            },
        },
    }
}

/// What schema `sc` says of a project.
fn check_with(sc: &Json, p: &Project) -> (r: Option<Reject>)
    ensures
        match r {
            Some(e) => schema_check(Some(sc@), p@) == Some(e@),
            None => schema_check(Some(sc@), p@) is None,
        },
{
    let doc = crate::codec::project_to_json(p);
    match crate::schema::try_validate_node(sc, sc, &doc, "$") {
        None => Some(Reject::InvariantViolation("project schema 无法使用($ref 或 pattern 无效)".to_string())),
        Some(errs) => {
            if errs.len() > 0 {
                Some(Reject::SchemaInvalid(errs))
            } else {
                None
            }
        },
    }
}

/// The schema's verdict on a changed project.
fn check_schema(schema: &Option<Json>, p: &Project) -> (r: Option<Reject>)
    ensures
        match r {
            Some(e) => schema_check(
                match schema {
                    Some(j) => Some(j@),
                    None => None,
                },
                p@,
            ) == Some(e@),
            None => schema_check(
                match schema {
                    Some(j) => Some(j@),
                    None => None,
                },
                p@,
            ) is None,
        },
{
    match schema {
        None => None,
        Some(sc) => check_with(sc, p),
    }
}

fn receipt_of(ids: Vec<String>, rev: u64, idem: bool) -> (r: OpReceipt)
    ensures
        r@ == receipt(crate::oplog::strings_view(ids@), rev, idem),
{
    OpReceipt { op_ids: ids, rev, idempotent: idem }
}

fn no_ids() -> (r: Vec<String>)
    ensures
        crate::oplog::strings_view(r@) == Seq::<Seq<char>>::empty(),
{
    let v: Vec<String> = Vec::new();
    assert(crate::oplog::strings_view(v@) =~= Seq::<Seq<char>>::empty());
    v
}

fn one_id(s: &String) -> (r: Vec<String>)
    ensures
        crate::oplog::strings_view(r@) == seq![s@],
{
    let mut v: Vec<String> = Vec::new();
    v.push(s.clone());
    assert(crate::oplog::strings_view(v@) =~= seq![s@]);
    v
}

impl Engine {
    pub closed spec fn wf(&self) -> bool {
        self.log.wf()
    }

    /// A new engine on a project: revision 0, empty log and stacks.
    pub fn new(project: Project) -> (r: Result<Engine, Vec<String>>)
        ensures
            r matches Ok(e) && e.wf() && e@.project == project@ && e@.rev == 0 && e@.log.ops.len() == 0
                && e@.log.next_op == 0 && e@.undo.len() == 0 && e@.redo.len() == 0 && e@.files.len() == 0
                && e@.dirty.len() == 0 && e@.schema is None,
    {
        let e = Engine {
            project,
            log: OpLog::new(),
            rev: 0,
            undo_stack: Vec::new(),
            redo_stack: Vec::new(),
            file_states: Vec::new(),
            dirty_files: Vec::new(),
            schema: None,
        };
        Ok(e)
    }

    /// An engine resumed from a project, its log, revision, undo stack and
    /// file states (redo stack and dirty set empty).
    pub fn restore(
        project: Project,
        log: OpLog,
        rev: u64,
        undo_stack: Vec<String>,
        file_states: Vec<(String, Json)>,
    ) -> (r: Result<Engine, Vec<String>>)
        requires
            log.wf(),
        ensures
            r matches Ok(e) && e.wf() && e@.project == project@ && e@.log == log@ && e@.rev == rev && e@.undo
                == crate::oplog::strings_view(undo_stack@) && e@.redo.len() == 0 && e@.files
                == crate::json::fields_view(file_states@) && e@.dirty.len() == 0 && e@.schema is None,
    {
        Ok(
            Engine {
                project,
                log,
                rev,
                undo_stack,
                redo_stack: Vec::new(),
                file_states,
                dirty_files: Vec::new(),
                schema: None,
            },
        )
    }

    /// Sets the project schema that every later write of the project must
    /// satisfy.
    pub fn set_schema(&mut self, schema: Json)
        requires
            old(self).wf(),
        ensures
            final(self).wf(),
            final(self)@ == (EngineV { schema: Some(schema@), ..old(self)@ }),
    {
        self.schema = Some(schema);
    }

    pub fn rev(&self) -> (r: u64)
        ensures
            r == self@.rev,
    {
        self.rev
    }

    pub fn project(&self) -> (r: &Project)
        ensures
            r@ == self@.project,
    {
        &self.project
    }

    pub fn oplog(&self) -> (r: &OpLog)
        ensures
            r@ == self@.log,
            r.wf() == self.wf(),
    {
        &self.log
    }

    /// The in-memory state of a source-of-truth file.
    pub fn file_state(&self, file: &str) -> (r: Option<&Json>)
        ensures
            match r {
                Some(j) => crate::codec::lookup(self@.files, file@) == Some(j@),
                None => crate::codec::lookup(self@.files, file@) is None,
            },
    {
        crate::codec::get_field(&self.file_states, file)
    }

    /// All file states.
    pub fn file_states(&self) -> (r: &Vec<(String, Json)>)
        ensures
            crate::json::fields_view(r@) == self@.files,
    {
        &self.file_states
    }

    /// Takes the files written since the last call (each once) and clears
    /// the set.
    pub fn take_dirty_files(&mut self) -> (r: Vec<String>)
        ensures
            crate::oplog::strings_view(r@) == old(self)@.dirty,
            final(self)@ == (EngineV { dirty: Seq::empty(), ..old(self)@ }),
            final(self).wf() == old(self).wf(),
    {
        let mut files: Vec<String> = Vec::new();
        std::mem::swap(&mut files, &mut self.dirty_files);
        assert(crate::oplog::strings_view(self.dirty_files@) =~= Seq::<Seq<char>>::empty());
        files
    }

    /// The only write of the project: refuse a stale base revision,
    /// answer repeated requests idempotently, change the project, record the
    /// op and raise the revision.
    pub fn apply(&mut self, cmd: Command, actor: Actor, opts: ApplyOpts) -> (r: Result<OpReceipt, Reject>)
        requires
            old(self).wf(),
            old(self)@.rev < u64::MAX,
        ensures
            final(self).wf(),
            apply_post(old(self)@, cmd@, actor@, opts@, final(self)@, result_view(r)),
    {
        let ghost e0 = self@;
        let ghost ov = opts@;
        let ghost cv = cmd@;
        let ghost av = actor@;
        if let Some(rid) = &opts.request_id {
            if self.log.has_request_id(rid.as_str()) {
                return Ok(receipt_of(no_ids(), self.rev, true));
            }
        }
        if let Some(expect) = opts.expect_rev {
            if expect != self.rev {
                return Err(Reject::PreconditionFailed { expected: expect, actual: self.rev });
            }
        }
        if let Some(id) = &opts.op_id {
            if self.log.contains_op_id(id.as_str()) {
                return Ok(receipt_of(one_id(id), self.rev, true));
            }
        }
        assert(early_answer(e0, ov) is None);
        let m = mutate(&self.project, cmd)?;
        if json_eq(&m.before, &m.after) {
            return Ok(receipt_of(no_ids(), self.rev, true));
        }
        match check_schema(&self.schema, &m.project) {
            Some(rej) => {
                return Err(rej);
            },
            None => {},
        }
        let op_id = match opts.op_id {
            Some(id) => id,
            None => self.log.next_op_id(),
        };
        let ghost nxt = self.log@.next_op;
        assert((op_id@, nxt) == write_id(e0, ov));
        let new_rev = self.rev + 1;
        let summary = match opts.summary {
            Some(s) => s,
            None => m.summary,
        };
        let caused_by = if opts.caused_by.len() == 0 {
            None
        } else {
            Some(opts.caused_by)
        };
        proof {
            reveal_strlit("project.json");
        }
        let op = Op {
            op_id: op_id.clone(),
            ts: String::new(),
            actor,
            target: OpTarget { file: "project.json".to_string(), path: m.path },
            op_kind: m.kind,
            before: m.before,
            after: m.after,
            base_rev: crate::format_rev(self.rev),
            rev: Some(new_rev),
            auto: if opts.non_undoable {
                Some(true)
            } else {
                None
            },
            caused_by,
            summary,
            request_id: opts.request_id,
        };
        if self.log.push(op) {
            self.project = m.project;
            self.rev = new_rev;
            if !opts.non_undoable {
                let ghost u0 = crate::oplog::strings_view(self.undo_stack@);
                self.undo_stack.push(op_id.clone());
                assert(crate::oplog::strings_view(self.undo_stack@) =~= u0.push(op_id@));
                self.redo_stack = Vec::new();
                assert(crate::oplog::strings_view(self.redo_stack@) =~= Seq::<Seq<char>>::empty());
            }
            Ok(receipt_of(one_id(&op_id), new_rev, false))
        } else {
            assert(self@ =~= (EngineV { log: OpLogV { next_op: nxt, ..e0.log }, ..e0 }));
            Ok(receipt_of(one_id(&op_id), self.rev, true))
        }
    }
}

} // verus!

verus! {

/// Index of the first op with id `id`, scanning from `i`.
pub open spec fn op_index_from(ops: Seq<OpV>, id: Seq<char>, i: int) -> Option<int>
    decreases ops.len() - i,
{
    if i < 0 || i >= ops.len() {
        None
    } else if ops[i].op_id == id {
        Some(i)
    } else {
        op_index_from(ops, id, i + 1)
    }
}

pub open spec fn undo_msg(file: Seq<char>) -> Seq<char> {
    "撤销基准不一致:"@ + file + " 的当前态已偏离待撤销 Op 的 after(外部改动或重放),拒绝盲写"@
}

pub open spec fn redo_msg(file: Seq<char>) -> Seq<char> {
    "重做基准不一致:"@ + file + " 的当前态已偏离待重做 Op 的 before,拒绝盲写"@
}

/// What `undo` (`is_undo`) or `redo` answers and how the state changes:
/// the op on top of the stack is inverted (undo writes back its `before`,
/// redo its `after`) at its target, a new op of kind undo or redo is
/// logged, and the op id moves to the other stack. A file-level op is only
/// inverted while the file's state is still the one the op left.
pub open spec fn step_post(is_undo: bool, old: EngineV, actor: ActorV, new: EngineV, res: Result<OpReceiptV, RejectV>) -> bool {
    let stack = if is_undo { old.undo } else { old.redo };
    if stack.len() == 0 {
        res == Err::<OpReceiptV, RejectV>(if is_undo { RejectV::NothingToUndo } else { RejectV::NothingToRedo })
            && new == old
    } else {
        let tid = stack.last();
        match op_index_from(old.log.ops, tid, 0) {
            None => res == Err::<OpReceiptV, RejectV>(RejectV::UnknownOp(tid)) && new == old,
            Some(k) => {
                let o = old.log.ops[k];
                let is_project = o.file == "project.json"@;
                let expected = if is_undo { o.after } else { o.before };
                let target_value = if is_undo { o.before } else { o.after };
                if !is_project && crate::codec::lookup(old.files, o.file) != Some(expected) {
                    res == Err::<OpReceiptV, RejectV>(RejectV::InvariantViolation(
                        if is_undo { undo_msg(o.file) } else { redo_msg(o.file) },
                    )) && new == old
                } else {
                    let (nid, nxt) = crate::oplog::alloc_op_id(old.log);
                    if is_project && value_at_spec(old.project, o.path, target_value) is None {
                        res matches Err(RejectV::InvariantViolation(_)) && new == EngineV {
                            log: OpLogV { next_op: nxt, ..old.log },
                            ..old
                        }
                    } else if is_project && schema_check(
                        old.schema,
                        value_at_spec(old.project, o.path, target_value)->0,
                    ) is Some {
                        &&& res == Err::<OpReceiptV, RejectV>(
                            schema_check(old.schema, value_at_spec(old.project, o.path, target_value)->0)->0,
                        )
                        &&& new == EngineV { log: OpLogV { next_op: nxt, ..old.log }, ..old }
                    } else {
                        let logged = !has_op_id(old.log.ops, nid);
                        &&& new.rev == old.rev + 1
                        &&& new.schema == old.schema
                        &&& new.log.next_op == nxt
                        &&& new.project == (if is_project {
                            value_at_spec(old.project, o.path, target_value)->0
                        } else {
                            old.project
                        })
                        &&& new.files == (if is_project {
                            old.files
                        } else {
                            obj_insert(old.files, o.file, target_value)
                        })
                        &&& new.dirty == (if is_project { old.dirty } else { set_add(old.dirty, o.file) })
                        &&& new.undo == (if is_undo { old.undo.drop_last() } else { old.undo.push(o.op_id) })
                        &&& new.redo == (if is_undo { old.redo.push(o.op_id) } else { old.redo.drop_last() })
                        &&& logged ==> new.log.ops == old.log.ops.push(new.log.ops.last()) && {
                            let u = new.log.ops.last();
                            &&& u.op_id == nid
                            &&& u.actor == actor
                            &&& u.file == o.file
                            &&& u.path == o.path
                            &&& u.op_kind == (if is_undo { OpKind::Undo } else { OpKind::Redo })
                            &&& u.before == expected
                            &&& u.after == target_value
                            &&& u.base_rev == rev_label(old.rev)
                            &&& u.rev == Some((old.rev + 1) as u64)
                            &&& u.caused_by is None
                            &&& u.summary == (if is_undo { "撤销 "@ } else { "重做 "@ }) + o.summary
                            &&& u.request_id is None
                            &&& u.auto is None
                        }
                        &&& !logged ==> new.log.ops == old.log.ops
                        &&& res == Ok::<OpReceiptV, RejectV>(
                            receipt(seq![new.log.ops.last().op_id], (old.rev + 1) as u64, false),
                        )
                    }
                }
            },
        }
    }
}

impl Engine {
    fn find_op(&self, id: &str) -> (r: Option<usize>)
        ensures
            match r {
                Some(k) => op_index_from(self@.log.ops, id@, 0) == Some(k as int) && k < self@.log.ops.len(),
                None => op_index_from(self@.log.ops, id@, 0) is None,
            },
    {
        let ops = self.log.ops();
        let ghost ov = self@.log.ops;
        let mut i: usize = 0;
        while i < ops.len()
            invariant
                i <= ops.len(),
                ov == self@.log.ops,
                crate::oplog::ops_view(ops@) == ov,
                op_index_from(ov, id@, 0) == op_index_from(ov, id@, i as int),
            decreases ops.len() - i,
        {
            assert(ov[i as int] == ops@[i as int]@);
            if str_eq(ops[i].op_id.as_str(), id) {
                return Some(i);
            }
            i += 1;
        }
        None
    }

    fn step(&mut self, is_undo: bool, actor: Actor) -> (r: Result<OpReceipt, Reject>)
        requires
            old(self).wf(),
            old(self)@.rev < u64::MAX,
        ensures
            final(self).wf(),
            step_post(is_undo, old(self)@, actor@, final(self)@, result_view(r)),
    {
        let ghost e0 = self@;
        let stack_len = if is_undo { self.undo_stack.len() } else { self.redo_stack.len() };
        if stack_len == 0 {
            return Err(if is_undo { Reject::NothingToUndo } else { Reject::NothingToRedo });
        }
        let target_id = if is_undo {
            self.undo_stack[stack_len - 1].clone()
        } else {
            self.redo_stack[stack_len - 1].clone()
        };
        let k = match self.find_op(target_id.as_str()) {
            Some(k) => k,
            None => {
                return Err(Reject::UnknownOp(target_id));
            },
        };
        let target_op = self.log.ops()[k].duplicate();
        assert(target_op@ == e0.log.ops[k as int]);
        proof {
            reveal_strlit("project.json");
        }
        let is_project = str_eq(target_op.target.file.as_str(), "project.json");
        let expected = if is_undo { target_op.after.deep_copy() } else { target_op.before.deep_copy() };
        let target_value = if is_undo { target_op.before.deep_copy() } else { target_op.after.deep_copy() };
        if !is_project {
            let ok = match self.file_state(target_op.target.file.as_str()) {
                Some(cur) => json_eq(cur, &expected),
                None => false,
            };
            if !ok {
                let mut msg = if is_undo { "撤销基准不一致:".to_string() } else { "重做基准不一致:".to_string() };
                msg.append(target_op.target.file.as_str());
                if is_undo {
                    msg.append(" 的当前态已偏离待撤销 Op 的 after(外部改动或重放),拒绝盲写");
                } else {
                    msg.append(" 的当前态已偏离待重做 Op 的 before,拒绝盲写");
                }
                return Err(Reject::InvariantViolation(msg));
            }
        }
        let new_id = self.log.next_op_id();
        let new_rev = self.rev + 1;
        let mut summary = if is_undo { "撤销 ".to_string() } else { "重做 ".to_string() };
        summary.append(target_op.summary.as_str());
        let step_op = Op {
            op_id: new_id,
            ts: String::new(),
            actor,
            target: OpTarget { file: target_op.target.file.clone(), path: target_op.target.path.clone() },
            op_kind: if is_undo { OpKind::Undo } else { OpKind::Redo },
            before: expected,
            after: target_value.deep_copy(),
            base_rev: crate::format_rev(self.rev),
            rev: Some(new_rev),
            auto: None,
            caused_by: None,
            summary,
            request_id: None,
        };
        if is_project {
            match apply_value_at(&self.project, target_op.target.path.as_str(), target_value) {
                Ok(p) => {
                    match check_schema(&self.schema, &p) {
                        Some(rej) => {
                            return Err(rej);
                        },
                        None => {},
                    }
                    self.project = p;
                },
                Err(e) => {
                    return Err(Reject::InvariantViolation(e));
                },
            }
        } else {
            let mut fs: Vec<(String, Json)> = Vec::new();
            std::mem::swap(&mut fs, &mut self.file_states);
            self.file_states = obj_insert_exec(fs, target_op.target.file.as_str(), target_value);
            set_add_exec(&mut self.dirty_files, target_op.target.file.as_str());
        }
        self.rev = new_rev;
        let _logged = self.log.push(step_op);
        if is_undo {
            let ghost u0 = crate::oplog::strings_view(self.undo_stack@);
            let _top = self.undo_stack.pop();
            assert(crate::oplog::strings_view(self.undo_stack@) =~= u0.drop_last());
            let ghost r0 = crate::oplog::strings_view(self.redo_stack@);
            self.redo_stack.push(target_op.op_id.clone());
            assert(crate::oplog::strings_view(self.redo_stack@) =~= r0.push(target_op@.op_id));
        } else {
            let ghost r0 = crate::oplog::strings_view(self.redo_stack@);
            let _top = self.redo_stack.pop();
            assert(crate::oplog::strings_view(self.redo_stack@) =~= r0.drop_last());
            let ghost u0 = crate::oplog::strings_view(self.undo_stack@);
            self.undo_stack.push(target_op.op_id.clone());
            assert(crate::oplog::strings_view(self.undo_stack@) =~= u0.push(target_op@.op_id));
        }
        let ops = self.log.ops();
        let last_id = ops[ops.len() - 1].op_id.clone();
        proof {
            let o = e0.log.ops[k as int];
            let (nid, nxt) = crate::oplog::alloc_op_id(e0.log);
            assert(self@.log.next_op == nxt);
            assert(self@.rev == e0.rev + 1);
            assert(last_id@ == self@.log.ops.last().op_id);
            if _logged {
                assert(self@.log.ops =~= e0.log.ops.push(self@.log.ops.last()));
                assert(self@.log.ops.last().op_id == nid);
                assert(self@.log.ops.last().summary == (if is_undo { "撤销 "@ } else { "重做 "@ }) + o.summary);
            } else {
                assert(self@.log.ops == e0.log.ops);
            }
            assert(self@.undo == (if is_undo { e0.undo.drop_last() } else { e0.undo.push(o.op_id) }));
            assert(self@.redo == (if is_undo { e0.redo.push(o.op_id) } else { e0.redo.drop_last() }));
        }
        Ok(receipt_of(one_id(&last_id), new_rev, false))
    }

    /// Undo: inverts the last undoable op at its target (the project by
    /// pointer, another file by its in-memory state) and logs an undo op.
    pub fn undo(&mut self, actor: Actor) -> (r: Result<OpReceipt, Reject>)
        requires
            old(self).wf(),
            old(self)@.rev < u64::MAX,
        ensures
            final(self).wf(),
            step_post(true, old(self)@, actor@, final(self)@, result_view(r)),
    {
        self.step(true, actor)
    }

    /// Redo: restores the `after` of the last undone op and logs a redo op.
    pub fn redo(&mut self, actor: Actor) -> (r: Result<OpReceipt, Reject>)
        requires
            old(self).wf(),
            old(self)@.rev < u64::MAX,
        ensures
            final(self).wf(),
            step_post(false, old(self)@, actor@, final(self)@, result_view(r)),
    {
        self.step(false, actor)
    }
}

} // verus!

verus! {

pub open spec fn known_file(f: Seq<char>) -> bool {
    f == "project.json"@ || f == "wordline.json"@ || f == "cutlist.json"@ || f == "cutlist.applied.json"@
        || f == "notes.json"@
}

/// What `record_file_change` answers and how the state changes.
pub open spec fn file_change_post(
    old: EngineV,
    file: Seq<char>,
    path: Seq<char>,
    before: JVal,
    after: JVal,
    kind: OpKind,
    actor: ActorV,
    opts: ApplyOptsV,
    new: EngineV,
    res: Result<OpReceiptV, RejectV>,
) -> bool {
    if !known_file(file) {
        res == Err::<OpReceiptV, RejectV>(RejectV::InvariantViolation("未知真相源文件: "@ + file)) && new == old
    } else if opts.request_id matches Some(rid) && has_request(old.log.ops, rid) {
        res == Ok::<OpReceiptV, RejectV>(receipt(Seq::empty(), old.rev, true)) && new == old
    } else if opts.expect_rev matches Some(x) && x != old.rev {
        res == Err::<OpReceiptV, RejectV>(RejectV::PreconditionFailed { expected: opts.expect_rev->0, actual: old.rev })
            && new == old
    } else if before == after {
        res == Ok::<OpReceiptV, RejectV>(receipt(Seq::empty(), old.rev, true)) && new == old
    } else {
        let (id, nxt) = write_id(old, opts);
        let is_project = file == "project.json"@;
        let files2 = if is_project { old.files } else { obj_insert(old.files, file, after) };
        let dirty2 = if is_project { old.dirty } else { set_add(old.dirty, file) };
        if has_op_id(old.log.ops, id) {
            &&& res == Ok::<OpReceiptV, RejectV>(receipt(seq![id], old.rev, true))
            &&& new == EngineV { log: OpLogV { next_op: nxt, ..old.log }, files: files2, dirty: dirty2, ..old }
        } else {
            &&& res == Ok::<OpReceiptV, RejectV>(receipt(seq![id], (old.rev + 1) as u64, false))
            &&& recorded(old, new, id, nxt, opts)
            &&& new.project == old.project
            &&& new.files == files2
            &&& new.dirty == dirty2
            &&& op_fits(
                new.log.ops.last(),
                id,
                actor,
                file,
                path,
                kind,
                before,
                after,
                old.rev,
                opts,
                file + " 变更"@,
                if opts.non_undoable { Some(true) } else { None },
            )
        }
    }
}

fn is_known_file(f: &str) -> (r: bool)
    ensures
        r == known_file(f@),
{
    str_eq(f, "project.json") || str_eq(f, "wordline.json") || str_eq(f, "cutlist.json") || str_eq(
        f,
        "cutlist.applied.json",
    ) || str_eq(f, "notes.json")
}

impl Engine {
    /// Records a change of a source-of-truth file other than the project
    /// (notes, word line, cut list): the op enters the log and the revision
    /// rises, but the project is not touched (only `apply` writes it).
    pub fn record_file_change(
        &mut self,
        file: &str,
        path: &str,
        before: Json,
        after: Json,
        kind: OpKind,
        actor: Actor,
        opts: ApplyOpts,
    ) -> (r: Result<OpReceipt, Reject>)
        requires
            old(self).wf(),
            old(self)@.rev < u64::MAX,
        ensures
            final(self).wf(),
            file_change_post(old(self)@, file@, path@, before@, after@, kind, actor@, opts@, final(self)@, result_view(r)),
    {
        let ghost e0 = self@;
        let ghost ov = opts@;
        if !is_known_file(file) {
            let mut msg = "未知真相源文件: ".to_string();
            msg.append(file);
            return Err(Reject::InvariantViolation(msg));
        }
        if let Some(rid) = &opts.request_id {
            if self.log.has_request_id(rid.as_str()) {
                return Ok(receipt_of(no_ids(), self.rev, true));
            }
        }
        if let Some(expect) = opts.expect_rev {
            if expect != self.rev {
                return Err(Reject::PreconditionFailed { expected: expect, actual: self.rev });
            }
        }
        if json_eq(&before, &after) {
            return Ok(receipt_of(no_ids(), self.rev, true));
        }
        let op_id = match opts.op_id {
            Some(id) => id,
            None => self.log.next_op_id(),
        };
        let ghost nxt = self.log@.next_op;
        assert((op_id@, nxt) == write_id(e0, ov));
        let new_rev = self.rev + 1;
        let summary = match opts.summary {
            Some(s) => s,
            None => {
                let mut s = file.to_string();
                s.append(" 变更");
                s
            },
        };
        let caused_by = if opts.caused_by.len() == 0 {
            None
        } else {
            Some(opts.caused_by)
        };
        proof {
            reveal_strlit("project.json");
        }
        let is_project = str_eq(file, "project.json");
        if !is_project {
            let mut fs: Vec<(String, Json)> = Vec::new();
            std::mem::swap(&mut fs, &mut self.file_states);
            self.file_states = obj_insert_exec(fs, file, after.deep_copy());
            set_add_exec(&mut self.dirty_files, file);
        }
        let op = Op {
            op_id: op_id.clone(),
            ts: String::new(),
            actor,
            target: OpTarget { file: file.to_string(), path: path.to_string() },
            op_kind: kind,
            before,
            after,
            base_rev: crate::format_rev(self.rev),
            rev: Some(new_rev),
            auto: if opts.non_undoable {
                Some(true)
            } else {
                None
            },
            caused_by,
            summary,
            request_id: opts.request_id,
        };
        let ghost mid = self@;
        if self.log.push(op) {
            self.rev = new_rev;
            if !opts.non_undoable {
                let ghost u0 = crate::oplog::strings_view(self.undo_stack@);
                self.undo_stack.push(op_id.clone());
                assert(crate::oplog::strings_view(self.undo_stack@) =~= u0.push(op_id@));
                self.redo_stack = Vec::new();
                assert(crate::oplog::strings_view(self.redo_stack@) =~= Seq::<Seq<char>>::empty());
            }
            Ok(receipt_of(one_id(&op_id), new_rev, false))
        } else {
            assert(self@ =~= mid);
            Ok(receipt_of(one_id(&op_id), self.rev, true))
        }
    }
}

/// The undo and redo stacks a log leaves: every op is pushed on the undo
/// stack (bookkeeping ops aside), an undo moves the top to the redo stack,
/// a redo moves it back.
pub open spec fn stacks_after(ops: Seq<OpV>) -> (Seq<Seq<char>>, Seq<Seq<char>>)
    decreases ops.len(),
{
    if ops.len() == 0 {
        (Seq::empty(), Seq::empty())
    } else {
        let (u, r) = stacks_after(ops.drop_last());
        let op = ops.last();
        match op.op_kind {
            OpKind::Undo => if u.len() > 0 {
                (u.drop_last(), r.push(u.last()))
            } else {
                (u, r)
            },
            OpKind::Redo => if r.len() > 0 {
                (u.push(r.last()), r.drop_last())
            } else {
                (u, r)
            },
            _ => if op.auto == Some(true) {
                (u, r)
            } else {
                (u.push(op.op_id), r)
            },
        }
    }
}

/// The undo stack a log leaves (shared by opening a project and replay).
pub fn rebuild_undo_stack(ops: &[Op]) -> (r: Vec<String>)
    ensures
        crate::oplog::strings_view(r@) == stacks_after(crate::oplog::ops_view(ops@)).0,
{
    let ghost ov = crate::oplog::ops_view(ops@);
    let mut undo_stack: Vec<String> = Vec::new();
    let mut redo_stack: Vec<String> = Vec::new();
    let mut i: usize = 0;
    assert(crate::oplog::strings_view(undo_stack@) =~= Seq::<Seq<char>>::empty());
    assert(crate::oplog::strings_view(redo_stack@) =~= Seq::<Seq<char>>::empty());
    while i < ops.len()
        invariant
            i <= ops.len(),
            ov == crate::oplog::ops_view(ops@),
            (crate::oplog::strings_view(undo_stack@), crate::oplog::strings_view(redo_stack@)) == stacks_after(
                ov.take(i as int),
            ),
        decreases ops.len() - i,
    {
        let op = &ops[i];
        assert(ov.take(i + 1).drop_last() =~= ov.take(i as int));
        assert(ov.take(i + 1).last() == op@);
        let ghost u0 = crate::oplog::strings_view(undo_stack@);
        let ghost r0 = crate::oplog::strings_view(redo_stack@);
        match op.op_kind {
            OpKind::Undo => {
                if let Some(x) = undo_stack.pop() {
                    assert(crate::oplog::strings_view(undo_stack@) =~= u0.drop_last());
                    let ghost xv = x@;
                    redo_stack.push(x);
                    assert(crate::oplog::strings_view(redo_stack@) =~= r0.push(xv));
                }
            },
            OpKind::Redo => {
                if let Some(x) = redo_stack.pop() {
                    assert(crate::oplog::strings_view(redo_stack@) =~= r0.drop_last());
                    let ghost xv = x@;
                    undo_stack.push(x);
                    assert(crate::oplog::strings_view(undo_stack@) =~= u0.push(xv));
                }
            },
            _ => {
                if op.auto != Some(true) {
                    undo_stack.push(op.op_id.clone());
                    assert(crate::oplog::strings_view(undo_stack@) =~= u0.push(op@.op_id));
                }
            },
        }
        i += 1;
    }
    assert(ov.take(ops.len() as int) =~= ov);
    undo_stack
}

} // verus!

verus! {

/// The project, file states and revision after replaying ops on a base
/// project; `None` where an op's pointer does not apply.
pub open spec fn replay_from(base: ProjectV, ops: Seq<OpV>) -> Option<(ProjectV, Seq<(Seq<char>, JVal)>, u64)>
    decreases ops.len(),
{
    if ops.len() == 0 {
        Some((base, Seq::empty(), 0))
    } else {
        match replay_from(base, ops.drop_last()) {
            None => None,
            Some((p, fs, rev)) => {
                let op = ops.last();
                let is_project = op.file == "project.json"@;
                let p2 = if is_project { value_at_spec(p, op.path, op.after) } else { Some(p) };
                match p2 {
                    None => None,
                    Some(q) => Some(
                        (
                            q,
                            if is_project { fs } else { obj_insert(fs, op.file, op.after) },
                            match op.rev {
                                Some(r) => r,
                                None => sat_add(rev, 1),
                            },
                        ),
                    ),
                }
            },
        }
    }
}

/// The log after loading ops read from disk in order.
pub open spec fn loaded_log(ops: Seq<OpV>) -> OpLogV
    decreases ops.len(),
{
    if ops.len() == 0 {
        OpLogV { ops: Seq::empty(), next_op: 0 }
    } else {
        crate::oplog::push_loaded_spec(loaded_log(ops.drop_last()), ops.last())
    }
}

impl Engine {
    /// Rebuilds the state from a base project and a whole log: the same
    /// state as applying step by step. Undo and redo ops carry their state
    /// change in `after`, so every op is applied in order; file-level ops
    /// go to the file states; the undo stack follows the log.
    pub fn replay(base: Project, ops: &[Op]) -> (r: Result<Engine, Reject>)
        ensures
            r is Ok <==> replay_from(base@, crate::oplog::ops_view(ops@)) is Some,
            r matches Ok(e) ==> {
                let (p, fs, rev) = replay_from(base@, crate::oplog::ops_view(ops@))->0;
                &&& e.wf()
                &&& e@.project == p
                &&& e@.files == fs
                &&& e@.rev == rev
                &&& e@.log == loaded_log(crate::oplog::ops_view(ops@))
                &&& e@.undo == stacks_after(crate::oplog::ops_view(ops@)).0
                &&& e@.redo.len() == 0
                &&& e@.dirty.len() == 0
            },
            r matches Err(e) ==> e@ is InvariantViolation,
    {
        let ghost ov = crate::oplog::ops_view(ops@);
        let mut eng = match Engine::new(base) {
            Ok(e) => e,
            Err(errs) => {
                return Err(Reject::SchemaInvalid(errs));
            },
        };
        proof {
            assert(eng@.files =~= Seq::<(Seq<char>, JVal)>::empty());
            assert(eng@.log.ops =~= loaded_log(ov.take(0)).ops);
        }
        let mut i: usize = 0;
        while i < ops.len()
            invariant
                i <= ops.len(),
                ov == crate::oplog::ops_view(ops@),
                eng.wf(),
                replay_from(base@, ov.take(i as int)) == Some((eng@.project, eng@.files, eng@.rev)),
                eng@.log == loaded_log(ov.take(i as int)),
                eng@.undo.len() == 0,
                eng@.redo.len() == 0,
                eng@.dirty.len() == 0,
            decreases ops.len() - i,
        {
            let op = &ops[i];
            assert(ov.take(i + 1).drop_last() =~= ov.take(i as int));
            assert(ov.take(i + 1).last() == op@);
            proof {
                reveal_strlit("project.json");
            }
            if str_eq(op.target.file.as_str(), "project.json") {
                match apply_value_at(&eng.project, op.target.path.as_str(), op.after.deep_copy()) {
                    Ok(p) => {
                        eng.project = p;
                    },
                    Err(e) => {
                        proof {
                            lemma_replay_prefix(base@, ov, i as int + 1);
                        }
                        return Err(Reject::InvariantViolation(e));
                    },
                }
            } else {
                let mut fs: Vec<(String, Json)> = Vec::new();
                std::mem::swap(&mut fs, &mut eng.file_states);
                eng.file_states = obj_insert_exec(fs, op.target.file.as_str(), op.after.deep_copy());
            }
            eng.rev = match op.rev {
                Some(r) => r,
                None => eng.rev.saturating_add(1),
            };
            let _loaded = eng.log.push_loaded(op.duplicate());
            i += 1;
        }
        assert(ov.take(ops.len() as int) =~= ov);
        eng.undo_stack = rebuild_undo_stack(ops);
        eng.redo_stack = Vec::new();
        assert(crate::oplog::strings_view(eng.redo_stack@) =~= Seq::<Seq<char>>::empty());
        Ok(eng)
    }

    /// Replays like `replay`, checking the base project and every project
    /// the log's project writes reach against schema `sc`: the first that
    /// breaks it ends the replay with the schema's verdict.
    pub fn replay_checked(base: Project, ops: &[Op], sc: &Json) -> (r: Result<Engine, Reject>)
        ensures
            r is Ok <==> replay_from(base@, crate::oplog::ops_view(ops@)) is Some && schema_check(Some(sc@), base@)
                is None && forall|k: int| !#[trigger] replay_breaks_at(base@, crate::oplog::ops_view(ops@), sc@, k),
            r matches Ok(e) ==> {
                let (p, fs, rev) = replay_from(base@, crate::oplog::ops_view(ops@))->0;
                &&& e.wf()
                &&& e@.project == p
                &&& e@.files == fs
                &&& e@.rev == rev
                &&& e@.log == loaded_log(crate::oplog::ops_view(ops@))
                &&& e@.undo == stacks_after(crate::oplog::ops_view(ops@)).0
                &&& e@.redo.len() == 0
                &&& e@.dirty.len() == 0
                &&& e@.schema == Some(sc@)
            },
            r matches Err(e) ==> {
                ||| schema_check(Some(sc@), base@) == Some(e@)
                ||| schema_check(Some(sc@), base@) is None && exists|k: int|
                    #[trigger] replay_breaks_at(base@, crate::oplog::ops_view(ops@), sc@, k) && e@ == replay_verdict(
                        base@,
                        crate::oplog::ops_view(ops@),
                        sc@,
                        k,
                    ) && forall|j: int| 1 <= j < k ==> !#[trigger] replay_breaks_at(base@, crate::oplog::ops_view(ops@), sc@, j)
                ||| e@ is InvariantViolation && replay_from(base@, crate::oplog::ops_view(ops@)) is None
            },
    {
        let ghost ov = crate::oplog::ops_view(ops@);
        if let Some(rej) = check_with(sc, &base) {
            return Err(rej);
        }
        let ghost b = base@;
        let mut eng = match Engine::new(base) {
            Ok(e) => e,
            Err(errs) => {
                return Err(Reject::SchemaInvalid(errs));
            },
        };
        proof {
            assert(eng@.files =~= Seq::<(Seq<char>, JVal)>::empty());
            assert(eng@.log.ops =~= loaded_log(ov.take(0)).ops);
        }
        let mut i: usize = 0;
        while i < ops.len()
            invariant
                i <= ops.len(),
                ov == crate::oplog::ops_view(ops@),
                eng.wf(),
                schema_check(Some(sc@), b) is None,
                b == base@,
                replay_from(b, ov.take(i as int)) == Some((eng@.project, eng@.files, eng@.rev)),
                eng@.log == loaded_log(ov.take(i as int)),
                eng@.undo.len() == 0,
                eng@.redo.len() == 0,
                eng@.dirty.len() == 0,
                eng@.schema is None,
                forall|j: int| 1 <= j <= i ==> !#[trigger] replay_breaks_at(b, ov, sc@, j),
            decreases ops.len() - i,
        {
            let op = &ops[i];
            assert(ov.take(i + 1).drop_last() =~= ov.take(i as int));
            assert(ov.take(i + 1).last() == op@);
            proof {
                reveal_strlit("project.json");
            }
            if str_eq(op.target.file.as_str(), "project.json") {
                match apply_value_at(&eng.project, op.target.path.as_str(), op.after.deep_copy()) {
                    Ok(p) => {
                        if let Some(rej) = check_with(sc, &p) {
                            proof {
                                let k = i + 1;
                                assert(ov.take(k).drop_last() =~= ov.take(i as int));
                                assert(ov.take(k).last() == ov[i as int]);
                                assert(replay_from(b, ov.take(k)) is Some);
                                assert((replay_from(b, ov.take(k))->0).0 == p@);
                                assert(replay_breaks_at(b, ov, sc@, k));
                                assert(rej@ == replay_verdict(b, ov, sc@, k));
                                assert(forall|j: int| 1 <= j < k ==> !#[trigger] replay_breaks_at(b, ov, sc@, j));
                            }
                            return Err(rej);
                        }
                        eng.project = p;
                    },
                    Err(e) => {
                        proof {
                            lemma_replay_prefix(b, ov, i as int + 1);
                        }
                        return Err(Reject::InvariantViolation(e));
                    },
                }
            } else {
                let mut fs: Vec<(String, Json)> = Vec::new();
                std::mem::swap(&mut fs, &mut eng.file_states);
                eng.file_states = obj_insert_exec(fs, op.target.file.as_str(), op.after.deep_copy());
            }
            eng.rev = match op.rev {
                Some(r) => r,
                None => eng.rev.saturating_add(1),
            };
            let _loaded = eng.log.push_loaded(op.duplicate());
            i += 1;
        }
        assert(ov.take(ops.len() as int) =~= ov);
        assert forall|k: int| !#[trigger] replay_breaks_at(b, ov, sc@, k) by {
            if 1 <= k <= ov.len() {
            }
        }
        eng.undo_stack = rebuild_undo_stack(ops);
        eng.redo_stack = Vec::new();
        assert(crate::oplog::strings_view(eng.redo_stack@) =~= Seq::<Seq<char>>::empty());
        eng.set_schema(sc.deep_copy());
        Ok(eng)
    }
}

/// The `k`-th op of the log (counted from 1) writes the project, and the
/// project the replay reaches with it breaks schema `sc`.
pub open spec fn replay_breaks_at(base: ProjectV, ops: Seq<OpV>, sc: JVal, k: int) -> bool {
    &&& 1 <= k <= ops.len()
    &&& ops[k - 1].file == "project.json"@
    &&& replay_from(base, ops.take(k)) is Some
    &&& schema_check(Some(sc), (replay_from(base, ops.take(k))->0).0) is Some
}

pub open spec fn replay_verdict(base: ProjectV, ops: Seq<OpV>, sc: JVal, k: int) -> RejectV {
    schema_check(Some(sc), (replay_from(base, ops.take(k))->0).0)->0
}

proof fn lemma_replay_prefix(base: ProjectV, ops: Seq<OpV>, i: int)
    requires
        0 <= i <= ops.len(),
        replay_from(base, ops.take(i)) is None,
    ensures
        replay_from(base, ops) is None,
    decreases ops.len() - i,
{
    if i < ops.len() {
        assert(ops.take(i + 1).drop_last() =~= ops.take(i));
        lemma_replay_prefix(base, ops, i + 1);
    } else {
        assert(ops.take(i) =~= ops);
    }
}

/// (clip id, start, end, track id) of the clips of tracks before `t`.
pub open spec fn timeline_upto(ts: Seq<TrackV>, t: int) -> Seq<(Seq<char>, u64, u64, Seq<char>)>
    decreases t,
{
    if t <= 0 {
        Seq::empty()
    } else {
        timeline_upto(ts, t - 1) + ts[t - 1].clips.map_values(
            |c: ClipV| (c.id, c.start_ms, clip_end_spec(c), ts[t - 1].id),
        )
    }
}

pub open spec fn timeline_view(v: Seq<(String, u64, u64, String)>) -> Seq<(Seq<char>, u64, u64, Seq<char>)> {
    v.map_values(|x: (String, u64, u64, String)| (x.0@, x.1, x.2, x.3@))
}

impl Engine {
    /// Read side: a pure projection of the state.
    pub fn query(&self, q: Query) -> (r: Answer)
        ensures
            match q {
                Query::ProjectView => r matches Answer::Project(j) && j@ == project_json(self@.project),
                Query::Clip { id } => r matches Answer::Clip(o) && match clip_pos(self@.project.tracks, id@) {
                    Some((t, c)) => o matches Some(j) && j@ == clip_json(self@.project.tracks[t].clips[c]),
                    None => o is None,
                },
                Query::Track { id } => r matches Answer::Track(o) && match track_index(self@.project.tracks, id@) {
                    Some(t) => o matches Some(j) && j@ == crate::codec::track_json(self@.project.tracks[t]),
                    None => o is None,
                },
                Query::Timeline => r matches Answer::Timeline(v) && timeline_view(v@) == timeline_upto(
                    self@.project.tracks,
                    self@.project.tracks.len() as int,
                ),
                Query::OpLogTail { since_rev, actor_kind } => r matches Answer::Ops(v) && crate::oplog::ops_view(v@)
                    == self@.log.ops.filter(|o: OpV| crate::oplog::tail_keeps(o, since_rev, actor_kind)),
                Query::Rev => r == Answer::Rev(self@.rev),
            },
    {
        match q {
            Query::ProjectView => Answer::Project(project_to_json(&self.project)),
            Query::Clip { id } => match self.project.find_clip(id.as_str()) {
                Some((ti, ci)) => {
                    proof {
                        crate::model::lemma_clip_pos_from(self@.project.tracks, id@, 0);
                    }
                    Answer::Clip(Some(clip_to_json(&self.project.tracks[ti].clips[ci])))
                },
                None => Answer::Clip(None),
            },
            Query::Track { id } => match self.project.find_track(id.as_str()) {
                Some(ti) => {
                    proof {
                        crate::model::lemma_track_index_from(self@.project.tracks, id@, 0);
                    }
                    Answer::Track(Some(crate::codec::track_to_json(&self.project.tracks[ti])))
                },
                None => Answer::Track(None),
            },
            Query::Timeline => {
                let ghost ts = self@.project.tracks;
                let mut out: Vec<(String, u64, u64, String)> = Vec::new();
                let mut t: usize = 0;
                assert(timeline_view(out@) =~= timeline_upto(ts, 0));
                while t < self.project.tracks.len()
                    invariant
                        t <= self.project.tracks.len(),
                        ts == self@.project.tracks,
                        timeline_view(out@) == timeline_upto(ts, t as int),
                    decreases self.project.tracks.len() - t,
                {
                    let track = &self.project.tracks[t];
                    let ghost base = timeline_view(out@);
                    let ghost row = ts[t as int].clips.map_values(
                        |c: ClipV| (c.id, c.start_ms, clip_end_spec(c), ts[t as int].id),
                    );
                    let mut c: usize = 0;
                    while c < track.clips.len()
                        invariant
                            c <= track.clips.len(),
                            ts == self@.project.tracks,
                            t < self.project.tracks.len(),
                            track == self.project.tracks@[t as int],
                            row == ts[t as int].clips.map_values(
                                |c: ClipV| (c.id, c.start_ms, clip_end_spec(c), ts[t as int].id),
                            ),
                            timeline_view(out@) == base + row.take(c as int),
                        decreases track.clips.len() - c,
                    {
                        let clip = &track.clips[c];
                        let ghost prev = out@;
                        out.push((clip.id.clone(), clip.start_ms, Project::clip_end(clip), track.id.clone()));
                        assert(timeline_view(out@) =~= timeline_view(prev).push(row[c as int]));
                        assert(row.take(c + 1) =~= row.take(c as int).push(row[c as int]));
                        c += 1;
                    }
                    assert(row.take(track.clips.len() as int) =~= row);
                    t += 1;
                }
                Answer::Timeline(out)
            },
            Query::OpLogTail { since_rev, actor_kind } => Answer::Ops(self.log.tail(since_rev, actor_kind)),
            Query::Rev => Answer::Rev(self.rev),
        }
    }
}

} // verus!

verus! {

/// A write that is refused leaves the engine exactly as it was.
pub proof fn law_refused_write_changes_nothing(
    old: EngineV,
    cmd: CommandV,
    actor: ActorV,
    opts: ApplyOptsV,
    new: EngineV,
    res: Result<OpReceiptV, RejectV>,
)
    requires
        apply_post(old, cmd, actor, opts, new, res),
        res is Err,
    ensures
        new == old,
{
}

/// A write based on a revision other than the current one is refused with
/// both revisions named, unless its request id was already served.
pub proof fn law_stale_base_refused(
    old: EngineV,
    cmd: CommandV,
    actor: ActorV,
    opts: ApplyOptsV,
    new: EngineV,
    res: Result<OpReceiptV, RejectV>,
)
    requires
        apply_post(old, cmd, actor, opts, new, res),
        opts.expect_rev matches Some(x) && x != old.rev,
        !(opts.request_id matches Some(rid) && has_request(old.log.ops, rid)),
    ensures
        res == Err::<OpReceiptV, RejectV>(RejectV::PreconditionFailed { expected: opts.expect_rev->0, actual: old.rev }),
        new == old,
{
}

/// Every write that takes effect raises the revision by exactly one and
/// records one op based on the previous revision, carrying the new one.
pub proof fn law_effective_write_raises_rev(
    old: EngineV,
    cmd: CommandV,
    actor: ActorV,
    opts: ApplyOptsV,
    new: EngineV,
    res: Result<OpReceiptV, RejectV>,
)
    requires
        apply_post(old, cmd, actor, opts, new, res),
        res matches Ok(rc) && !rc.idempotent,
    ensures
        new.rev == old.rev + 1,
        res->Ok_0.rev == new.rev,
        new.log.ops.len() == old.log.ops.len() + 1,
        new.log.ops.last().base_rev == rev_label(old.rev),
        new.log.ops.last().rev == Some(new.rev),
        new.log.ops.take(old.log.ops.len() as int) == old.log.ops,
{
}

/// A write that is answered idempotently changes neither the project nor
/// the revision.
pub proof fn law_idempotent_answer_keeps_project(
    old: EngineV,
    cmd: CommandV,
    actor: ActorV,
    opts: ApplyOptsV,
    new: EngineV,
    res: Result<OpReceiptV, RejectV>,
)
    requires
        apply_post(old, cmd, actor, opts, new, res),
        res matches Ok(rc) && rc.idempotent,
    ensures
        new.project == old.project,
        new.rev == old.rev,
        new.log.ops == old.log.ops,
        res->Ok_0.rev == old.rev,
{
}

/// Once a write with a request id has taken effect, any later write with
/// the same request id is answered idempotently and changes nothing.
pub proof fn law_request_id_served_once(
    e0: EngineV,
    cmd: CommandV,
    actor: ActorV,
    opts: ApplyOptsV,
    e1: EngineV,
    res: Result<OpReceiptV, RejectV>,
    cmd2: CommandV,
    actor2: ActorV,
    opts2: ApplyOptsV,
    e2: EngineV,
    res2: Result<OpReceiptV, RejectV>,
)
    requires
        apply_post(e0, cmd, actor, opts, e1, res),
        res matches Ok(rc) && !rc.idempotent,
        opts.request_id is Some,
        opts2.request_id == opts.request_id,
        apply_post(e1, cmd2, actor2, opts2, e2, res2),
    ensures
        res2 == Ok::<OpReceiptV, RejectV>(receipt(Seq::empty(), e1.rev, true)),
        e2 == e1,
{
    let rid = opts.request_id->0;
    assert(e1.log.ops[e1.log.ops.len() - 1].request_id == Some(rid));
    assert(has_request(e1.log.ops, rid));
}

} // verus!

verus! {

/// A split that takes effect cuts the clip in two at `t` and keeps the
/// media continuous across the cut: the left part keeps the clip's id,
/// start and source in-point and ends at `t`; the right part starts at
/// `t`, ends where the clip ended, and its source in-point lies as far past
/// the left's as the left part lasts (capped at the largest value); the
/// other clips of the track stay where they were.
pub proof fn law_split_keeps_media_continuous(
    old: EngineV,
    id: Seq<char>,
    t: u64,
    actor: ActorV,
    opts: ApplyOptsV,
    new: EngineV,
    res: Result<OpReceiptV, RejectV>,
)
    requires
        apply_post(old, CommandV::ClipSplit { clip_id: id, t_ms: t }, actor, opts, new, res),
        res matches Ok(rc) && !rc.idempotent,
    ensures
        clip_pos(old.project.tracks, id) is Some,
        ({
            let (ti, ci) = clip_pos(old.project.tracks, id)->0;
            let cs = old.project.tracks[ti].clips;
            let c = cs[ci];
            let cs2 = new.project.tracks[ti].clips;
            &&& 0 <= ti < old.project.tracks.len()
            &&& new.project.tracks.len() == old.project.tracks.len()
            &&& c.start_ms < t < clip_end_spec(c)
            &&& cs2.len() == cs.len() + 1
            &&& cs2[ci].id == id
            &&& cs2[ci].start_ms == c.start_ms
            &&& cs2[ci].start_ms + cs2[ci].duration_ms == t
            &&& cs2[ci].source_in_ms == c.source_in_ms
            &&& cs2[ci + 1].start_ms == t
            &&& cs2[ci + 1].start_ms + cs2[ci + 1].duration_ms == clip_end_spec(c)
            &&& (c.source_in_ms matches Some(s) ==> {
                &&& s + cs2[ci].duration_ms <= u64::MAX ==> cs2[ci + 1].source_in_ms == Some(
                    (s + cs2[ci].duration_ms) as u64,
                )
                &&& s + cs2[ci].duration_ms > u64::MAX ==> cs2[ci + 1].source_in_ms == Some(u64::MAX)
            })
            &&& (c.source_in_ms is None ==> cs2[ci + 1].source_in_ms is None)
            &&& forall|k: int| 0 <= k < ci ==> cs2[k] == cs[k]
            &&& forall|k: int| ci < k < cs.len() ==> cs2[k + 1] == cs[k]
            &&& forall|u: int| 0 <= u < old.project.tracks.len() && u != ti ==> new.project.tracks[u] == old.project.tracks[u]
        }),
{
    assert(early_answer(old, opts) is None);
    assert(mutate_spec(old.project, CommandV::ClipSplit { clip_id: id, t_ms: t }) is Ok);
    crate::model::lemma_clip_pos_from(old.project.tracks, id, 0);
    let (ti, ci) = clip_pos(old.project.tracks, id)->0;
    let cs = old.project.tracks[ti].clips;
    let c = cs[ci];
    assert(!split_done(cs, id, t));
    let left = ClipV { duration_ms: (t - c.start_ms) as u64, ..c };
    let right = ClipV {
        id: next_clip_id_spec(old.project.tracks[ti]),
        start_ms: t,
        duration_ms: (clip_end_spec(c) - t) as u64,
        source_in_ms: match c.source_in_ms {
            Some(s) => Some(sat_add(s, t - c.start_ms)),
            None => None,
        },
        text: None,
        ..c
    };
    let cs2 = cs.take(ci) + seq![left, right] + cs.skip(ci + 1);
    assert(new.project == with_clips(old.project, ti, cs2));
    assert(new.project.tracks[ti].clips == cs2);
    assert(cs2[ci] == left);
    assert(cs2[ci + 1] == right);
    assert forall|k: int| ci < k < cs.len() implies cs2[k + 1] == cs[k] by {
        assert(cs2[k + 1] == cs.skip(ci + 1)[k - ci - 1]);
    }
}

} // verus!
