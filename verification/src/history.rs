//! What history gives back: a recorded change to the project, undone,
//! leaves the project as it was before the change.

use vstd::prelude::*;
use crate::json::{JVal, find_key, find_from, lemma_find_from, lemma_find_first};
use crate::codec::{fields_of, opt_field, keys_distinct, project_entries, project_json, project_key, project_val,
    track_entries, track_json, track_key, track_val, tracks_json, clips_json, clip_json, lemma_project_keys,
    lemma_track_keys, lemma_project_roundtrip, project_wf};
use crate::engine::{stacks_after, schema_check, file_change_post, replay_from, EngineV, ApplyOptsV, OpReceiptV, RejectV, apply_post, step_post, op_index_from, early_answer, write_id, MutV, CommandV, mutate_spec, overlap_check, segs_from, ptr_segs, set_at, set_last, obj_insert, clip_path, clips_path, value_at_spec, with_clips};
use crate::oplog::{ActorV, OpV, OpKind, has_op_id};
use crate::model::{ClipV, ProjectV, TrackV, clip_pos, track_index, lemma_clip_pos_from, lemma_track_index_from};
use crate::text::{dec, is_digit, all_digits, digits_val, parse_u64_spec, lemma_dec_val};

verus! {

// ---- field lists written from entries ----

proof fn lemma_fields_keys_absent(e: Seq<(Seq<char>, Option<JVal>)>, k: Seq<char>)
    requires
        forall|i: int| 0 <= i < e.len() ==> (#[trigger] e[i]).0 != k,
    ensures
        forall|m: int| 0 <= m < fields_of(e).len() ==> (#[trigger] fields_of(e)[m]).0 != k,
    decreases e.len(),
{
    if e.len() > 0 {
        assert forall|i: int| 0 <= i < e.drop_last().len() implies (#[trigger] e.drop_last()[i]).0 != k by {
            assert(e.drop_last()[i] == e[i]);
        }
        lemma_fields_keys_absent(e.drop_last(), k);
        let f = fields_of(e.drop_last());
        let g = opt_field(e.last().0, e.last().1);
        assert forall|m: int| 0 <= m < fields_of(e).len() implies (#[trigger] fields_of(e)[m]).0 != k by {
            if m < f.len() {
                assert(fields_of(e)[m] == f[m]);
            } else {
                assert(fields_of(e)[m] == g[m - f.len()]);
            }
        }
    }
}

/// In a field list written from entries with distinct keys, the entry at
/// `j` (which has a value) sits at position `pos`, and giving that entry
/// another value replaces the field at `pos`.
proof fn lemma_fields_of_update(e: Seq<(Seq<char>, Option<JVal>)>, j: int, w: JVal, v: JVal)
    requires
        keys_distinct(e),
        0 <= j < e.len(),
        e[j].1 == Some(w),
    ensures
        ({
            let pos = fields_of(e.take(j)).len() as int;
            &&& find_key(fields_of(e), e[j].0) == Some(pos)
            &&& fields_of(e)[pos] == (e[j].0, w)
            &&& fields_of(e.update(j, (e[j].0, Some(v)))) == fields_of(e).update(pos, (e[j].0, v))
        }),
    decreases e.len(),
{
    let k = e[j].0;
    let d = e.drop_last();
    let f = fields_of(d);
    if j == e.len() - 1 {
        assert(e.take(j) =~= d);
        assert forall|i: int| 0 <= i < d.len() implies (#[trigger] d[i]).0 != k by {
            assert(d[i] == e[i]);
        }
        lemma_fields_keys_absent(d, k);
        let pos = f.len() as int;
        assert(fields_of(e) == f + seq![(k, w)]);
        assert(fields_of(e)[pos] == (k, w));
        assert forall|m: int| 0 <= m < pos implies fields_of(e)[m].0 != k by {
            assert(fields_of(e)[m] == f[m]);
        }
        lemma_find_first(fields_of(e), k, pos, 0);
        let u = e.update(j, (k, Some(v)));
        assert(u.drop_last() =~= d);
        assert(fields_of(u) == f + seq![(k, v)]);
        assert(fields_of(u) =~= fields_of(e).update(pos, (k, v)));
    } else {
        assert(keys_distinct(d)) by {
            assert forall|a: int, b: int| 0 <= a < b < d.len() implies #[trigger] d[a].0 != #[trigger] d[b].0 by {
                assert(d[a] == e[a] && d[b] == e[b]);
            }
        }
        assert(d[j] == e[j]);
        lemma_fields_of_update(d, j, w, v);
        assert(d.take(j) =~= e.take(j));
        let pos = fields_of(e.take(j)).len() as int;
        let g = opt_field(e.last().0, e.last().1);
        assert(fields_of(e) == f + g);
        lemma_find_from(f, k, 0);
        assert(pos < f.len());
        assert forall|m: int| 0 <= m < pos implies (f + g)[m].0 != k by {
            assert((f + g)[m] == f[m]);
        }
        lemma_find_first(f + g, k, pos, 0);
        let u = e.update(j, (k, Some(v)));
        assert(u.drop_last() =~= d.update(j, (k, Some(v))));
        assert(u.last() == e.last());
        assert(fields_of(u) == fields_of(d.update(j, (k, Some(v)))) + g);
        assert(fields_of(u) =~= fields_of(e).update(pos, (k, v)));
    }
}

// ---- pointers ----

proof fn lemma_segs_word(s: Seq<char>, i: int, j: int, cur: Seq<char>, acc: Seq<Seq<char>>)
    requires
        0 <= i <= j <= s.len(),
        forall|k: int| i <= k < j ==> s[k] != '/',
    ensures
        segs_from(s, i, cur, acc) == segs_from(s, j, cur + s.subrange(i, j), acc),
    decreases j - i,
{
    if i < j {
        lemma_segs_word(s, i + 1, j, cur.push(s[i]), acc);
        assert(cur.push(s[i]) + s.subrange(i + 1, j) =~= cur + s.subrange(i, j));
    } else {
        assert(cur + s.subrange(i, j) =~= cur);
    }
}

/// A slash followed by the segment `w` (up to the next slash or the end).
proof fn lemma_seg(s: Seq<char>, i: int, w: Seq<char>, acc: Seq<Seq<char>>)
    requires
        0 <= i,
        i + 1 + w.len() <= s.len(),
        s[i] == '/',
        s.subrange(i + 1, i + 1 + w.len()) == w,
        w.len() > 0,
        forall|q: int| 0 <= q < w.len() ==> w[q] != '/',
        i + 1 + w.len() == s.len() || s[i + 1 + w.len()] == '/',
    ensures
        segs_from(s, i, Seq::empty(), acc) == segs_from(s, i + 1 + w.len(), Seq::empty(), acc.push(w)),
{
    let e = i + 1 + w.len();
    assert(segs_from(s, i, Seq::empty(), acc) == segs_from(s, i + 1, Seq::empty(), acc));
    assert forall|k: int| i + 1 <= k < e implies s[k] != '/' by {
        assert(s[k] == s.subrange(i + 1, e)[k - i - 1]);
    }
    lemma_segs_word(s, i + 1, e, Seq::empty(), acc);
    assert(Seq::<char>::empty() + s.subrange(i + 1, e) =~= w);
    if e < s.len() {
        assert(segs_from(s, e, w, acc) == segs_from(s, e + 1, Seq::empty(), acc.push(w)));
        assert(segs_from(s, e, Seq::empty(), acc.push(w)) == segs_from(s, e + 1, Seq::empty(), acc.push(w)));
    }
}

proof fn lemma_dec_no_slash(n: nat)
    ensures
        forall|q: int| 0 <= q < dec(n).len() ==> dec(n)[q] != '/',
        dec(n).len() > 0,
        n <= u64::MAX ==> parse_u64_spec(dec(n)) == Some(n as u64),
{
    lemma_dec_val(n);
    assert forall|q: int| 0 <= q < dec(n).len() implies dec(n)[q] != '/' by {
        assert(is_digit(dec(n)[q]));
    }
    assert(is_digit(dec(n)[0]));
}

proof fn lemma_words()
    ensures
        "tracks"@.len() == 6,
        "clips"@.len() == 5,
        forall|q: int| 0 <= q < "tracks"@.len() ==> "tracks"@[q] != '/',
        forall|q: int| 0 <= q < "clips"@.len() ==> "clips"@[q] != '/',
        "/tracks"@ == seq!['/'] + "tracks"@,
        "/tracks/"@ == seq!['/'] + "tracks"@ + seq!['/'],
        "/clips/"@ == seq!['/'] + "clips"@ + seq!['/'],
        "/clips"@ == seq!['/'] + "clips"@,
{
    reveal_strlit("tracks");
    reveal_strlit("clips");
    reveal_strlit("/tracks");
    reveal_strlit("/tracks/");
    reveal_strlit("/clips/");
    reveal_strlit("/clips");
    assert("/tracks"@ =~= seq!['/'] + "tracks"@);
    assert("/tracks/"@ =~= seq!['/'] + "tracks"@ + seq!['/']);
    assert("/clips/"@ =~= seq!['/'] + "clips"@ + seq!['/']);
    assert("/clips"@ =~= seq!['/'] + "clips"@);
}

pub proof fn lemma_tracks_ptr()
    ensures
        ptr_segs("/tracks"@) == seq!["tracks"@],
{
    lemma_words();
    let s = "/tracks"@;
    let w = "tracks"@;
    assert(s.subrange(1, 7) =~= w);
    lemma_seg(s, 0, w, Seq::empty());
    assert(Seq::<Seq<char>>::empty().push(w) =~= seq![w]);
}

pub proof fn lemma_clips_ptr(ti: nat)
    ensures
        ptr_segs(clips_path(ti)) == seq!["tracks"@, dec(ti), "clips"@],
{
    lemma_words();
    lemma_dec_no_slash(ti);
    let a = dec(ti);
    let t = "tracks"@;
    let c = "clips"@;
    let s = clips_path(ti);
    let la = a.len() as int;
    assert(s =~= seq!['/'] + t + seq!['/'] + a + seq!['/'] + c);
    assert(s.len() == 14 + la);
    assert(s.subrange(1, 7) =~= t);
    assert(s[7] == '/');
    assert(s.subrange(8, 8 + la) =~= a);
    assert(s[8 + la] == '/');
    assert(s.subrange(9 + la, 14 + la) =~= c);
    assert(s[0] == '/');
    lemma_seg(s, 0, t, Seq::empty());
    lemma_seg(s, 7, a, seq![t]);
    lemma_seg(s, 8 + la, c, seq![t, a]);
    assert(Seq::<Seq<char>>::empty().push(t) =~= seq![t]);
    assert(seq![t].push(a) =~= seq![t, a]);
    assert(seq![t, a].push(c) =~= seq![t, a, c]);
}

pub proof fn lemma_clip_ptr(ti: nat, ci: nat)
    ensures
        ptr_segs(clip_path(ti, ci)) == seq!["tracks"@, dec(ti), "clips"@, dec(ci)],
{
    lemma_words();
    lemma_dec_no_slash(ti);
    lemma_dec_no_slash(ci);
    let a = dec(ti);
    let b = dec(ci);
    let t = "tracks"@;
    let c = "clips"@;
    let s = clip_path(ti, ci);
    let la = a.len() as int;
    let lb = b.len() as int;
    assert(s =~= seq!['/'] + t + seq!['/'] + a + seq!['/'] + c + seq!['/'] + b);
    assert(s.len() == 15 + la + lb);
    assert(s.subrange(1, 7) =~= t);
    assert(s[7] == '/');
    assert(s.subrange(8, 8 + la) =~= a);
    assert(s[8 + la] == '/');
    assert(s.subrange(9 + la, 14 + la) =~= c);
    assert(s[14 + la] == '/');
    assert(s.subrange(15 + la, 15 + la + lb) =~= b);
    assert(s[0] == '/');
    lemma_seg(s, 0, t, Seq::empty());
    lemma_seg(s, 7, a, seq![t]);
    lemma_seg(s, 8 + la, c, seq![t, a]);
    lemma_seg(s, 14 + la, b, seq![t, a, c]);
    assert(Seq::<Seq<char>>::empty().push(t) =~= seq![t]);
    assert(seq![t].push(a) =~= seq![t, a]);
    assert(seq![t, a].push(c) =~= seq![t, a, c]);
    assert(seq![t, a, c].push(b) =~= seq![t, a, c, b]);
}

// ---- writing back into the document form ----

proof fn lemma_project_tracks_field(q: ProjectV, v: Seq<JVal>)
    ensures
        ({
            let e = project_entries(q);
            let pos = fields_of(e.take(11)).len() as int;
            &&& find_key(fields_of(e), "tracks"@) == Some(pos)
            &&& fields_of(e)[pos] == ("tracks"@, JVal::Arr(tracks_json(q.tracks)))
            &&& fields_of(e).update(pos, ("tracks"@, JVal::Arr(v))) == fields_of(
                project_entries(ProjectV { tracks: Seq::empty(), ..q }).update(11, ("tracks"@, Some(JVal::Arr(v)))),
            )
        }),
{
    lemma_project_keys();
    let e = project_entries(q);
    assert(keys_distinct(e));
    assert(e[11] == ("tracks"@, Some(JVal::Arr(tracks_json(q.tracks))))) by {
        reveal_strlit("tracks");
    }
    lemma_fields_of_update(e, 11, JVal::Arr(tracks_json(q.tracks)), JVal::Arr(v));
    let z = ProjectV { tracks: Seq::empty(), ..q };
    assert(project_entries(z).update(11, ("tracks"@, Some(JVal::Arr(v)))) =~= e.update(
        11,
        ("tracks"@, Some(JVal::Arr(v))),
    ));
}

proof fn lemma_track_clips_field(t: TrackV, v: Seq<JVal>)
    ensures
        ({
            let e = track_entries(t);
            let pos = fields_of(e.take(0)).len() as int;
            &&& find_key(fields_of(e), "clips"@) == Some(pos)
            &&& fields_of(e)[pos] == ("clips"@, JVal::Arr(clips_json(t.clips)))
            &&& fields_of(e).update(pos, ("clips"@, JVal::Arr(v))) == fields_of(e.update(0, ("clips"@, Some(JVal::Arr(v)))))
        }),
{
    lemma_track_keys();
    let e = track_entries(t);
    assert(keys_distinct(e));
    assert(e[0] == ("clips"@, Some(JVal::Arr(clips_json(t.clips))))) by {
        reveal_strlit("clips");
    }
    lemma_fields_of_update(e, 0, JVal::Arr(clips_json(t.clips)), JVal::Arr(v));
}

/// Writing a track list back at "/tracks".
proof fn lemma_set_tracks(p: ProjectV, ts2: Seq<TrackV>)
    ensures
        set_at(project_json(ProjectV { tracks: ts2, ..p }), seq!["tracks"@], JVal::Arr(tracks_json(p.tracks))) == Some(
            project_json(p),
        ),
{
    let q = ProjectV { tracks: ts2, ..p };
    lemma_project_tracks_field(q, tracks_json(p.tracks));
    let eq = project_entries(q);
    let pos = fields_of(eq.take(11)).len() as int;
    let z = ProjectV { tracks: Seq::empty(), ..q };
    assert(project_entries(z).update(11, ("tracks"@, Some(JVal::Arr(tracks_json(p.tracks))))) =~= project_entries(p));
    assert(obj_insert(fields_of(eq), "tracks"@, JVal::Arr(tracks_json(p.tracks))) == fields_of(eq).update(
        pos,
        ("tracks"@, JVal::Arr(tracks_json(p.tracks))),
    ));
}

/// The track at `ti` with its clips replaced.
pub open spec fn track_with(p: ProjectV, ti: int, cs: Seq<ClipV>) -> TrackV {
    TrackV { clips: cs, ..p.tracks[ti] }
}

/// Writing the clips of the track at `ti` back at "/tracks/ti/clips".
proof fn lemma_set_clips(p: ProjectV, ti: int, cs2: Seq<ClipV>)
    requires
        0 <= ti < p.tracks.len(),
        ti <= u64::MAX,
    ensures
        set_at(
            project_json(with_clips(p, ti, cs2)),
            seq!["tracks"@, dec(ti as nat), "clips"@],
            JVal::Arr(clips_json(p.tracks[ti].clips)),
        ) == Some(project_json(p)),
{
    let q = with_clips(p, ti, cs2);
    let t = p.tracks[ti];
    let t2 = track_with(p, ti, cs2);
    let payload = JVal::Arr(clips_json(t.clips));
    let segs = seq!["tracks"@, dec(ti as nat), "clips"@];
    lemma_dec_no_slash(ti as nat);
    lemma_project_tracks_field(q, tracks_json(p.tracks));
    let eq = project_entries(q);
    let pos = fields_of(eq.take(11)).len() as int;
    let fq = fields_of(eq);
    // inside the track
    lemma_track_clips_field(t2, clips_json(t.clips));
    let et2 = track_entries(t2);
    let cpos = fields_of(et2.take(0)).len() as int;
    assert(et2.update(0, ("clips"@, Some(payload))) =~= track_entries(t));
    assert(set_at(track_json(t2), seq!["clips"@], payload) == Some(track_json(t)));
    // the track list
    assert(tracks_json(q.tracks)[ti] == track_json(t2));
    assert(parse_u64_spec(dec(ti as nat)) == Some(ti as u64));
    assert(segs.drop_first() =~= seq![dec(ti as nat), "clips"@]);
    assert(seq![dec(ti as nat), "clips"@].drop_first() =~= seq!["clips"@]);
    assert(tracks_json(q.tracks).update(ti, track_json(t)) =~= tracks_json(p.tracks));
    assert(set_at(JVal::Arr(tracks_json(q.tracks)), seq![dec(ti as nat), "clips"@], payload) == Some(
        JVal::Arr(tracks_json(p.tracks)),
    ));
    // the project
    let z = ProjectV { tracks: Seq::empty(), ..q };
    assert(project_entries(z).update(11, ("tracks"@, Some(JVal::Arr(tracks_json(p.tracks))))) =~= project_entries(p));
    assert(fq[pos].0 == "tracks"@);
}

/// Writing one clip back at "/tracks/ti/clips/ci".
proof fn lemma_set_clip(p: ProjectV, ti: int, ci: int, c2: ClipV)
    requires
        0 <= ti < p.tracks.len(),
        0 <= ci < p.tracks[ti].clips.len(),
        ti <= u64::MAX,
        ci <= u64::MAX,
    ensures
        set_at(
            project_json(with_clips(p, ti, p.tracks[ti].clips.update(ci, c2))),
            seq!["tracks"@, dec(ti as nat), "clips"@, dec(ci as nat)],
            clip_json(p.tracks[ti].clips[ci]),
        ) == Some(project_json(p)),
{
    let cs = p.tracks[ti].clips;
    let cs2 = cs.update(ci, c2);
    let q = with_clips(p, ti, cs2);
    let t = p.tracks[ti];
    let t2 = track_with(p, ti, cs2);
    let payload = clip_json(cs[ci]);
    let segs = seq!["tracks"@, dec(ti as nat), "clips"@, dec(ci as nat)];
    lemma_dec_no_slash(ti as nat);
    lemma_dec_no_slash(ci as nat);
    lemma_project_tracks_field(q, tracks_json(p.tracks));
    let eq = project_entries(q);
    let pos = fields_of(eq.take(11)).len() as int;
    let fq = fields_of(eq);
    // inside the track
    lemma_track_clips_field(t2, clips_json(cs));
    let et2 = track_entries(t2);
    assert(et2.update(0, ("clips"@, Some(JVal::Arr(clips_json(cs))))) =~= track_entries(t));
    assert(clips_json(cs2).update(ci, payload) =~= clips_json(cs));
    assert(set_at(JVal::Arr(clips_json(cs2)), seq![dec(ci as nat)], payload) == Some(JVal::Arr(clips_json(cs))));
    assert(seq!["clips"@, dec(ci as nat)].drop_first() =~= seq![dec(ci as nat)]);
    assert(set_at(track_json(t2), seq!["clips"@, dec(ci as nat)], payload) == Some(track_json(t)));
    // the track list
    assert(tracks_json(q.tracks)[ti] == track_json(t2));
    assert(segs.drop_first() =~= seq![dec(ti as nat), "clips"@, dec(ci as nat)]);
    assert(seq![dec(ti as nat), "clips"@, dec(ci as nat)].drop_first() =~= seq!["clips"@, dec(ci as nat)]);
    assert(tracks_json(q.tracks).update(ti, track_json(t)) =~= tracks_json(p.tracks));
    assert(set_at(JVal::Arr(tracks_json(q.tracks)), seq![dec(ti as nat), "clips"@, dec(ci as nat)], payload) == Some(
        JVal::Arr(tracks_json(p.tracks)),
    ));
    // the project
    let z = ProjectV { tracks: Seq::empty(), ..q };
    assert(project_entries(z).update(11, ("tracks"@, Some(JVal::Arr(tracks_json(p.tracks))))) =~= project_entries(p));
    assert(fq[pos].0 == "tracks"@);
}

// ---- every change can be written back ----

/// Sizes a machine can hold: track and clip positions fit in 64 bits.
pub open spec fn within_limits(p: ProjectV) -> bool {
    &&& p.tracks.len() <= u64::MAX
    &&& forall|i: int| 0 <= i < p.tracks.len() ==> (#[trigger] p.tracks[i]).clips.len() <= u64::MAX
}

proof fn lemma_back_clips(p: ProjectV, ti: int, cs2: Seq<ClipV>)
    requires
        project_wf(p),
        within_limits(p),
        0 <= ti < p.tracks.len(),
    ensures
        value_at_spec(with_clips(p, ti, cs2), clips_path(ti as nat), JVal::Arr(clips_json(p.tracks[ti].clips))) == Some(p),
{
    lemma_clips_ptr(ti as nat);
    lemma_set_clips(p, ti, cs2);
    lemma_project_roundtrip(p);
}

proof fn lemma_back_clip(p: ProjectV, ti: int, ci: int, c2: ClipV)
    requires
        project_wf(p),
        within_limits(p),
        0 <= ti < p.tracks.len(),
        0 <= ci < p.tracks[ti].clips.len(),
    ensures
        value_at_spec(
            with_clips(p, ti, p.tracks[ti].clips.update(ci, c2)),
            clip_path(ti as nat, ci as nat),
            clip_json(p.tracks[ti].clips[ci]),
        ) == Some(p),
{
    assert(p.tracks[ti].clips.len() <= u64::MAX);
    lemma_clip_ptr(ti as nat, ci as nat);
    lemma_set_clip(p, ti, ci, c2);
    lemma_project_roundtrip(p);
}

proof fn lemma_back_tracks(p: ProjectV, ts2: Seq<TrackV>)
    requires
        project_wf(p),
    ensures
        value_at_spec(ProjectV { tracks: ts2, ..p }, "/tracks"@, JVal::Arr(tracks_json(p.tracks))) == Some(p),
{
    lemma_tracks_ptr();
    lemma_set_tracks(p, ts2);
    lemma_project_roundtrip(p);
}

/// Whatever change a command makes to a project, writing the change's
/// `before` back at its path restores the project.
pub proof fn lemma_change_reversible(p: ProjectV, cmd: CommandV)
    requires
        project_wf(p),
        within_limits(p),
        mutate_spec(p, cmd) is Ok,
    ensures
        ({
            let m = mutate_spec(p, cmd)->Ok_0;
            value_at_spec(m.project, m.path, m.before) == Some(p)
        }),
{
    let m = mutate_spec(p, cmd)->Ok_0;
    match cmd {
        CommandV::ClipUpdate { clip_id, patch } => {
            lemma_clip_pos_from(p.tracks, clip_id, 0);
            let (ti, ci) = clip_pos(p.tracks, clip_id)->0;
            let c2 = crate::command::patch_apply(patch, p.tracks[ti].clips[ci]);
            lemma_back_clip(p, ti, ci, c2);
        },
        CommandV::ClipSplit { clip_id, t_ms } => {
            lemma_clip_pos_from(p.tracks, clip_id, 0);
            let (ti, ci) = clip_pos(p.tracks, clip_id)->0;
            let cs = p.tracks[ti].clips;
            if crate::engine::split_done(cs, clip_id, t_ms) {
                assert(with_clips(p, ti, cs).tracks =~= p.tracks);
                assert(with_clips(p, ti, cs) == p);
                lemma_back_clips(p, ti, cs);
            } else {
                lemma_back_clips(p, ti, m.project.tracks[ti].clips);
                assert(m.project == with_clips(p, ti, m.project.tracks[ti].clips));
            }
        },
        CommandV::ClipDelete { clip_id } => {
            lemma_clip_pos_from(p.tracks, clip_id, 0);
            let (ti, ci) = clip_pos(p.tracks, clip_id)->0;
            lemma_back_clips(p, ti, p.tracks[ti].clips.remove(ci));
        },
        CommandV::ClipMove { clip_id, new_start_ms, to_track } => match to_track {
            None => {
                lemma_clip_pos_from(p.tracks, clip_id, 0);
                let (ti, ci) = clip_pos(p.tracks, clip_id)->0;
                let c2 = ClipV { start_ms: new_start_ms, ..p.tracks[ti].clips[ci] };
                lemma_back_clip(p, ti, ci, c2);
            },
            Some(t) => {
                lemma_back_tracks(p, m.project.tracks);
                assert(m.project == ProjectV { tracks: m.project.tracks, ..p });
            },
        },
        CommandV::ClipInsert { to_track, clip, .. } => {
            lemma_track_index_from(p.tracks, to_track, 0);
            let ti = track_index(p.tracks, to_track)->0;
            lemma_back_clips(p, ti, p.tracks[ti].clips.push(clip));
        },
        CommandV::ClipMerge { left_id, right_id } => {
            lemma_clip_pos_from(p.tracks, left_id, 0);
            let (lt, li) = clip_pos(p.tracks, left_id)->0;
            lemma_back_clips(p, lt, m.project.tracks[lt].clips);
            assert(m.project == with_clips(p, lt, m.project.tracks[lt].clips));
        },
    }
}

proof fn lemma_op_index_last(ops: Seq<OpV>, id: Seq<char>, i: int)
    requires
        0 <= i < ops.len(),
        ops.last().op_id == id,
        forall|k: int| 0 <= k < ops.len() - 1 ==> (#[trigger] ops[k]).op_id != id,
    ensures
        op_index_from(ops, id, i) == Some(ops.len() - 1),
    decreases ops.len() - i,
{
    if i < ops.len() - 1 {
        lemma_op_index_last(ops, id, i + 1);
    }
}

/// Undoing a change that `apply` recorded gives back the project exactly as
/// it was before the change, succeeds, and leaves the undo stack as it was
/// before the change (the project before the change passes the engine's
/// schema, if one is set).
pub proof fn law_undo_restores(
    e0: EngineV,
    cmd: CommandV,
    actor: ActorV,
    opts: ApplyOptsV,
    e1: EngineV,
    r1: Result<OpReceiptV, RejectV>,
    actor2: ActorV,
    e2: EngineV,
    r2: Result<OpReceiptV, RejectV>,
)
    requires
        project_wf(e0.project),
        within_limits(e0.project),
        apply_post(e0, cmd, actor, opts, e1, r1),
        r1 matches Ok(rc) && !rc.idempotent,
        !opts.non_undoable,
        schema_check(e0.schema, e0.project) is None,
        step_post(true, e1, actor2, e2, r2),
    ensures
        e2.project == e0.project,
        e2.undo == e0.undo,
        r2 is Ok,
{
    assert(early_answer(e0, opts) is None);
    let m = mutate_spec(e0.project, cmd)->Ok_0;
    assert(mutate_spec(e0.project, cmd) is Ok);
    assert(m.before != m.after);
    let (id, nxt) = write_id(e0, opts);
    assert(!has_op_id(e0.log.ops, id));
    let n = e0.log.ops.len() as int;
    assert(e1.undo == e0.undo.push(id));
    assert(e1.undo.last() == id);
    assert(e1.undo.drop_last() =~= e0.undo);
    let ops = e1.log.ops;
    assert forall|k: int| 0 <= k < ops.len() - 1 implies (#[trigger] ops[k]).op_id != id by {
        assert(ops[k] == ops.take(n)[k]);
        assert(e0.log.ops[k] == ops[k]);
    }
    lemma_op_index_last(ops, id, 0);
    let o = ops[n];
    assert(o == ops.last());
    assert(o.file == "project.json"@);
    assert(o.path == m.path && o.before == m.before);
    lemma_change_reversible(e0.project, cmd);
    assert(e1.project == m.project);
}

/// Whatever change a command makes, writing the change's `after` at its
/// path into the unchanged project gives the changed project.
pub proof fn lemma_change_replayable(p: ProjectV, cmd: CommandV)
    requires
        mutate_spec(p, cmd) is Ok,
        project_wf(mutate_spec(p, cmd)->Ok_0.project),
        within_limits(mutate_spec(p, cmd)->Ok_0.project),
    ensures
        ({
            let m = mutate_spec(p, cmd)->Ok_0;
            value_at_spec(p, m.path, m.after) == Some(m.project)
        }),
{
    let m = mutate_spec(p, cmd)->Ok_0;
    let mp = m.project;
    match cmd {
        CommandV::ClipUpdate { clip_id, patch } => {
            lemma_clip_pos_from(p.tracks, clip_id, 0);
            let (ti, ci) = clip_pos(p.tracks, clip_id)->0;
            let c = p.tracks[ti].clips[ci];
            let cs = p.tracks[ti].clips;
            assert(mp.tracks[ti].clips =~= cs.update(ci, crate::command::patch_apply(patch, c)));
            assert(mp.tracks[ti].clips.update(ci, c) =~= cs);
            assert(TrackV { clips: cs, ..mp.tracks[ti] } == p.tracks[ti]);
            assert(with_clips(mp, ti, mp.tracks[ti].clips.update(ci, c)).tracks =~= p.tracks);
            lemma_back_clip(mp, ti, ci, c);
        },
        CommandV::ClipSplit { clip_id, t_ms } => {
            lemma_clip_pos_from(p.tracks, clip_id, 0);
            let (ti, ci) = clip_pos(p.tracks, clip_id)->0;
            assert(with_clips(mp, ti, p.tracks[ti].clips).tracks =~= p.tracks);
            lemma_back_clips(mp, ti, p.tracks[ti].clips);
        },
        CommandV::ClipDelete { clip_id } => {
            lemma_clip_pos_from(p.tracks, clip_id, 0);
            let (ti, ci) = clip_pos(p.tracks, clip_id)->0;
            assert(with_clips(mp, ti, p.tracks[ti].clips).tracks =~= p.tracks);
            lemma_back_clips(mp, ti, p.tracks[ti].clips);
        },
        CommandV::ClipMove { clip_id, new_start_ms, to_track } => match to_track {
            None => {
                lemma_clip_pos_from(p.tracks, clip_id, 0);
                let (ti, ci) = clip_pos(p.tracks, clip_id)->0;
                let c = p.tracks[ti].clips[ci];
                let cs = p.tracks[ti].clips;
                assert(mp.tracks[ti].clips =~= cs.update(ci, ClipV { start_ms: new_start_ms, ..c }));
                assert(mp.tracks[ti].clips.update(ci, c) =~= cs);
                assert(TrackV { clips: cs, ..mp.tracks[ti] } == p.tracks[ti]);
                assert(with_clips(mp, ti, mp.tracks[ti].clips.update(ci, c)).tracks =~= p.tracks);
                lemma_back_clip(mp, ti, ci, c);
            },
            Some(t) => {
                lemma_back_tracks(mp, p.tracks);
                assert(ProjectV { tracks: p.tracks, ..mp } == p);
            },
        },
        CommandV::ClipInsert { to_track, clip, .. } => {
            lemma_track_index_from(p.tracks, to_track, 0);
            let ti = track_index(p.tracks, to_track)->0;
            assert(with_clips(mp, ti, p.tracks[ti].clips).tracks =~= p.tracks);
            lemma_back_clips(mp, ti, p.tracks[ti].clips);
        },
        CommandV::ClipMerge { left_id, right_id } => {
            lemma_clip_pos_from(p.tracks, left_id, 0);
            let (lt, li) = clip_pos(p.tracks, left_id)->0;
            assert(with_clips(mp, lt, p.tracks[lt].clips).tracks =~= p.tracks);
            lemma_back_clips(mp, lt, p.tracks[lt].clips);
        },
    }
}

proof fn lemma_op_index_first(ops: Seq<OpV>, id: Seq<char>, j: int, i: int)
    requires
        0 <= i <= j < ops.len(),
        ops[j].op_id == id,
        forall|k: int| 0 <= k < j ==> (#[trigger] ops[k]).op_id != id,
    ensures
        op_index_from(ops, id, i) == Some(j),
    decreases j - i,
{
    if i < j {
        lemma_op_index_first(ops, id, j, i + 1);
    }
}

/// Redoing right after undoing a recorded change gives back the changed
/// project, succeeds, and puts the change back on the undo stack (the
/// project before the change passes the engine's schema, if one is set).
#[verifier::rlimit(80)]
#[verifier::spinoff_prover]
pub proof fn law_redo_after_undo(
    e0: EngineV,
    cmd: CommandV,
    actor: ActorV,
    opts: ApplyOptsV,
    e1: EngineV,
    r1: Result<OpReceiptV, RejectV>,
    actor2: ActorV,
    e2: EngineV,
    r2: Result<OpReceiptV, RejectV>,
    actor3: ActorV,
    e3: EngineV,
    r3: Result<OpReceiptV, RejectV>,
)
    requires
        project_wf(e0.project),
        within_limits(e0.project),
        project_wf(e1.project),
        within_limits(e1.project),
        apply_post(e0, cmd, actor, opts, e1, r1),
        r1 matches Ok(rc) && !rc.idempotent,
        !opts.non_undoable,
        schema_check(e0.schema, e0.project) is None,
        step_post(true, e1, actor2, e2, r2),
        step_post(false, e2, actor3, e3, r3),
    ensures
        e3.project == e1.project,
        e3.undo == e1.undo,
        r3 is Ok,
{
    law_undo_restores(e0, cmd, actor, opts, e1, r1, actor2, e2, r2);
    let m = mutate_spec(e0.project, cmd)->Ok_0;
    let (id, nxt) = write_id(e0, opts);
    let n = e0.log.ops.len() as int;
    let ops1 = e1.log.ops;
    assert forall|k: int| 0 <= k < ops1.len() - 1 implies (#[trigger] ops1[k]).op_id != id by {
        assert(ops1[k] == ops1.take(n)[k]);
        assert(e0.log.ops[k] == ops1[k]);
    }
    lemma_op_index_last(ops1, id, 0);
    let o = ops1[n];
    assert(o == ops1.last());
    assert(e2.redo.last() == id);
    assert(e2.redo.drop_last() =~= e1.redo);
    let ops2 = e2.log.ops;
    assert(ops2.len() >= ops1.len());
    assert forall|k: int| 0 <= k <= n implies #[trigger] ops2[k] == ops1[k] by {
        if ops2 != ops1 {
            assert(ops2 == ops1.push(ops2.last()));
        }
    }
    assert forall|k: int| 0 <= k < n implies (#[trigger] ops2[k]).op_id != id by {
        assert(ops2[k] == ops1[k]);
    }
    lemma_op_index_first(ops2, id, n, 0);
    lemma_change_replayable(e0.project, cmd);
    assert(e2.project == e0.project);
    assert(e2.undo == e0.undo);
    assert(e1.undo == e0.undo.push(id));
}

/// Replaying the log agrees with the live state, and a recorded change
/// keeps it so: when replaying the log from `base` gives the project, the
/// file states and the revision of `e0`, replaying the log after a change
/// that `apply` recorded gives those of `e1`.
pub proof fn law_replay_follows_apply(
    base: ProjectV,
    e0: EngineV,
    cmd: CommandV,
    actor: ActorV,
    opts: ApplyOptsV,
    e1: EngineV,
    r1: Result<OpReceiptV, RejectV>,
)
    requires
        replay_from(base, e0.log.ops) == Some((e0.project, e0.files, e0.rev)),
        project_wf(e1.project),
        within_limits(e1.project),
        apply_post(e0, cmd, actor, opts, e1, r1),
        r1 matches Ok(rc) && !rc.idempotent,
    ensures
        replay_from(base, e1.log.ops) == Some((e1.project, e1.files, e1.rev)),
{
    assert(early_answer(e0, opts) is None);
    let m = mutate_spec(e0.project, cmd)->Ok_0;
    assert(mutate_spec(e0.project, cmd) is Ok);
    let n = e0.log.ops.len() as int;
    let ops = e1.log.ops;
    assert(ops.drop_last() =~= e0.log.ops) by {
        assert(ops.take(n) == e0.log.ops);
    }
    let o = ops.last();
    assert(o.file == "project.json"@ && o.path == m.path && o.after == m.after);
    assert(o.rev == Some((e0.rev + 1) as u64));
    lemma_change_replayable(e0.project, cmd);
}

/// Replaying the log agrees with the live state after an undo or a redo
/// too: when replaying from `base` gives the project, file states and
/// revision of `e0`, replaying the log after a successful undo (or redo)
/// that logged its op gives those of `e1`.
pub proof fn law_replay_follows_undo_redo(
    base: ProjectV,
    e0: EngineV,
    is_undo: bool,
    actor: ActorV,
    e1: EngineV,
    r: Result<OpReceiptV, RejectV>,
)
    requires
        replay_from(base, e0.log.ops) == Some((e0.project, e0.files, e0.rev)),
        step_post(is_undo, e0, actor, e1, r),
        r is Ok,
        e1.log.ops.len() == e0.log.ops.len() + 1,
    ensures
        replay_from(base, e1.log.ops) == Some((e1.project, e1.files, e1.rev)),
{
    let stack = if is_undo { e0.undo } else { e0.redo };
    let tid = stack.last();
    let k = op_index_from(e0.log.ops, tid, 0)->0;
    let o = e0.log.ops[k];
    let (nid, nxt) = crate::oplog::alloc_op_id(e0.log);
    assert(!has_op_id(e0.log.ops, nid));
    let ops = e1.log.ops;
    assert(ops.drop_last() =~= e0.log.ops);
}

/// Replaying the log agrees with the live state after a recorded change of
/// another source-of-truth file (notes, word line, cut list) as well.
pub proof fn law_replay_follows_file_change(
    base: ProjectV,
    e0: EngineV,
    file: Seq<char>,
    path: Seq<char>,
    before: JVal,
    after: JVal,
    kind: OpKind,
    actor: ActorV,
    opts: ApplyOptsV,
    e1: EngineV,
    r: Result<OpReceiptV, RejectV>,
)
    requires
        replay_from(base, e0.log.ops) == Some((e0.project, e0.files, e0.rev)),
        file_change_post(e0, file, path, before, after, kind, actor, opts, e1, r),
        file != "project.json"@,
        e1.log.ops.len() == e0.log.ops.len() + 1,
    ensures
        replay_from(base, e1.log.ops) == Some((e1.project, e1.files, e1.rev)),
{
    let ops = e1.log.ops;
    assert(ops.drop_last() =~= e0.log.ops) by {
        assert(ops.take(e0.log.ops.len() as int) == e0.log.ops);
    }
}

/// `e1` follows `e0` by one logged change: a change `apply` recorded, or
/// an undo or redo that logged its op.
pub open spec fn logged_step(e0: EngineV, e1: EngineV) -> bool {
    ||| exists|cmd: CommandV, actor: ActorV, opts: ApplyOptsV, r: Result<OpReceiptV, RejectV>|
        #[trigger] apply_post(e0, cmd, actor, opts, e1, r) && (r matches Ok(rc) && !rc.idempotent)
            && project_wf(e1.project) && within_limits(e1.project)
    ||| exists|is_undo: bool, actor: ActorV, r: Result<OpReceiptV, RejectV>|
        #[trigger] step_post(is_undo, e0, actor, e1, r) && r is Ok && e1.log.ops.len() == e0.log.ops.len() + 1
}

/// Replaying the whole log gives the live state: along any history of
/// logged changes that starts where replaying its log from `base` agrees
/// with the engine, replaying the final log from `base` gives the final
/// project, file states and revision.
pub proof fn law_replay_whole_history(base: ProjectV, es: Seq<EngineV>)
    requires
        es.len() > 0,
        replay_from(base, es[0].log.ops) == Some((es[0].project, es[0].files, es[0].rev)),
        forall|i: int| 0 <= i < es.len() - 1 ==> #[trigger] logged_step(es[i], es[i + 1]),
    ensures
        replay_from(base, es.last().log.ops) == Some((es.last().project, es.last().files, es.last().rev)),
    decreases es.len(),
{
    if es.len() > 1 {
        let pre = es.drop_last();
        assert forall|i: int| 0 <= i < pre.len() - 1 implies #[trigger] logged_step(pre[i], pre[i + 1]) by {
            assert(logged_step(es[i], es[i + 1]));
        }
        law_replay_whole_history(base, pre);
        let n = es.len() - 2;
        let e0 = es[n];
        let e1 = es[n + 1];
        assert(pre.last() == e0);
        assert(logged_step(e0, e1));
        if exists|cmd: CommandV, actor: ActorV, opts: ApplyOptsV, r: Result<OpReceiptV, RejectV>|
            #[trigger] apply_post(e0, cmd, actor, opts, e1, r) && (r matches Ok(rc) && !rc.idempotent)
                && project_wf(e1.project) && within_limits(e1.project) {
            let (cmd, actor, opts, r) = choose|cmd: CommandV, actor: ActorV, opts: ApplyOptsV, r: Result<OpReceiptV, RejectV>|
                #[trigger] apply_post(e0, cmd, actor, opts, e1, r) && (r matches Ok(rc) && !rc.idempotent)
                    && project_wf(e1.project) && within_limits(e1.project);
            law_replay_follows_apply(base, e0, cmd, actor, opts, e1, r);
        } else {
            let (is_undo, actor, r) = choose|is_undo: bool, actor: ActorV, r: Result<OpReceiptV, RejectV>|
                #[trigger] step_post(is_undo, e0, actor, e1, r) && r is Ok && e1.log.ops.len() == e0.log.ops.len() + 1;
            law_replay_follows_undo_redo(base, e0, is_undo, actor, e1, r);
        }
    }
}

/// The undo stack rebuilt from the log is the live one, and the live redo
/// stack is the top of the rebuilt one.
pub open spec fn stacks_agree(e: EngineV) -> bool {
    let (u, r) = stacks_after(e.log.ops);
    &&& u == e.undo
    &&& e.redo.len() <= r.len()
    &&& r.skip(r.len() - e.redo.len()) == e.redo
}

proof fn lemma_op_index_id(ops: Seq<OpV>, id: Seq<char>, i: int)
    requires
        0 <= i,
    ensures
        op_index_from(ops, id, i) matches Some(k) ==> i <= k < ops.len() && ops[k].op_id == id,
    decreases ops.len() - i,
{
    if i < ops.len() && ops[i].op_id != id {
        lemma_op_index_id(ops, id, i + 1);
    }
}

#[verifier::rlimit(40)]
proof fn lemma_stacks_apply(
    e0: EngineV,
    e1: EngineV,
    cmd: CommandV,
    actor: ActorV,
    opts: ApplyOptsV,
    res: Result<OpReceiptV, RejectV>,
)
    requires
        stacks_agree(e0),
        apply_post(e0, cmd, actor, opts, e1, res),
        res matches Ok(rc) && !rc.idempotent,
    ensures
        stacks_agree(e1),
{
    let n = e0.log.ops.len() as int;
    let (u, r) = stacks_after(e0.log.ops);
    assert(early_answer(e0, opts) is None);
    let m = mutate_spec(e0.project, cmd)->Ok_0;
    assert(mutate_spec(e0.project, cmd) is Ok);
    let ops = e1.log.ops;
    assert(ops.drop_last() =~= e0.log.ops) by {
        assert(ops.take(n) == e0.log.ops);
    }
    let o = ops.last();
    assert(o.op_kind == m.kind);
    assert(m.kind != OpKind::Undo && m.kind != OpKind::Redo);
    let (u1, r1) = stacks_after(ops);
    if opts.non_undoable {
        assert(o.auto == Some(true));
        assert((u1, r1) == (u, r));
    } else {
        assert(o.auto is None);
        assert((u1, r1) == (u.push(o.op_id), r));
        assert(e1.redo.len() == 0);
        assert(r1.skip(r1.len() - 0) =~= Seq::<Seq<char>>::empty());
    }
}

#[verifier::rlimit(40)]
proof fn lemma_stacks_step(e0: EngineV, e1: EngineV, is_undo: bool, actor: ActorV, res: Result<OpReceiptV, RejectV>)
    requires
        stacks_agree(e0),
        step_post(is_undo, e0, actor, e1, res),
        res is Ok,
        e1.log.ops.len() == e0.log.ops.len() + 1,
    ensures
        stacks_agree(e1),
{
    let (u, r) = stacks_after(e0.log.ops);
    let stack = if is_undo { e0.undo } else { e0.redo };
    let tid = stack.last();
    lemma_op_index_id(e0.log.ops, tid, 0);
    let ops = e1.log.ops;
    assert(ops.drop_last() =~= e0.log.ops);
    let (u1, r1) = stacks_after(ops);
    if is_undo {
        assert(ops.last().op_kind == OpKind::Undo);
        assert((u1, r1) == (u.drop_last(), r.push(u.last())));
        assert(r1.skip(r1.len() - e1.redo.len()) =~= r.skip(r.len() - e0.redo.len()).push(tid));
    } else {
        assert(ops.last().op_kind == OpKind::Redo);
        assert(r.last() == e0.redo.last()) by {
            assert(r.skip(r.len() - e0.redo.len())[e0.redo.len() - 1] == e0.redo[e0.redo.len() - 1]);
        }
        assert((u1, r1) == (u.push(r.last()), r.drop_last()));
        assert(r1.skip(r1.len() - e1.redo.len()) =~= e0.redo.drop_last()) by {
            assert forall|q: int| 0 <= q < e1.redo.len() implies r1.skip(r1.len() - e1.redo.len())[q]
                == e0.redo.drop_last()[q] by {
                assert(r.skip(r.len() - e0.redo.len())[q] == e0.redo[q]);
            }
        }
    }
}

/// Rebuilding the undo stack from the log keeps up with the engine: after
/// a logged change, the stack rebuilt from the new log is the live undo
/// stack (and the live redo stack the top of the rebuilt one), when that
/// held before.
pub proof fn law_rebuilt_stacks_follow(e0: EngineV, e1: EngineV)
    requires
        stacks_agree(e0),
        logged_step(e0, e1),
    ensures
        stacks_agree(e1),
{
    if exists|cmd: CommandV, actor: ActorV, opts: ApplyOptsV, res: Result<OpReceiptV, RejectV>|
        #[trigger] apply_post(e0, cmd, actor, opts, e1, res) && (res matches Ok(rc) && !rc.idempotent)
            && project_wf(e1.project) && within_limits(e1.project) {
        let (cmd, actor, opts, res) = choose|cmd: CommandV, actor: ActorV, opts: ApplyOptsV, res: Result<OpReceiptV, RejectV>|
            #[trigger] apply_post(e0, cmd, actor, opts, e1, res) && (res matches Ok(rc) && !rc.idempotent)
                && project_wf(e1.project) && within_limits(e1.project);
        lemma_stacks_apply(e0, e1, cmd, actor, opts, res);
    } else {
        let (is_undo, actor, res) = choose|is_undo: bool, actor: ActorV, res: Result<OpReceiptV, RejectV>|
            #[trigger] step_post(is_undo, e0, actor, e1, res) && res is Ok && e1.log.ops.len() == e0.log.ops.len() + 1;
        lemma_stacks_step(e0, e1, is_undo, actor, res);
    }
}

} // verus!

verus! {

// ---- runs of changes, undone and redone ----

/// A run of `apply` calls that each recorded an undoable change: `es[i + 1]`
/// is the engine after `cmds[i]` was applied to `es[i]`.
pub open spec fn recorded_run(
    es: Seq<EngineV>,
    cmds: Seq<CommandV>,
    actors: Seq<ActorV>,
    opts: Seq<ApplyOptsV>,
    rs: Seq<Result<OpReceiptV, RejectV>>,
) -> bool {
    &&& es.len() >= 1
    &&& cmds.len() == es.len() - 1
    &&& actors.len() == es.len() - 1
    &&& opts.len() == es.len() - 1
    &&& rs.len() == es.len() - 1
    &&& schema_check(es[0].schema, es[0].project) is None
    &&& forall|i: int| 0 <= i < es.len() ==> project_wf(#[trigger] es[i].project) && within_limits(es[i].project)
    &&& forall|i: int| 0 <= i < es.len() - 1 ==> {
        &&& #[trigger] apply_post(es[i], cmds[i], actors[i], opts[i], es[i + 1], rs[i])
        &&& (rs[i] matches Ok(rc) && !rc.idempotent)
        &&& !opts[i].non_undoable
    }
}

/// A run of undo (`is_undo`) or redo calls: `ws[j + 1]` is the engine after
/// the call made on `ws[j]`.
pub open spec fn step_run(
    is_undo: bool,
    ws: Seq<EngineV>,
    actors: Seq<ActorV>,
    rs: Seq<Result<OpReceiptV, RejectV>>,
) -> bool {
    &&& ws.len() >= 1
    &&& actors.len() == ws.len() - 1
    &&& rs.len() == ws.len() - 1
    &&& forall|j: int| 0 <= j < ws.len() - 1 ==> #[trigger] step_post(is_undo, ws[j], actors[j], ws[j + 1], rs[j])
}

/// The redo stack once the changes of a run after position `p` are undone:
/// their op ids, the last change first.
pub open spec fn redo_after(es: Seq<EngineV>, p: int) -> Seq<Seq<char>> {
    let n = es.len() - 1;
    es[n].redo + Seq::new((n - p) as nat, |q: int| es[n - q].undo.last())
}

/// An engine standing at position `p` of a run: the project and undo stack
/// of `es[p]`, the later changes on the redo stack, and the whole run's log
/// as a prefix of its own.
pub open spec fn at_position(cur: EngineV, es: Seq<EngineV>, p: int) -> bool {
    let n = es.len() - 1;
    &&& cur.project == es[p].project
    &&& cur.undo == es[p].undo
    &&& cur.redo == redo_after(es, p)
    &&& cur.schema == es[0].schema
    &&& cur.log.ops.len() >= es[n].log.ops.len()
    &&& cur.log.ops.take(es[n].log.ops.len() as int) == es[n].log.ops
}

proof fn lemma_run_step(
    es: Seq<EngineV>,
    cmds: Seq<CommandV>,
    actors: Seq<ActorV>,
    opts: Seq<ApplyOptsV>,
    rs: Seq<Result<OpReceiptV, RejectV>>,
    i: int,
)
    requires
        recorded_run(es, cmds, actors, opts, rs),
        0 <= i < es.len() - 1,
    ensures
        mutate_spec(es[i].project, cmds[i]) is Ok,
        ({
            let m = mutate_spec(es[i].project, cmds[i])->Ok_0;
            let id = es[i + 1].undo.last();
            let o = es[i + 1].log.ops.last();
            &&& es[i + 1].project == m.project
            &&& es[i + 1].undo == es[i].undo.push(id)
            &&& es[i + 1].redo.len() == 0
            &&& es[i + 1].schema == es[i].schema
            &&& schema_check(es[i].schema, m.project) is None
            &&& !has_op_id(es[i].log.ops, id)
            &&& es[i + 1].log.ops == es[i].log.ops.push(o)
            &&& o.op_id == id
            &&& o.file == "project.json"@
            &&& o.path == m.path
            &&& o.before == m.before
            &&& o.after == m.after
        }),
{
    let e0 = es[i];
    let e1 = es[i + 1];
    assert(apply_post(e0, cmds[i], actors[i], opts[i], e1, rs[i]));
    assert(early_answer(e0, opts[i]) is None);
    assert(mutate_spec(e0.project, cmds[i]) is Ok);
    let (id, nxt) = write_id(e0, opts[i]);
    assert(!has_op_id(e0.log.ops, id));
    assert(e1.undo == e0.undo.push(id));
    assert(e1.undo.last() == id);
    let n = e0.log.ops.len() as int;
    assert(e1.log.ops =~= e0.log.ops.push(e1.log.ops.last())) by {
        assert(e1.log.ops.take(n) == e0.log.ops);
        assert forall|k: int| 0 <= k < n implies e1.log.ops[k] == e0.log.ops[k] by {
            assert(e1.log.ops.take(n)[k] == e1.log.ops[k]);
        }
    }
}

proof fn lemma_run_schema(
    es: Seq<EngineV>,
    cmds: Seq<CommandV>,
    actors: Seq<ActorV>,
    opts: Seq<ApplyOptsV>,
    rs: Seq<Result<OpReceiptV, RejectV>>,
    i: int,
)
    requires
        recorded_run(es, cmds, actors, opts, rs),
        0 <= i < es.len(),
    ensures
        es[i].schema == es[0].schema,
        schema_check(es[0].schema, es[i].project) is None,
    decreases i,
{
    if i > 0 {
        lemma_run_schema(es, cmds, actors, opts, rs, i - 1);
        lemma_run_step(es, cmds, actors, opts, rs, i - 1);
    }
}

proof fn lemma_run_prefix(
    es: Seq<EngineV>,
    cmds: Seq<CommandV>,
    actors: Seq<ActorV>,
    opts: Seq<ApplyOptsV>,
    rs: Seq<Result<OpReceiptV, RejectV>>,
    i: int,
)
    requires
        recorded_run(es, cmds, actors, opts, rs),
        0 <= i < es.len(),
    ensures
        es.last().log.ops.len() >= es[i].log.ops.len(),
        es.last().log.ops.take(es[i].log.ops.len() as int) == es[i].log.ops,
    decreases es.len() - i,
{
    let n = es.len() - 1;
    if i < n {
        lemma_run_prefix(es, cmds, actors, opts, rs, i + 1);
        lemma_run_step(es, cmds, actors, opts, rs, i);
        let a = es[i].log.ops;
        let b = es[i + 1].log.ops;
        let c = es.last().log.ops;
        assert forall|k: int| 0 <= k < a.len() implies c[k] == a[k] by {
            assert(c.take(b.len() as int)[k] == c[k]);
            assert(b[k] == a[k]);
        }
        assert(c.take(a.len() as int) =~= a);
    } else {
        assert(es.last().log.ops.take(es[i].log.ops.len() as int) =~= es[i].log.ops);
    }
}

/// In a log that extends the run's log, the change recorded by step `i` of
/// the run is found first at the index it was appended at.
proof fn lemma_run_op(
    es: Seq<EngineV>,
    cmds: Seq<CommandV>,
    actors: Seq<ActorV>,
    opts: Seq<ApplyOptsV>,
    rs: Seq<Result<OpReceiptV, RejectV>>,
    ops: Seq<OpV>,
    i: int,
)
    requires
        recorded_run(es, cmds, actors, opts, rs),
        0 <= i < es.len() - 1,
        ops.len() >= es.last().log.ops.len(),
        ops.take(es.last().log.ops.len() as int) == es.last().log.ops,
    ensures
        op_index_from(ops, es[i + 1].undo.last(), 0) == Some(es[i].log.ops.len() as int),
        ops[es[i].log.ops.len() as int] == es[i + 1].log.ops.last(),
{
    lemma_run_step(es, cmds, actors, opts, rs, i);
    lemma_run_prefix(es, cmds, actors, opts, rs, i + 1);
    let id = es[i + 1].undo.last();
    let n = es[i].log.ops.len() as int;
    let b = es[i + 1].log.ops;
    let c = es.last().log.ops;
    assert(ops[n] == c[n]) by {
        assert(ops.take(c.len() as int)[n] == ops[n]);
    }
    assert(c[n] == b[n]) by {
        assert(c.take(b.len() as int)[n] == c[n]);
    }
    assert forall|k: int| 0 <= k < n implies (#[trigger] ops[k]).op_id != id by {
        assert(ops.take(c.len() as int)[k] == ops[k]);
        assert(c.take(b.len() as int)[k] == c[k]);
        assert(b[k] == es[i].log.ops[k]);
        if es[i].log.ops[k].op_id == id {
            assert(has_op_id(es[i].log.ops, id));
        }
    }
    lemma_op_index_first(ops, id, n, 0);
}

proof fn lemma_ops_extend(cur: Seq<OpV>, new: Seq<OpV>, base: Seq<OpV>)
    requires
        cur.len() >= base.len(),
        cur.take(base.len() as int) == base,
        new == cur || new == cur.push(new.last()),
    ensures
        new.len() >= base.len(),
        new.take(base.len() as int) == base,
{
    if new != cur {
        assert forall|k: int| 0 <= k < base.len() implies new[k] == base[k] by {
            assert(cur.take(base.len() as int)[k] == cur[k]);
        }
        assert(new.take(base.len() as int) =~= base);
    }
}

#[verifier::rlimit(40)]
proof fn lemma_undo_one(
    es: Seq<EngineV>,
    cmds: Seq<CommandV>,
    actors: Seq<ActorV>,
    opts: Seq<ApplyOptsV>,
    rs: Seq<Result<OpReceiptV, RejectV>>,
    p: int,
    us: Seq<EngineV>,
    uas: Seq<ActorV>,
    urs: Seq<Result<OpReceiptV, RejectV>>,
    j: int,
)
    requires
        recorded_run(es, cmds, actors, opts, rs),
        1 <= p < es.len(),
        step_run(true, us, uas, urs),
        0 <= j < us.len() - 1,
        at_position(us[j], es, p),
    ensures
        urs[j] is Ok,
        at_position(us[j + 1], es, p - 1),
{
    let cur = us[j];
    let new = us[j + 1];
    assert(step_post(true, cur, uas[j], new, urs[j]));
    let i = p - 1;
    lemma_run_step(es, cmds, actors, opts, rs, i);
    lemma_run_schema(es, cmds, actors, opts, rs, i);
    lemma_run_op(es, cmds, actors, opts, rs, cur.log.ops, i);
    lemma_change_reversible(es[i].project, cmds[i]);
    let m = mutate_spec(es[i].project, cmds[i])->Ok_0;
    let id = es[p].undo.last();
    assert(cur.undo.last() == id);
    let o = cur.log.ops[es[i].log.ops.len() as int];
    assert(o.file == "project.json"@);
    assert(value_at_spec(cur.project, o.path, o.before) == Some(es[i].project));
    assert(new.project == es[i].project);
    assert(new.undo =~= es[i].undo);
    assert(new.redo =~= redo_after(es, p - 1));
    lemma_ops_extend(cur.log.ops, new.log.ops, es.last().log.ops);
}

#[verifier::rlimit(40)]
proof fn lemma_redo_one(
    es: Seq<EngineV>,
    cmds: Seq<CommandV>,
    actors: Seq<ActorV>,
    opts: Seq<ApplyOptsV>,
    rs: Seq<Result<OpReceiptV, RejectV>>,
    p: int,
    ws: Seq<EngineV>,
    was: Seq<ActorV>,
    wrs: Seq<Result<OpReceiptV, RejectV>>,
    t: int,
)
    requires
        recorded_run(es, cmds, actors, opts, rs),
        0 <= p < es.len() - 1,
        step_run(false, ws, was, wrs),
        0 <= t < ws.len() - 1,
        at_position(ws[t], es, p),
    ensures
        wrs[t] is Ok,
        at_position(ws[t + 1], es, p + 1),
{
    let cur = ws[t];
    let new = ws[t + 1];
    assert(step_post(false, cur, was[t], new, wrs[t]));
    let i = p;
    lemma_run_step(es, cmds, actors, opts, rs, i);
    lemma_run_schema(es, cmds, actors, opts, rs, i);
    lemma_run_op(es, cmds, actors, opts, rs, cur.log.ops, i);
    lemma_change_replayable(es[i].project, cmds[i]);
    let id = es[p + 1].undo.last();
    let n = es.len() - 1;
    assert(cur.redo.last() == id);
    let o = cur.log.ops[es[i].log.ops.len() as int];
    assert(o.file == "project.json"@);
    assert(value_at_spec(cur.project, o.path, o.after) == Some(es[p + 1].project));
    assert(new.project == es[p + 1].project);
    assert(new.undo =~= es[p + 1].undo);
    assert(new.redo =~= redo_after(es, p + 1));
    lemma_ops_extend(cur.log.ops, new.log.ops, es.last().log.ops);
}

proof fn lemma_run_end(
    es: Seq<EngineV>,
    cmds: Seq<CommandV>,
    actors: Seq<ActorV>,
    opts: Seq<ApplyOptsV>,
    rs: Seq<Result<OpReceiptV, RejectV>>,
)
    requires
        recorded_run(es, cmds, actors, opts, rs),
    ensures
        at_position(es.last(), es, es.len() - 1),
{
    lemma_run_schema(es, cmds, actors, opts, rs, es.len() - 1);
    assert(es.last().redo =~= redo_after(es, es.len() - 1));
    assert(es.last().log.ops.take(es.last().log.ops.len() as int) =~= es.last().log.ops);
}

proof fn lemma_undo_prefix(
    es: Seq<EngineV>,
    cmds: Seq<CommandV>,
    actors: Seq<ActorV>,
    opts: Seq<ApplyOptsV>,
    rs: Seq<Result<OpReceiptV, RejectV>>,
    us: Seq<EngineV>,
    uas: Seq<ActorV>,
    urs: Seq<Result<OpReceiptV, RejectV>>,
    j: int,
)
    requires
        recorded_run(es, cmds, actors, opts, rs),
        step_run(true, us, uas, urs),
        us.len() <= es.len(),
        us[0] == es.last(),
        0 <= j < us.len(),
    ensures
        at_position(us[j], es, es.len() - 1 - j),
        forall|t: int| 0 <= t < j ==> (#[trigger] urs[t]) is Ok,
    decreases j,
{
    if j == 0 {
        lemma_run_end(es, cmds, actors, opts, rs);
    } else {
        lemma_undo_prefix(es, cmds, actors, opts, rs, us, uas, urs, j - 1);
        lemma_undo_one(es, cmds, actors, opts, rs, es.len() - j, us, uas, urs, j - 1);
    }
}

proof fn lemma_redo_prefix(
    es: Seq<EngineV>,
    cmds: Seq<CommandV>,
    actors: Seq<ActorV>,
    opts: Seq<ApplyOptsV>,
    rs: Seq<Result<OpReceiptV, RejectV>>,
    us: Seq<EngineV>,
    uas: Seq<ActorV>,
    urs: Seq<Result<OpReceiptV, RejectV>>,
    ws: Seq<EngineV>,
    was: Seq<ActorV>,
    wrs: Seq<Result<OpReceiptV, RejectV>>,
    t: int,
)
    requires
        recorded_run(es, cmds, actors, opts, rs),
        step_run(true, us, uas, urs),
        us.len() <= es.len(),
        us[0] == es.last(),
        step_run(false, ws, was, wrs),
        ws.len() <= us.len(),
        ws[0] == us.last(),
        0 <= t < ws.len(),
    ensures
        at_position(ws[t], es, es.len() - us.len() + t),
        forall|s: int| 0 <= s < t ==> (#[trigger] wrs[s]) is Ok,
    decreases t,
{
    if t == 0 {
        lemma_undo_prefix(es, cmds, actors, opts, rs, us, uas, urs, us.len() - 1);
    } else {
        lemma_redo_prefix(es, cmds, actors, opts, rs, us, uas, urs, ws, was, wrs, t - 1);
        lemma_redo_one(es, cmds, actors, opts, rs, es.len() - us.len() + t - 1, ws, was, wrs, t - 1);
    }
}

/// Undo walks a run of recorded changes back: after `N` changes, each of
/// `k <= N` undos succeeds, and after the `j`-th one the engine holds the
/// project and the undo stack it had before the last `j` changes; `N` undos
/// give back the starting project (the starting project passes the
/// engine's schema, if one is set).
pub proof fn law_undo_run(
    es: Seq<EngineV>,
    cmds: Seq<CommandV>,
    actors: Seq<ActorV>,
    opts: Seq<ApplyOptsV>,
    rs: Seq<Result<OpReceiptV, RejectV>>,
    us: Seq<EngineV>,
    uas: Seq<ActorV>,
    urs: Seq<Result<OpReceiptV, RejectV>>,
)
    requires
        recorded_run(es, cmds, actors, opts, rs),
        step_run(true, us, uas, urs),
        us.len() <= es.len(),
        us[0] == es.last(),
    ensures
        forall|j: int| 0 <= j < us.len() ==> {
            &&& (#[trigger] us[j]).project == es[es.len() - 1 - j].project
            &&& us[j].undo == es[es.len() - 1 - j].undo
        },
        forall|j: int| 0 <= j < urs.len() ==> (#[trigger] urs[j]) is Ok,
{
    assert forall|j: int| 0 <= j < us.len() implies {
        &&& (#[trigger] us[j]).project == es[es.len() - 1 - j].project
        &&& us[j].undo == es[es.len() - 1 - j].undo
    } by {
        lemma_undo_prefix(es, cmds, actors, opts, rs, us, uas, urs, j);
    }
    lemma_undo_prefix(es, cmds, actors, opts, rs, us, uas, urs, us.len() - 1);
}

/// Redo walks it forward again: after `k` undos, each of `t <= k` redos
/// succeeds, and after the `t`-th one the engine holds the project and the
/// undo stack it had after change `N - k + t`; redoing all `k` gives back
/// the final project.
pub proof fn law_redo_run(
    es: Seq<EngineV>,
    cmds: Seq<CommandV>,
    actors: Seq<ActorV>,
    opts: Seq<ApplyOptsV>,
    rs: Seq<Result<OpReceiptV, RejectV>>,
    us: Seq<EngineV>,
    uas: Seq<ActorV>,
    urs: Seq<Result<OpReceiptV, RejectV>>,
    ws: Seq<EngineV>,
    was: Seq<ActorV>,
    wrs: Seq<Result<OpReceiptV, RejectV>>,
)
    requires
        recorded_run(es, cmds, actors, opts, rs),
        step_run(true, us, uas, urs),
        us.len() <= es.len(),
        us[0] == es.last(),
        step_run(false, ws, was, wrs),
        ws.len() <= us.len(),
        ws[0] == us.last(),
    ensures
        forall|t: int| 0 <= t < ws.len() ==> {
            &&& (#[trigger] ws[t]).project == es[es.len() - us.len() + t].project
            &&& ws[t].undo == es[es.len() - us.len() + t].undo
        },
        forall|t: int| 0 <= t < wrs.len() ==> (#[trigger] wrs[t]) is Ok,
{
    assert forall|t: int| 0 <= t < ws.len() implies {
        &&& (#[trigger] ws[t]).project == es[es.len() - us.len() + t].project
        &&& ws[t].undo == es[es.len() - us.len() + t].undo
    } by {
        lemma_redo_prefix(es, cmds, actors, opts, rs, us, uas, urs, ws, was, wrs, t);
    }
    lemma_redo_prefix(es, cmds, actors, opts, rs, us, uas, urs, ws, was, wrs, ws.len() - 1);
}

} // verus!

verus! {

/// Every write keeps the project valid under the engine's schema: when the
/// project passes the schema before an `apply`, an undo or redo, or a
/// recorded file change, it passes the same schema after it, whatever the
/// call answered.
pub proof fn law_writes_keep_schema(
    e0: EngineV,
    cmd: CommandV,
    actor: ActorV,
    opts: ApplyOptsV,
    e1: EngineV,
    r1: Result<OpReceiptV, RejectV>,
    is_undo: bool,
    e2: EngineV,
    r2: Result<OpReceiptV, RejectV>,
    file: Seq<char>,
    path: Seq<char>,
    before: JVal,
    after: JVal,
    kind: OpKind,
    e3: EngineV,
    r3: Result<OpReceiptV, RejectV>,
)
    requires
        schema_check(e0.schema, e0.project) is None,
    ensures
        apply_post(e0, cmd, actor, opts, e1, r1) ==> e1.schema == e0.schema && schema_check(
            e1.schema,
            e1.project,
        ) is None,
        step_post(is_undo, e0, actor, e2, r2) ==> e2.schema == e0.schema && schema_check(
            e2.schema,
            e2.project,
        ) is None,
        file_change_post(e0, file, path, before, after, kind, actor, opts, e3, r3) ==> e3.schema == e0.schema
            && schema_check(e3.schema, e3.project) is None,
{
}

} // verus!

verus! {

/// A recorded change of another source-of-truth file can be undone and
/// redone: right after the change, an undo succeeds and gives the file its
/// `before` back with the undo stack as it was, and a redo after it
/// succeeds and gives the file its `after` back with the change on the undo
/// stack again; the project is untouched throughout.
#[verifier::rlimit(40)]
pub proof fn law_file_change_undo_redo(
    e0: EngineV,
    file: Seq<char>,
    path: Seq<char>,
    before: JVal,
    after: JVal,
    kind: OpKind,
    actor: ActorV,
    opts: ApplyOptsV,
    e1: EngineV,
    r1: Result<OpReceiptV, RejectV>,
    actor2: ActorV,
    e2: EngineV,
    r2: Result<OpReceiptV, RejectV>,
    actor3: ActorV,
    e3: EngineV,
    r3: Result<OpReceiptV, RejectV>,
)
    requires
        file_change_post(e0, file, path, before, after, kind, actor, opts, e1, r1),
        file != "project.json"@,
        r1 matches Ok(rc) && !rc.idempotent,
        !opts.non_undoable,
        step_post(true, e1, actor2, e2, r2),
        step_post(false, e2, actor3, e3, r3),
    ensures
        r2 is Ok,
        crate::codec::lookup(e2.files, file) == Some(before),
        e2.undo == e0.undo,
        e2.project == e0.project,
        r3 is Ok,
        crate::codec::lookup(e3.files, file) == Some(after),
        e3.undo == e1.undo,
        e3.project == e0.project,
{
    let (id, nxt) = write_id(e0, opts);
    assert(!has_op_id(e0.log.ops, id));
    let n = e0.log.ops.len() as int;
    assert(e1.undo == e0.undo.push(id));
    assert(e1.undo.last() == id);
    assert(e1.undo.drop_last() =~= e0.undo);
    let ops1 = e1.log.ops;
    assert forall|k: int| 0 <= k < ops1.len() - 1 implies (#[trigger] ops1[k]).op_id != id by {
        assert(ops1[k] == ops1.take(n)[k]);
        assert(e0.log.ops[k] == ops1[k]);
    }
    lemma_op_index_last(ops1, id, 0);
    let o = ops1[n];
    assert(o == ops1.last());
    assert(o.file == file && o.before == before && o.after == after);
    crate::migrate::lemma_insert_lookup_same(e0.files, file, after);
    assert(crate::codec::lookup(e1.files, file) == Some(after));
    crate::migrate::lemma_insert_lookup_same(e1.files, file, before);
    assert(e2.redo.last() == id);
    let ops2 = e2.log.ops;
    assert forall|k: int| 0 <= k <= n implies #[trigger] ops2[k] == ops1[k] by {
        if ops2 != ops1 {
            assert(ops2 == ops1.push(ops2.last()));
        }
    }
    assert forall|k: int| 0 <= k < n implies (#[trigger] ops2[k]).op_id != id by {
        assert(ops2[k] == ops1[k]);
    }
    lemma_op_index_first(ops2, id, n, 0);
    crate::migrate::lemma_insert_lookup_same(e2.files, file, after);
}

} // verus!

verus! {

/// A bookkeeping write (`non_undoable`) enters the log but never the undo
/// stack: neither the live stacks nor the stacks rebuilt from the log (as
/// opening a project and replay rebuild them) change.
pub proof fn law_bookkeeping_never_undone(
    e0: EngineV,
    cmd: CommandV,
    actor: ActorV,
    opts: ApplyOptsV,
    e1: EngineV,
    r: Result<OpReceiptV, RejectV>,
)
    requires
        apply_post(e0, cmd, actor, opts, e1, r),
        r matches Ok(rc) && !rc.idempotent,
        opts.non_undoable,
    ensures
        e1.log.ops.len() == e0.log.ops.len() + 1,
        e1.undo == e0.undo,
        e1.redo == e0.redo,
        stacks_after(e1.log.ops) == stacks_after(e0.log.ops),
{
    let n = e0.log.ops.len() as int;
    assert(early_answer(e0, opts) is None);
    let m = mutate_spec(e0.project, cmd)->Ok_0;
    assert(mutate_spec(e0.project, cmd) is Ok);
    let ops = e1.log.ops;
    assert(ops.drop_last() =~= e0.log.ops) by {
        assert(ops.take(n) == e0.log.ops);
    }
    let o = ops.last();
    assert(o.op_kind == m.kind);
    assert(m.kind != OpKind::Undo && m.kind != OpKind::Redo);
    assert(o.auto == Some(true));
}

} // verus!
