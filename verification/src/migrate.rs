//! Upgrade of a project document from the first layout to the second:
//! fields that the second layout added are filled in where absent, and
//! every track and clip gets a stable id. Fields already present are kept,
//! so upgrading an upgraded document changes nothing.

use vstd::prelude::*;
use crate::json::{Json, JVal, find_key, find_from, lemma_find_from, lemma_find_first, lemma_find_none, field_index, fields_view, arr_view, json_copy, str_eq, lemma_fields_view, lemma_arr_view};
use crate::codec::lookup;
use crate::engine::{obj_insert, obj_insert_exec, insert_pos};
use crate::text::{dec, dec_pad, push_dec, push_dec_pad};

verus! {

broadcast use {lemma_fields_view, lemma_arr_view};

/// The letter that starts a generated track id, by the track's kind.
pub open spec fn letter_of(kind: Seq<char>) -> char {
    if kind == "video"@ {
        'V'
    } else if kind == "audio"@ {
        'A'
    } else if kind == "text"@ {
        'T'
    } else {
        'X'
    }
}

/// `fs` with `k` set to `v` where `k` is absent, unchanged otherwise.
pub open spec fn add_default(fs: Seq<(Seq<char>, JVal)>, k: Seq<char>, v: JVal) -> Seq<(Seq<char>, JVal)> {
    if find_key(fs, k) is Some {
        fs
    } else {
        obj_insert(fs, k, v)
    }
}

/// The text of the field `k` where it holds a string, else empty.
pub open spec fn str_field(fs: Seq<(Seq<char>, JVal)>, k: Seq<char>) -> Seq<char> {
    match lookup(fs, k) {
        Some(JVal::Str(s)) => s,
        _ => Seq::empty(),
    }
}

/// The id a track already carries: a non-empty string under "id".
pub open spec fn given_id(fs: Seq<(Seq<char>, JVal)>) -> Option<Seq<char>> {
    match lookup(fs, "id"@) {
        Some(JVal::Str(s)) => if s.len() > 0 {
            Some(s)
        } else {
            None
        },
        _ => None,
    }
}

/// The id of the track at position `ti`: the one it carries, else the
/// kind's letter followed by its 1-based position.
pub open spec fn track_tid(fs: Seq<(Seq<char>, JVal)>, ti: nat) -> Seq<char> {
    match given_id(fs) {
        Some(s) => s,
        None => seq![letter_of(str_field(fs, "kind"@))] + dec(ti + 1),
    }
}

/// The id given to the clip at position `ci` of track `tid` when it has none.
pub open spec fn default_clip_id(tid: Seq<char>, ci: nat) -> Seq<char> {
    tid + "-"@ + dec_pad(ci + 1, 3)
}

pub open spec fn migrate_clip(c: JVal, tid: Seq<char>, ci: nat) -> JVal {
    match c {
        JVal::Obj(fs) => JVal::Obj(add_default(fs, "id"@, JVal::Str(default_clip_id(tid, ci)))),
        _ => c,
    }
}

pub open spec fn migrate_clips(cs: Seq<JVal>, tid: Seq<char>) -> Seq<JVal> {
    Seq::new(cs.len(), |i: int| migrate_clip(cs[i], tid, i as nat))
}

/// `fs` with the array under `k`, if any, replaced by `items`.
pub open spec fn with_array(fs: Seq<(Seq<char>, JVal)>, k: Seq<char>, items: Seq<JVal>) -> Seq<(Seq<char>, JVal)> {
    match find_key(fs, k) {
        Some(j) => fs.update(j, (k, JVal::Arr(items))),
        None => fs,
    }
}

pub open spec fn array_at(fs: Seq<(Seq<char>, JVal)>, k: Seq<char>) -> Option<Seq<JVal>> {
    match lookup(fs, k) {
        Some(JVal::Arr(a)) => Some(a),
        _ => None,
    }
}

pub open spec fn migrate_track(t: JVal, ti: nat) -> JVal {
    match t {
        JVal::Obj(fs) => {
            let tid = track_tid(fs, ti);
            let fs1 = if given_id(fs) is Some {
                fs
            } else {
                obj_insert(fs, "id"@, JVal::Str(tid))
            };
            match array_at(fs1, "clips"@) {
                Some(cs) => JVal::Obj(with_array(fs1, "clips"@, migrate_clips(cs, tid))),
                None => JVal::Obj(fs1),
            }
        },
        _ => t,
    }
}

pub open spec fn migrate_tracks(ts: Seq<JVal>) -> Seq<JVal> {
    Seq::new(ts.len(), |i: int| migrate_track(ts[i], i as nat))
}

/// The upgraded document.
pub open spec fn migrate_spec(doc: JVal) -> JVal {
    match doc {
        JVal::Obj(fs) => {
            let fs1 = add_default(fs, "schemaVersion"@, JVal::Str("2.0.0"@));
            let fs2 = add_default(fs1, "backends"@, JVal::Arr(seq![JVal::Str("ffmpeg"@)]));
            let fs3 = add_default(fs2, "notes"@, JVal::Str("notes.json"@));
            match array_at(fs3, "tracks"@) {
                Some(ts) => JVal::Obj(with_array(fs3, "tracks"@, migrate_tracks(ts))),
                None => JVal::Obj(fs3),
            }
        },
        _ => doc,
    }
}

/// A track the upgrade accepts: an object whose clips, if it holds an
/// array of them, are objects.
pub open spec fn track_ok(t: JVal) -> bool {
    &&& t is Obj
    &&& (array_at(t->Obj_0, "clips"@) matches Some(cs) ==> forall|i: int| 0 <= i < cs.len() ==> (#[trigger] cs[i]) is Obj)
}

/// A document the upgrade accepts: an object whose tracks, if it holds an
/// array of them, are acceptable tracks.
pub open spec fn migratable(doc: JVal) -> bool {
    &&& doc is Obj
    &&& (array_at(doc->Obj_0, "tracks"@) matches Some(ts) ==> forall|i: int| 0 <= i < ts.len() ==> track_ok(#[trigger] ts[i]))
}

fn letter(kind: &str) -> (r: &'static str)
    ensures
        r@ == seq![letter_of(kind@)],
{
    proof {
        reveal_strlit("V");
        reveal_strlit("A");
        reveal_strlit("T");
        reveal_strlit("X");
    }
    if str_eq(kind, "video") {
        "V"
    } else if str_eq(kind, "audio") {
        "A"
    } else if str_eq(kind, "text") {
        "T"
    } else {
        "X"
    }
}

fn add_default_exec(fs: Vec<(String, Json)>, k: &str, v: Json) -> (r: Vec<(String, Json)>)
    ensures
        fields_view(r@) == add_default(fields_view(fs@), k@, v@),
{
    if field_index(&fs, k).is_some() {
        fs
    } else {
        obj_insert_exec(fs, k, v)
    }
}

fn str_field_exec(fs: &Vec<(String, Json)>, k: &str) -> (r: String)
    ensures
        r@ == str_field(fields_view(fs@), k@),
{
    match field_index(fs, k) {
        Some(i) => match &fs[i].1 {
            Json::Str(s) => s.clone(),
            _ => String::new(),
        },
        None => String::new(),
    }
}

fn given_id_exec(fs: &Vec<(String, Json)>) -> (r: Option<String>)
    ensures
        r matches Some(s) ==> given_id(fields_view(fs@)) == Some(s@),
        r is None ==> given_id(fields_view(fs@)) is None,
{
    match field_index(fs, "id") {
        Some(i) => match &fs[i].1 {
            Json::Str(s) => {
                if s.as_str().unicode_len() > 0 {
                    Some(s.clone())
                } else {
                    None
                }
            },
            _ => None,
        },
        None => None,
    }
}

fn migrate_clip_exec(c: &Json, tid: &str, ci: usize) -> (r: Json)
    requires
        ci < usize::MAX,
    ensures
        r@ == migrate_clip(c@, tid@, ci as nat),
{
    let cc = json_copy(c);
    match cc {
        Json::Obj(fs) => {
            let mut id = tid.to_string();
            id.append("-");
            let n: usize = ci + 1;
            push_dec_pad(&mut id, n as u64, 3);
            proof {
                reveal_strlit("-");
            }
            assert(id@ == default_clip_id(tid@, ci as nat));
            Json::Obj(add_default_exec(fs, "id", Json::Str(id)))
        },
        other => other,
    }
}

fn migrate_clips_exec(cs: &Vec<Json>, tid: &str) -> (r: Vec<Json>)
    ensures
        arr_view(r@) == migrate_clips(arr_view(cs@), tid@),
{
    let mut out: Vec<Json> = Vec::new();
    let mut i: usize = 0;
    while i < cs.len()
        invariant
            i <= cs.len(),
            out.len() == i,
            forall|q: int| 0 <= q < i ==> (#[trigger] out@[q])@ == migrate_clip(cs@[q]@, tid@, q as nat),
        decreases cs.len() - i,
    {
        out.push(migrate_clip_exec(&cs[i], tid, i));
        i += 1;
    }
    assert(arr_view(out@) =~= migrate_clips(arr_view(cs@), tid@));
    out
}

/// Replaces the array under `k` by the result of `f`-like processing done
/// by the caller: here, the entry at `j` is swapped for `items`.
fn put_array(fs: Vec<(String, Json)>, j: usize, items: Vec<Json>) -> (r: Vec<(String, Json)>)
    requires
        j < fs.len(),
    ensures
        fields_view(r@) == fields_view(fs@).update(j as int, (fs@[j as int].0@, JVal::Arr(arr_view(items@)))),
{
    let ghost before = fields_view(fs@);
    let mut fs = fs;
    let (k, _old) = fs.remove(j);
    let ghost kv = k@;
    fs.insert(j, (k, Json::Arr(items)));
    assert(fields_view(fs@) =~= before.update(j as int, (kv, JVal::Arr(arr_view(items@)))));
    fs
}

proof fn lemma_insert_pos_range(fs: Seq<(Seq<char>, JVal)>, k: Seq<char>, i: int)
    requires
        0 <= i,
    ensures
        0 <= insert_pos(fs, k, i) <= fs.len(),
    decreases fs.len() - i,
{
    if i < fs.len() && crate::json::seq_lt(fs[i].0, k) {
        lemma_insert_pos_range(fs, k, i + 1);
    }
}

/// Setting one field leaves what every other key looks up unchanged.
proof fn lemma_obj_insert_lookup(fs: Seq<(Seq<char>, JVal)>, k: Seq<char>, v: JVal, k2: Seq<char>)
    requires
        k != k2,
    ensures
        lookup(obj_insert(fs, k, v), k2) == lookup(fs, k2),
{
    let u = obj_insert(fs, k, v);
    lemma_find_from(fs, k, 0);
    lemma_find_from(fs, k2, 0);
    lemma_insert_pos_range(fs, k, 0);
    let p = insert_pos(fs, k, 0);
    match find_key(fs, k2) {
        Some(j) => {
            match find_key(fs, k) {
                Some(i) => {
                    assert(u == fs.update(i, (k, v)));
                    assert forall|m: int| 0 <= m < j implies u[m].0 != k2 by {
                        if m != i {
                            assert(u[m] == fs[m]);
                        }
                    }
                    lemma_find_first(u, k2, j, 0);
                },
                None => {
                    assert(u == fs.insert(p, (k, v)));
                    if j < p {
                        assert forall|m: int| 0 <= m < j implies u[m].0 != k2 by {
                            assert(u[m] == fs[m]);
                        }
                        assert(u[j] == fs[j]);
                        lemma_find_first(u, k2, j, 0);
                    } else {
                        assert(u[j + 1] == fs[j]);
                        assert forall|m: int| 0 <= m < j + 1 implies u[m].0 != k2 by {
                            if m < p {
                                assert(u[m] == fs[m]);
                            } else if m > p {
                                assert(u[m] == fs[m - 1]);
                            }
                        }
                        lemma_find_first(u, k2, j + 1, 0);
                    }
                },
            }
        },
        None => {
            assert forall|m: int| 0 <= m < u.len() implies u[m].0 != k2 by {
                match find_key(fs, k) {
                    Some(i) => {
                        if m != i {
                            assert(u[m] == fs[m]);
                        }
                    },
                    None => {
                        if m < p {
                            assert(u[m] == fs[m]);
                        } else if m > p {
                            assert(u[m] == fs[m - 1]);
                        }
                    },
                }
            }
            lemma_find_none(u, k2, 0);
        },
    }
}

proof fn lemma_add_default_lookup(fs: Seq<(Seq<char>, JVal)>, k: Seq<char>, v: JVal, k2: Seq<char>)
    requires
        k != k2,
    ensures
        lookup(add_default(fs, k, v), k2) == lookup(fs, k2),
{
    if find_key(fs, k) is None {
        lemma_obj_insert_lookup(fs, k, v, k2);
    }
}

/// `put_array` at the position of `k` realises `with_array`.
proof fn lemma_with_array(fs: Seq<(Seq<char>, JVal)>, k: Seq<char>, j: int, items: Seq<JVal>)
    requires
        find_key(fs, k) == Some(j),
    ensures
        with_array(fs, k, items) == fs.update(j, (fs[j].0, JVal::Arr(items))),
{
    lemma_find_from(fs, k, 0);
}

fn migrate_track_exec(t: &Json, ti: usize) -> (r: Json)
    requires
        track_ok(t@),
        ti < usize::MAX,
    ensures
        r@ == migrate_track(t@, ti as nat),
{
    let cc = json_copy(t);
    match cc {
        Json::Obj(fs) => {
            let ghost fv = fields_view(fs@);
            let given = given_id_exec(&fs);
            let (tid, fs1) = match given {
                Some(s) => (s, fs),
                None => {
                    let kind = str_field_exec(&fs, "kind");
                    let mut s = String::new();
                    s.append(letter(kind.as_str()));
                    let n: usize = ti + 1;
                    push_dec(&mut s, n as u64);
                    let f1 = obj_insert_exec(fs, "id", Json::Str(s.clone()));
                    (s, f1)
                },
            };
            assert(tid@ == track_tid(fv, ti as nat));
            let ghost f1v = fields_view(fs1@);
            proof {
                reveal_strlit("id");
                reveal_strlit("clips");
                assert("id"@.len() == 2);
                assert("clips"@.len() == 5);
                assert("id"@ != "clips"@);
                if given_id(fv) is None {
                    lemma_obj_insert_lookup(fv, "id"@, JVal::Str(tid@), "clips"@);
                }
            }
            assert(lookup(f1v, "clips"@) == lookup(fv, "clips"@));
            match field_index(&fs1, "clips") {
                Some(j) => {
                    let items = match &fs1[j].1 {
                        Json::Arr(cs) => Some(migrate_clips_exec(cs, tid.as_str())),
                        _ => None,
                    };
                    match items {
                        Some(v) => {
                            proof {
                                lemma_with_array(f1v, "clips"@, j as int, arr_view(v@));
                            }
                            Json::Obj(put_array(fs1, j, v))
                        },
                        None => Json::Obj(fs1),
                    }
                },
                None => Json::Obj(fs1),
            }
        },
        other => other,
    }
}

fn migrate_tracks_exec(ts: &Vec<Json>) -> (r: Vec<Json>)
    requires
        forall|i: int| 0 <= i < ts.len() ==> track_ok(#[trigger] ts@[i]@),
    ensures
        arr_view(r@) == migrate_tracks(arr_view(ts@)),
{
    let mut out: Vec<Json> = Vec::new();
    let mut i: usize = 0;
    while i < ts.len()
        invariant
            i <= ts.len(),
            out.len() == i,
            forall|q: int| 0 <= q < ts.len() ==> track_ok(#[trigger] ts@[q]@),
            forall|q: int| 0 <= q < i ==> (#[trigger] out@[q])@ == migrate_track(ts@[q]@, q as nat),
        decreases ts.len() - i,
    {
        out.push(migrate_track_exec(&ts[i], i));
        i += 1;
    }
    assert(arr_view(out@) =~= migrate_tracks(arr_view(ts@)));
    out
}

/// Upgrades a project document to the second layout: adds
/// `schemaVersion` "2.0.0", `backends` ["ffmpeg"] and `notes` "notes.json"
/// where absent, gives each track without a non-empty id the letter of
/// its kind and its 1-based position ("V1"), and each clip without an id
/// the track id, a dash and its 1-based position in three digits
/// ("V1-001"). Everything else is kept as it is.
pub fn migrate_project_v1_to_v2(doc: &Json) -> (r: Json)
    requires
        migratable(doc@),
    ensures
        r@ == migrate_spec(doc@),
{
    let cc = json_copy(doc);
    match cc {
        Json::Obj(fs) => {
            let ghost fv = fields_view(fs@);
            let mut backends: Vec<Json> = Vec::new();
            backends.push(Json::Str("ffmpeg".to_string()));
            proof {
                reveal_strlit("ffmpeg");
            }
            assert(arr_view(backends@) =~= seq![JVal::Str("ffmpeg"@)]);
            let fs1 = add_default_exec(fs, "schemaVersion", Json::Str("2.0.0".to_string()));
            let fs2 = add_default_exec(fs1, "backends", Json::Arr(backends));
            let fs3 = add_default_exec(fs2, "notes", Json::Str("notes.json".to_string()));
            let ghost f1v = add_default(fv, "schemaVersion"@, JVal::Str("2.0.0"@));
            let ghost f2v = add_default(f1v, "backends"@, JVal::Arr(seq![JVal::Str("ffmpeg"@)]));
            let ghost f3v = fields_view(fs3@);
            proof {
                reveal_strlit("tracks");
                reveal_strlit("schemaVersion");
                reveal_strlit("backends");
                reveal_strlit("notes");
                assert("tracks"@.len() == 6);
                assert("schemaVersion"@.len() == 13);
                assert("backends"@.len() == 8);
                assert("notes"@.len() == 5);
                assert("tracks"@[0] == 't');
                assert("notes"@[0] == 'n');
                assert("schemaVersion"@ != "tracks"@);
                assert("backends"@ != "tracks"@);
                assert("notes"@ != "tracks"@);
                lemma_add_default_lookup(fv, "schemaVersion"@, JVal::Str("2.0.0"@), "tracks"@);
                lemma_add_default_lookup(f1v, "backends"@, JVal::Arr(seq![JVal::Str("ffmpeg"@)]), "tracks"@);
                lemma_add_default_lookup(f2v, "notes"@, JVal::Str("notes.json"@), "tracks"@);
            }
            assert(lookup(f3v, "tracks"@) == lookup(fv, "tracks"@));
            match field_index(&fs3, "tracks") {
                Some(j) => {
                    let items = match &fs3[j].1 {
                        Json::Arr(ts) => {
                            assert(array_at(fv, "tracks"@) == Some(arr_view(ts@)));
                            assert forall|i: int| 0 <= i < ts.len() implies track_ok(#[trigger] ts@[i]@) by {
                                assert(arr_view(ts@)[i] == ts@[i]@);
                            }
                            Some(migrate_tracks_exec(ts))
                        },
                        _ => None,
                    };
                    match items {
                        Some(v) => {
                            proof {
                                lemma_with_array(f3v, "tracks"@, j as int, arr_view(v@));
                            }
                            Json::Obj(put_array(fs3, j, v))
                        },
                        None => Json::Obj(fs3),
                    }
                },
                None => Json::Obj(fs3),
            }
        },
        other => other,
    }
}

pub(crate) proof fn lemma_insert_lookup_same(fs: Seq<(Seq<char>, JVal)>, k: Seq<char>, v: JVal)
    ensures
        lookup(obj_insert(fs, k, v), k) == Some(v),
        find_key(obj_insert(fs, k, v), k) is Some,
{
    let u = obj_insert(fs, k, v);
    lemma_find_from(fs, k, 0);
    lemma_insert_pos_range(fs, k, 0);
    match find_key(fs, k) {
        Some(i) => {
            assert forall|m: int| 0 <= m < i implies u[m].0 != k by {
                assert(u[m] == fs[m]);
            }
            lemma_find_first(u, k, i, 0);
        },
        None => {
            let p = insert_pos(fs, k, 0);
            assert forall|m: int| 0 <= m < p implies u[m].0 != k by {
                assert(u[m] == fs[m]);
            }
            lemma_find_first(u, k, p, 0);
        },
    }
}

/// Replacing the value of the field at `j` leaves the other keys' lookups,
/// and the position of its own key, unchanged.
proof fn lemma_update_lookup(fs: Seq<(Seq<char>, JVal)>, k: Seq<char>, j: int, x: JVal, k2: Seq<char>)
    requires
        find_key(fs, k) == Some(j),
    ensures
        k2 != k ==> lookup(fs.update(j, (k, x)), k2) == lookup(fs, k2),
        k2 != k ==> find_key(fs.update(j, (k, x)), k2) == find_key(fs, k2),
        find_key(fs.update(j, (k, x)), k) == Some(j),
        lookup(fs.update(j, (k, x)), k) == Some(x),
{
    let u = fs.update(j, (k, x));
    lemma_find_from(fs, k, 0);
    lemma_find_from(fs, k2, 0);
    assert forall|m: int| 0 <= m < j implies u[m].0 != k by {
        assert(u[m] == fs[m]);
    }
    lemma_find_first(u, k, j, 0);
    if k2 != k {
        match find_key(fs, k2) {
            Some(i) => {
                assert forall|m: int| 0 <= m < i implies u[m].0 != k2 by {
                    if m != j {
                        assert(u[m] == fs[m]);
                    }
                }
                assert(u[i] == fs[i]);
                lemma_find_first(u, k2, i, 0);
            },
            None => {
                assert forall|m: int| 0 <= m < u.len() implies u[m].0 != k2 by {
                    if m != j {
                        assert(u[m] == fs[m]);
                    }
                }
                lemma_find_none(u, k2, 0);
            },
        }
    }
}

proof fn lemma_clip_idempotent(c: JVal, tid: Seq<char>, ci: nat)
    requires
        c is Obj,
    ensures
        migrate_clip(migrate_clip(c, tid, ci), tid, ci) == migrate_clip(c, tid, ci),
{
    let fs = c->Obj_0;
    let x = JVal::Str(default_clip_id(tid, ci));
    if find_key(fs, "id"@) is None {
        lemma_insert_lookup_same(fs, "id"@, x);
    }
}

proof fn lemma_str_keys()
    ensures
        "id"@ != "clips"@,
        "tracks"@ != "schemaVersion"@,
        "tracks"@ != "backends"@,
        "tracks"@ != "notes"@,
        "schemaVersion"@ != "backends"@,
        "schemaVersion"@ != "notes"@,
        "backends"@ != "notes"@,
{
    reveal_strlit("id");
    reveal_strlit("clips");
    reveal_strlit("tracks");
    reveal_strlit("schemaVersion");
    reveal_strlit("backends");
    reveal_strlit("notes");
    assert("id"@.len() == 2);
    assert("clips"@.len() == 5);
    assert("tracks"@.len() == 6);
    assert("schemaVersion"@.len() == 13);
    assert("backends"@.len() == 8);
    assert("notes"@.len() == 5);
    assert("clips"@[0] == 'c');
    assert("notes"@[0] == 'n');
}

proof fn lemma_track_idempotent(t: JVal, ti: nat)
    requires
        track_ok(t),
    ensures
        migrate_track(migrate_track(t, ti), ti) == migrate_track(t, ti),
{
    lemma_str_keys();
    let fs = t->Obj_0;
    let tid = track_tid(fs, ti);
    let fs1 = if given_id(fs) is Some {
        fs
    } else {
        obj_insert(fs, "id"@, JVal::Str(tid))
    };
    if given_id(fs) is None {
        lemma_insert_lookup_same(fs, "id"@, JVal::Str(tid));
        lemma_obj_insert_lookup(fs, "id"@, JVal::Str(tid), "clips"@);
        assert(tid.len() > 0);
    }
    assert(lookup(fs1, "id"@) == Some(JVal::Str(tid)));
    assert(lookup(fs1, "clips"@) == lookup(fs, "clips"@));
    match array_at(fs1, "clips"@) {
        Some(cs) => {
            let mc = migrate_clips(cs, tid);
            let j = find_key(fs1, "clips"@)->0;
            lemma_find_from(fs1, "clips"@, 0);
            let fs2 = fs1.update(j, ("clips"@, JVal::Arr(mc)));
            assert(with_array(fs1, "clips"@, mc) == fs2);
            lemma_update_lookup(fs1, "clips"@, j, JVal::Arr(mc), "id"@);
            assert(given_id(fs2) == Some(tid));
            assert(track_tid(fs2, ti) == tid);
            assert(array_at(fs2, "clips"@) == Some(mc));
            assert forall|i: int| 0 <= i < mc.len() implies #[trigger] migrate_clip(mc[i], tid, i as nat) == mc[i] by {
                lemma_clip_idempotent(cs[i], tid, i as nat);
            }
            assert(migrate_clips(mc, tid) =~= mc);
            let fs3 = fs2.update(j, ("clips"@, JVal::Arr(mc)));
            assert(fs3 =~= fs2);
        },
        None => {
            assert(given_id(fs1) == Some(tid));
        },
    }
}

/// Upgrading an upgraded document changes nothing.
pub proof fn law_migrate_idempotent(doc: JVal)
    requires
        migratable(doc),
    ensures
        migratable(migrate_spec(doc)),
        migrate_spec(migrate_spec(doc)) == migrate_spec(doc),
{
    lemma_str_keys();
    let fs = doc->Obj_0;
    let sv = JVal::Str("2.0.0"@);
    let bv = JVal::Arr(seq![JVal::Str("ffmpeg"@)]);
    let nv = JVal::Str("notes.json"@);
    let f1 = add_default(fs, "schemaVersion"@, sv);
    let f2 = add_default(f1, "backends"@, bv);
    let f3 = add_default(f2, "notes"@, nv);
    // each default is present afterwards, and the others are undisturbed
    if find_key(fs, "schemaVersion"@) is None {
        lemma_insert_lookup_same(fs, "schemaVersion"@, sv);
    }
    lemma_add_default_lookup(fs, "schemaVersion"@, sv, "tracks"@);
    if find_key(f1, "backends"@) is None {
        lemma_insert_lookup_same(f1, "backends"@, bv);
    }
    lemma_add_default_lookup(f1, "backends"@, bv, "schemaVersion"@);
    lemma_add_default_lookup(f1, "backends"@, bv, "tracks"@);
    if find_key(f2, "notes"@) is None {
        lemma_insert_lookup_same(f2, "notes"@, nv);
    }
    lemma_add_default_lookup(f2, "notes"@, nv, "schemaVersion"@);
    lemma_add_default_lookup(f2, "notes"@, nv, "backends"@);
    lemma_add_default_lookup(f2, "notes"@, nv, "tracks"@);
    assert(lookup(f3, "schemaVersion"@) is Some);
    assert(lookup(f3, "backends"@) is Some);
    assert(lookup(f3, "notes"@) is Some);
    assert(lookup(f3, "tracks"@) == lookup(fs, "tracks"@));
    match array_at(f3, "tracks"@) {
        Some(ts) => {
            let mt = migrate_tracks(ts);
            let j = find_key(f3, "tracks"@)->0;
            lemma_find_from(f3, "tracks"@, 0);
            let g = f3.update(j, ("tracks"@, JVal::Arr(mt)));
            assert(with_array(f3, "tracks"@, mt) == g);
            lemma_update_lookup(f3, "tracks"@, j, JVal::Arr(mt), "schemaVersion"@);
            lemma_update_lookup(f3, "tracks"@, j, JVal::Arr(mt), "backends"@);
            lemma_update_lookup(f3, "tracks"@, j, JVal::Arr(mt), "notes"@);
            assert(add_default(g, "schemaVersion"@, sv) == g);
            assert(add_default(g, "backends"@, bv) == g);
            assert(add_default(g, "notes"@, nv) == g);
            assert(array_at(g, "tracks"@) == Some(mt));
            assert forall|i: int| 0 <= i < mt.len() implies track_ok(#[trigger] mt[i]) by {
                lemma_track_idempotent(ts[i], i as nat);
                track_ok_after(ts[i], i as nat);
            }
            assert forall|i: int| 0 <= i < mt.len() implies #[trigger] migrate_track(mt[i], i as nat) == mt[i] by {
                lemma_track_idempotent(ts[i], i as nat);
            }
            assert(migrate_tracks(mt) =~= mt);
            let g2 = g.update(j, ("tracks"@, JVal::Arr(mt)));
            assert(g2 =~= g);
        },
        None => {
            assert(add_default(f3, "schemaVersion"@, sv) == f3);
            assert(add_default(f3, "backends"@, bv) == f3);
            assert(add_default(f3, "notes"@, nv) == f3);
        },
    }
}

/// An upgraded acceptable track is still acceptable.
proof fn track_ok_after(t: JVal, ti: nat)
    requires
        track_ok(t),
    ensures
        track_ok(migrate_track(t, ti)),
{
    lemma_str_keys();
    let fs = t->Obj_0;
    let tid = track_tid(fs, ti);
    let fs1 = if given_id(fs) is Some {
        fs
    } else {
        obj_insert(fs, "id"@, JVal::Str(tid))
    };
    if given_id(fs) is None {
        lemma_obj_insert_lookup(fs, "id"@, JVal::Str(tid), "clips"@);
    }
    match array_at(fs1, "clips"@) {
        Some(cs) => {
            let mc = migrate_clips(cs, tid);
            let j = find_key(fs1, "clips"@)->0;
            lemma_find_from(fs1, "clips"@, 0);
            lemma_update_lookup(fs1, "clips"@, j, JVal::Arr(mc), "id"@);
            let fs2 = fs1.update(j, ("clips"@, JVal::Arr(mc)));
            assert(with_array(fs1, "clips"@, mc) == fs2);
            assert(array_at(fs2, "clips"@) == Some(mc));
            assert forall|i: int| 0 <= i < mc.len() implies (#[trigger] mc[i]) is Obj by {
                assert(cs[i] is Obj);
            }
        },
        None => {},
    }
}


fn all_objects(items: &Vec<Json>) -> (r: bool)
    ensures
        r == forall|i: int| 0 <= i < arr_view(items@).len() ==> (#[trigger] arr_view(items@)[i]) is Obj,
{
    let ghost iv = arr_view(items@);
    let mut i: usize = 0;
    while i < items.len()
        invariant
            i <= items.len(),
            iv == arr_view(items@),
            iv.len() == items.len(),
            forall|j: int| 0 <= j < i ==> (#[trigger] iv[j]) is Obj,
        decreases items.len() - i,
    {
        assert(iv[i as int] == items@[i as int]@);
        match &items[i] {
            Json::Obj(_) => {},
            _ => return false,
        }
        i += 1;
    }
    true
}

fn track_acceptable(t: &Json) -> (r: bool)
    ensures
        r == track_ok(t@),
{
    match t {
        Json::Obj(fs) => {
            proof {
                crate::json::lemma_fields_view(*fs);
            }
            match crate::codec::get_field(fs, "clips") {
                Some(Json::Arr(cs)) => {
                    proof {
                        crate::json::lemma_arr_view(*cs);
                    }
                    all_objects(cs)
                },
                _ => true,
            }
        },
        _ => false,
    }
}

/// Whether the upgrade accepts the document: an object whose tracks, where
/// it holds an array of them, are objects whose clips, where they hold an
/// array, are objects.
pub fn is_migratable(doc: &Json) -> (r: bool)
    ensures
        r == migratable(doc@),
{
    match doc {
        Json::Obj(fs) => {
            proof {
                crate::json::lemma_fields_view(*fs);
            }
            match crate::codec::get_field(fs, "tracks") {
                Some(Json::Arr(ts)) => {
                    proof {
                        crate::json::lemma_arr_view(*ts);
                    }
                    let ghost tv = arr_view(ts@);
                    assert(array_at(fields_view(fs@), "tracks"@) == Some(tv));
                    let mut i: usize = 0;
                    while i < ts.len()
                        invariant
                            i <= ts.len(),
                            tv == arr_view(ts@),
                            array_at(fields_view(fs@), "tracks"@) == Some(tv),
                            doc@ == JVal::Obj(fields_view(fs@)),
                            tv.len() == ts.len(),
                            forall|j: int| 0 <= j < i ==> track_ok(#[trigger] tv[j]),
                        decreases ts.len() - i,
                    {
                        assert(tv[i as int] == ts@[i as int]@);
                        if !track_acceptable(&ts[i]) {
                            assert(!track_ok(tv[i as int]));
                            proof {
                                if migratable(doc@) {
                                    let d = doc@;
                                    assert(array_at(d->Obj_0, "tracks"@) == Some(tv));
                                    let ts2 = array_at(d->Obj_0, "tracks"@)->Some_0;
                                    assert(ts2 == tv);
                                    assert(forall|j: int| 0 <= j < ts2.len() ==> track_ok(#[trigger] ts2[j]));
                                    assert(track_ok(ts2[i as int]));
                                }
                            }
                            return false;
                        }
                        i += 1;
                    }
                    true
                },
                _ => true,
            }
        },
        _ => false,
    }
}

} // verus!
