//! The document form of the model: how a project, a track and a clip are
//! written as JSON values, and read back. Fields that hold no value are left
//! out; keys appear in code-point order, as the document writer sorts them.

use vstd::prelude::*;
use crate::json::{Json, JNum, JVal, NumV, find_key, find_from, lemma_find_from, fields_view, arr_view};
use crate::model::{Clip, ClipV, Track, TrackV, Project, ProjectV, Role, TrackKind, Backend, Ratio, Canvas, Marker, MarkerV, Subtitle, SubtitleV, kind_name, clips_view, tracks_view, markers_view, opt_str, opt_num, opt_json};

verus! {

pub open spec fn lookup(fs: Seq<(Seq<char>, JVal)>, k: Seq<char>) -> Option<JVal> {
    match find_key(fs, k) {
        Some(i) => Some(fs[i].1),
        None => None,
    }
}

pub open spec fn opt_field(k: Seq<char>, v: Option<JVal>) -> Seq<(Seq<char>, JVal)> {
    match v {
        Some(x) => seq![(k, x)],
        None => Seq::empty(),
    }
}

pub open spec fn num_u(n: u64) -> JVal {
    JVal::Num(NumV::PosInt(n))
}

pub open spec fn opt_u64_j(o: Option<u64>) -> Option<JVal> {
    match o {
        Some(n) => Some(num_u(n)),
        None => None,
    }
}

pub open spec fn opt_str_j(o: Option<Seq<char>>) -> Option<JVal> {
    match o {
        Some(s) => Some(JVal::Str(s)),
        None => None,
    }
}

pub open spec fn opt_num_j(o: Option<NumV>) -> Option<JVal> {
    match o {
        Some(n) => Some(JVal::Num(n)),
        None => None,
    }
}

pub open spec fn opt_bool_j(o: Option<bool>) -> Option<JVal> {
    match o {
        Some(b) => Some(JVal::Bool(b)),
        None => None,
    }
}

pub open spec fn role_name(r: Role) -> Seq<char> {
    match r {
        Role::Voice => "voice"@,
        Role::Sfx => "sfx"@,
        Role::Music => "music"@,
        Role::Ambient => "ambient"@,
    }
}

pub open spec fn opt_role_j(o: Option<Role>) -> Option<JVal> {
    match o {
        Some(r) => Some(JVal::Str(role_name(r))),
        None => None,
    }
}

/// A field list written from (key, optional value) entries: entries
/// without a value are left out.
pub open spec fn fields_of(e: Seq<(Seq<char>, Option<JVal>)>) -> Seq<(Seq<char>, JVal)>
    decreases e.len(),
{
    if e.len() == 0 {
        Seq::empty()
    } else {
        fields_of(e.drop_last()) + opt_field(e.last().0, e.last().1)
    }
}

pub open spec fn keys_distinct(e: Seq<(Seq<char>, Option<JVal>)>) -> bool {
    forall|i: int, j: int| 0 <= i < j < e.len() ==> #[trigger] e[i].0 != #[trigger] e[j].0
}

/// The keys of a clip's document form, in key order.
pub open spec fn clip_key(i: int) -> Seq<char> {
    if i == 0 {
        "durationMs"@
    } else if i == 1 {
        "fade"@
    } else if i == 2 {
        "freezeMs"@
    } else if i == 3 {
        "id"@
    } else if i == 4 {
        "loop"@
    } else if i == 5 {
        "motion"@
    } else if i == 6 {
        "opacity"@
    } else if i == 7 {
        "overlay"@
    } else if i == 8 {
        "position"@
    } else if i == 9 {
        "punchIn"@
    } else if i == 10 {
        "reframe"@
    } else if i == 11 {
        "role"@
    } else if i == 12 {
        "scale"@
    } else if i == 13 {
        "sourceHash"@
    } else if i == 14 {
        "sourceInMs"@
    } else if i == 15 {
        "speed"@
    } else if i == 16 {
        "src"@
    } else if i == 17 {
        "startMs"@
    } else if i == 18 {
        "text"@
    } else if i == 19 {
        "transition"@
    } else {
        "volume"@
    }
}

/// The value written under `clip_key(i)`.
pub open spec fn clip_val(c: ClipV, i: int) -> Option<JVal> {
    if i == 0 {
        Some(num_u(c.duration_ms))
    } else if i == 1 {
        c.fade
    } else if i == 2 {
        opt_u64_j(c.freeze_ms)
    } else if i == 3 {
        Some(JVal::Str(c.id))
    } else if i == 4 {
        opt_bool_j(c.loop_)
    } else if i == 5 {
        c.motion
    } else if i == 6 {
        opt_num_j(c.opacity)
    } else if i == 7 {
        c.overlay
    } else if i == 8 {
        c.position
    } else if i == 9 {
        c.punch_in
    } else if i == 10 {
        c.reframe
    } else if i == 11 {
        opt_role_j(c.role)
    } else if i == 12 {
        opt_num_j(c.scale)
    } else if i == 13 {
        opt_str_j(c.source_hash)
    } else if i == 14 {
        opt_u64_j(c.source_in_ms)
    } else if i == 15 {
        opt_num_j(c.speed)
    } else if i == 16 {
        opt_str_j(c.src)
    } else if i == 17 {
        Some(num_u(c.start_ms))
    } else if i == 18 {
        opt_str_j(c.text)
    } else if i == 19 {
        c.transition
    } else {
        opt_num_j(c.volume)
    }
}

/// The entries of a clip's document form, in key order.
pub open spec fn clip_entries(c: ClipV) -> Seq<(Seq<char>, Option<JVal>)> {
    Seq::new(21, |i: int| (clip_key(i), clip_val(c, i)))
}

/// The fields of a clip's document form, in key order.
pub open spec fn clip_fields(c: ClipV) -> Seq<(Seq<char>, JVal)> {
    fields_of(clip_entries(c))
}

pub open spec fn clip_json(c: ClipV) -> JVal {
    JVal::Obj(clip_fields(c))
}

// ---- reading ----

pub open spec fn req_u64(fs: Seq<(Seq<char>, JVal)>, k: Seq<char>) -> Option<u64> {
    match lookup(fs, k) {
        Some(JVal::Num(NumV::PosInt(n))) => Some(n),
        _ => None,
    }
}

pub open spec fn req_str(fs: Seq<(Seq<char>, JVal)>, k: Seq<char>) -> Option<Seq<char>> {
    match lookup(fs, k) {
        Some(JVal::Str(s)) => Some(s),
        _ => None,
    }
}

/// An optional field: outer `None` is a type error, `Some(None)` is absent
/// or null.
pub open spec fn get_u64(fs: Seq<(Seq<char>, JVal)>, k: Seq<char>) -> Option<Option<u64>> {
    match lookup(fs, k) {
        None => Some(None),
        Some(JVal::Null) => Some(None),
        Some(JVal::Num(NumV::PosInt(n))) => Some(Some(n)),
        _ => None,
    }
}

pub open spec fn get_str(fs: Seq<(Seq<char>, JVal)>, k: Seq<char>) -> Option<Option<Seq<char>>> {
    match lookup(fs, k) {
        None => Some(None),
        Some(JVal::Null) => Some(None),
        Some(JVal::Str(s)) => Some(Some(s)),
        _ => None,
    }
}

pub open spec fn get_num(fs: Seq<(Seq<char>, JVal)>, k: Seq<char>) -> Option<Option<NumV>> {
    match lookup(fs, k) {
        None => Some(None),
        Some(JVal::Null) => Some(None),
        Some(JVal::Num(n)) => Some(Some(n)),
        _ => None,
    }
}

pub open spec fn get_bool(fs: Seq<(Seq<char>, JVal)>, k: Seq<char>) -> Option<Option<bool>> {
    match lookup(fs, k) {
        None => Some(None),
        Some(JVal::Null) => Some(None),
        Some(JVal::Bool(b)) => Some(Some(b)),
        _ => None,
    }
}

pub open spec fn get_obj(fs: Seq<(Seq<char>, JVal)>, k: Seq<char>) -> Option<Option<JVal>> {
    match lookup(fs, k) {
        None => Some(None),
        Some(JVal::Null) => Some(None),
        Some(JVal::Obj(o)) => Some(Some(JVal::Obj(o))),
        _ => None,
    }
}

pub open spec fn is_obj_opt(o: Option<JVal>) -> bool {
    o matches Some(v) ==> v is Obj
}

/// A clip whose nested presentation values are objects, as the document
/// form requires.
pub open spec fn clip_wf(c: ClipV) -> bool {
    &&& is_obj_opt(c.position)
    &&& is_obj_opt(c.reframe)
    &&& is_obj_opt(c.motion)
    &&& is_obj_opt(c.transition)
    &&& is_obj_opt(c.overlay)
    &&& is_obj_opt(c.fade)
    &&& is_obj_opt(c.punch_in)
}

pub open spec fn role_of(s: Seq<char>) -> Option<Role> {
    if s == "voice"@ {
        Some(Role::Voice)
    } else if s == "sfx"@ {
        Some(Role::Sfx)
    } else if s == "music"@ {
        Some(Role::Music)
    } else if s == "ambient"@ {
        Some(Role::Ambient)
    } else {
        None
    }
}

pub open spec fn get_role(fs: Seq<(Seq<char>, JVal)>, k: Seq<char>) -> Option<Option<Role>> {
    match lookup(fs, k) {
        None => Some(None),
        Some(JVal::Null) => Some(None),
        Some(JVal::Str(s)) => match role_of(s) {
            Some(r) => Some(Some(r)),
            None => None,
        },
        _ => None,
    }
}

/// Reads a clip from its document form; `None` where a required field is
/// missing or a field has the wrong type. Unknown keys are ignored.
pub open spec fn clip_from_json(j: JVal) -> Option<ClipV> {
    match j {
        JVal::Obj(fs) => {
            if req_str(fs, "id"@) is Some && req_u64(fs, "startMs"@) is Some && req_u64(fs, "durationMs"@) is Some
                && get_str(fs, "sourceHash"@) is Some && get_str(fs, "src"@) is Some && get_u64(fs, "sourceInMs"@) is Some
                && get_num(fs, "speed"@) is Some && get_num(fs, "volume"@) is Some && get_role(fs, "role"@) is Some
                && get_str(fs, "text"@) is Some && get_obj(fs, "position"@) is Some && get_num(fs, "scale"@) is Some
                && get_obj(fs, "reframe"@) is Some && get_obj(fs, "motion"@) is Some && get_obj(fs, "transition"@) is Some
                && get_obj(fs, "overlay"@) is Some && get_num(fs, "opacity"@) is Some && get_obj(fs, "fade"@) is Some
                && get_bool(fs, "loop"@) is Some && get_obj(fs, "punchIn"@) is Some && get_u64(fs, "freezeMs"@) is Some {
                Some(ClipV {
                    id: req_str(fs, "id"@)->0,
                    source_hash: get_str(fs, "sourceHash"@)->0,
                    src: get_str(fs, "src"@)->0,
                    start_ms: req_u64(fs, "startMs"@)->0,
                    duration_ms: req_u64(fs, "durationMs"@)->0,
                    source_in_ms: get_u64(fs, "sourceInMs"@)->0,
                    speed: get_num(fs, "speed"@)->0,
                    volume: get_num(fs, "volume"@)->0,
                    role: get_role(fs, "role"@)->0,
                    text: get_str(fs, "text"@)->0,
                    position: get_obj(fs, "position"@)->0,
                    scale: get_num(fs, "scale"@)->0,
                    reframe: get_obj(fs, "reframe"@)->0,
                    motion: get_obj(fs, "motion"@)->0,
                    transition: get_obj(fs, "transition"@)->0,
                    overlay: get_obj(fs, "overlay"@)->0,
                    opacity: get_num(fs, "opacity"@)->0,
                    fade: get_obj(fs, "fade"@)->0,
                    loop_: get_bool(fs, "loop"@)->0,
                    punch_in: get_obj(fs, "punchIn"@)->0,
                    freeze_ms: get_u64(fs, "freezeMs"@)->0,
                })
            } else {
                None
            }
        },
        _ => None,
    }
}

pub proof fn lemma_find_from_concat(a: Seq<(Seq<char>, JVal)>, b: Seq<(Seq<char>, JVal)>, k: Seq<char>, i: int)
    requires
        0 <= i <= a.len(),
    ensures
        find_from(a + b, k, i) == match find_from(a, k, i) {
            Some(j) => Some(j),
            None => match find_from(b, k, 0) {
                Some(j) => Some(j + a.len()),
                None => None,
            },
        },
    decreases a.len() - i,
{
    if i < a.len() {
        if a[i].0 != k {
            lemma_find_from_concat(a, b, k, i + 1);
        }
    } else {
        lemma_find_from_shift(a, b, k, 0);
    }
}

proof fn lemma_find_from_shift(a: Seq<(Seq<char>, JVal)>, b: Seq<(Seq<char>, JVal)>, k: Seq<char>, j: int)
    requires
        0 <= j <= b.len(),
    ensures
        find_from(a + b, k, a.len() + j) == match find_from(b, k, j) {
            Some(x) => Some(x + a.len()),
            None => None,
        },
    decreases b.len() - j,
{
    if j < b.len() {
        assert((a + b)[a.len() + j] == b[j]);
        if b[j].0 != k {
            lemma_find_from_shift(a, b, k, j + 1);
        }
    }
}

/// Looking a key up in two field lists put end to end.
pub proof fn lemma_lookup_concat(a: Seq<(Seq<char>, JVal)>, b: Seq<(Seq<char>, JVal)>, k: Seq<char>)
    ensures
        lookup(a + b, k) == match lookup(a, k) {
            Some(v) => Some(v),
            None => lookup(b, k),
        },
{
    lemma_find_from_concat(a, b, k, 0);
    lemma_find_from(a, k, 0);
    lemma_find_from(b, k, 0);
    if let Some(j) = find_from(a, k, 0) {
        assert((a + b)[j] == a[j]);
    }
    if find_from(a, k, 0) is None {
        if let Some(j) = find_from(b, k, 0) {
            assert((a + b)[j + a.len()] == b[j]);
        }
    }
}

pub proof fn lemma_lookup_opt_field(k1: Seq<char>, v: Option<JVal>, k: Seq<char>)
    ensures
        lookup(opt_field(k1, v), k) == (if k1 == k { v } else { None }),
{
    reveal_with_fuel(find_from, 2);
}

/// A key that no entry has is absent from the written fields.
pub proof fn lemma_lookup_fields_of_absent(e: Seq<(Seq<char>, Option<JVal>)>, k: Seq<char>)
    requires
        forall|i: int| 0 <= i < e.len() ==> #[trigger] e[i].0 != k,
    ensures
        lookup(fields_of(e), k) is None,
    decreases e.len(),
{
    if e.len() > 0 {
        let p = e.drop_last();
        assert forall|i: int| 0 <= i < p.len() implies #[trigger] p[i].0 != k by {
            assert(p[i] == e[i]);
        }
        lemma_lookup_fields_of_absent(p, k);
        lemma_lookup_concat(fields_of(p), opt_field(e.last().0, e.last().1), k);
        lemma_lookup_opt_field(e.last().0, e.last().1, k);
    } else {
        assert(find_from(Seq::<(Seq<char>, JVal)>::empty(), k, 0) is None);
    }
}

/// Each entry's key reads back its value from the written fields.
pub proof fn lemma_lookup_fields_of(e: Seq<(Seq<char>, Option<JVal>)>, i: int)
    requires
        keys_distinct(e),
        0 <= i < e.len(),
    ensures
        lookup(fields_of(e), e[i].0) == e[i].1,
    decreases e.len(),
{
    let p = e.drop_last();
    let k = e[i].0;
    lemma_lookup_concat(fields_of(p), opt_field(e.last().0, e.last().1), k);
    lemma_lookup_opt_field(e.last().0, e.last().1, k);
    assert forall|a: int, b: int| 0 <= a < b < p.len() implies #[trigger] p[a].0 != #[trigger] p[b].0 by {
        assert(p[a] == e[a] && p[b] == e[b]);
    }
    if i < e.len() - 1 {
        assert(p[i] == e[i]);
        lemma_lookup_fields_of(p, i);
        assert(e.last().0 != k);
    } else {
        assert forall|q: int| 0 <= q < p.len() implies #[trigger] p[q].0 != k by {
            assert(p[q] == e[q]);
        }
        lemma_lookup_fields_of_absent(p, k);
    }
}

/// Keys of the clip form are pairwise distinct.
pub proof fn lemma_clip_keys()
    ensures
        forall|i: int, j: int| 0 <= i < j < 21 ==> #[trigger] clip_key(i) != #[trigger] clip_key(j),
{
    reveal_strlit("durationMs");
    assert("durationMs"@.len() == 10 && "durationMs"@[0] == 'd' && "durationMs"@[1] == 'u');
    reveal_strlit("fade");
    assert("fade"@.len() == 4 && "fade"@[0] == 'f' && "fade"@[1] == 'a');
    reveal_strlit("freezeMs");
    assert("freezeMs"@.len() == 8 && "freezeMs"@[0] == 'f' && "freezeMs"@[1] == 'r');
    reveal_strlit("id");
    assert("id"@.len() == 2 && "id"@[0] == 'i' && "id"@[1] == 'd');
    reveal_strlit("loop");
    assert("loop"@.len() == 4 && "loop"@[0] == 'l' && "loop"@[1] == 'o');
    reveal_strlit("motion");
    assert("motion"@.len() == 6 && "motion"@[0] == 'm' && "motion"@[1] == 'o');
    reveal_strlit("opacity");
    assert("opacity"@.len() == 7 && "opacity"@[0] == 'o' && "opacity"@[1] == 'p');
    reveal_strlit("overlay");
    assert("overlay"@.len() == 7 && "overlay"@[0] == 'o' && "overlay"@[1] == 'v');
    reveal_strlit("position");
    assert("position"@.len() == 8 && "position"@[0] == 'p' && "position"@[1] == 'o');
    reveal_strlit("punchIn");
    assert("punchIn"@.len() == 7 && "punchIn"@[0] == 'p' && "punchIn"@[1] == 'u');
    reveal_strlit("reframe");
    assert("reframe"@.len() == 7 && "reframe"@[0] == 'r' && "reframe"@[1] == 'e');
    reveal_strlit("role");
    assert("role"@.len() == 4 && "role"@[0] == 'r' && "role"@[1] == 'o');
    reveal_strlit("scale");
    assert("scale"@.len() == 5 && "scale"@[0] == 's' && "scale"@[1] == 'c');
    reveal_strlit("sourceHash");
    assert("sourceHash"@.len() == 10 && "sourceHash"@[0] == 's' && "sourceHash"@[1] == 'o');
    reveal_strlit("sourceInMs");
    assert("sourceInMs"@.len() == 10 && "sourceInMs"@[0] == 's' && "sourceInMs"@[1] == 'o');
    reveal_strlit("speed");
    assert("speed"@.len() == 5 && "speed"@[0] == 's' && "speed"@[1] == 'p');
    reveal_strlit("src");
    assert("src"@.len() == 3 && "src"@[0] == 's' && "src"@[1] == 'r');
    reveal_strlit("startMs");
    assert("startMs"@.len() == 7 && "startMs"@[0] == 's' && "startMs"@[1] == 't');
    reveal_strlit("text");
    assert("text"@.len() == 4 && "text"@[0] == 't' && "text"@[1] == 'e');
    reveal_strlit("transition");
    assert("transition"@.len() == 10 && "transition"@[0] == 't' && "transition"@[1] == 'r');
    reveal_strlit("volume");
    assert("volume"@.len() == 6 && "volume"@[0] == 'v' && "volume"@[1] == 'o');
    assert("sourceHash"@[6] == 'H' && "sourceInMs"@[6] == 'I');
}

pub proof fn lemma_role_names()
    ensures
        forall|r: Role| #[trigger] role_of(role_name(r)) == Some(r),
{
    reveal_strlit("voice");
    reveal_strlit("sfx");
    reveal_strlit("music");
    reveal_strlit("ambient");
    assert("voice"@.len() == 5 && "voice"@[0] == 'v');
    assert("sfx"@.len() == 3);
    assert("music"@.len() == 5 && "music"@[0] == 'm');
    assert("ambient"@.len() == 7);
}

/// A clip read back from its document form is the clip written.
#[verifier::rlimit(40)]
pub proof fn lemma_clip_roundtrip(c: ClipV)
    requires
        clip_wf(c),
    ensures
        clip_from_json(clip_json(c)) == Some(c),
{
    let e = clip_entries(c);
    lemma_clip_keys();
    assert(keys_distinct(e));
    assert forall|i: int| 0 <= i < 21 implies lookup(clip_fields(c), #[trigger] clip_key(i)) == clip_val(c, i) by {
        lemma_lookup_fields_of(e, i);
    }
    assert(lookup(clip_fields(c), clip_key(0)) == clip_val(c, 0));
    assert(lookup(clip_fields(c), clip_key(1)) == clip_val(c, 1));
    assert(lookup(clip_fields(c), clip_key(2)) == clip_val(c, 2));
    assert(lookup(clip_fields(c), clip_key(3)) == clip_val(c, 3));
    assert(lookup(clip_fields(c), clip_key(4)) == clip_val(c, 4));
    assert(lookup(clip_fields(c), clip_key(5)) == clip_val(c, 5));
    assert(lookup(clip_fields(c), clip_key(6)) == clip_val(c, 6));
    assert(lookup(clip_fields(c), clip_key(7)) == clip_val(c, 7));
    assert(lookup(clip_fields(c), clip_key(8)) == clip_val(c, 8));
    assert(lookup(clip_fields(c), clip_key(9)) == clip_val(c, 9));
    assert(lookup(clip_fields(c), clip_key(10)) == clip_val(c, 10));
    assert(lookup(clip_fields(c), clip_key(11)) == clip_val(c, 11));
    assert(lookup(clip_fields(c), clip_key(12)) == clip_val(c, 12));
    assert(lookup(clip_fields(c), clip_key(13)) == clip_val(c, 13));
    assert(lookup(clip_fields(c), clip_key(14)) == clip_val(c, 14));
    assert(lookup(clip_fields(c), clip_key(15)) == clip_val(c, 15));
    assert(lookup(clip_fields(c), clip_key(16)) == clip_val(c, 16));
    assert(lookup(clip_fields(c), clip_key(17)) == clip_val(c, 17));
    assert(lookup(clip_fields(c), clip_key(18)) == clip_val(c, 18));
    assert(lookup(clip_fields(c), clip_key(19)) == clip_val(c, 19));
    assert(lookup(clip_fields(c), clip_key(20)) == clip_val(c, 20));
    lemma_role_names();
    let fs = clip_fields(c);
    assert(req_str(fs, "id"@) == Some(c.id));
    assert(req_u64(fs, "startMs"@) == Some(c.start_ms));
    assert(req_u64(fs, "durationMs"@) == Some(c.duration_ms));
    assert(get_str(fs, "sourceHash"@) == Some(c.source_hash));
    assert(get_str(fs, "src"@) == Some(c.src));
    assert(get_u64(fs, "sourceInMs"@) == Some(c.source_in_ms));
    assert(get_num(fs, "speed"@) == Some(c.speed));
    assert(get_num(fs, "volume"@) == Some(c.volume));
    assert(get_role(fs, "role"@) == Some(c.role));
    assert(get_str(fs, "text"@) == Some(c.text));
    assert(get_obj(fs, "position"@) == Some(c.position));
    assert(get_num(fs, "scale"@) == Some(c.scale));
    assert(get_obj(fs, "reframe"@) == Some(c.reframe));
    assert(get_obj(fs, "motion"@) == Some(c.motion));
    assert(get_obj(fs, "transition"@) == Some(c.transition));
    assert(get_obj(fs, "overlay"@) == Some(c.overlay));
    assert(get_num(fs, "opacity"@) == Some(c.opacity));
    assert(get_obj(fs, "fade"@) == Some(c.fade));
    assert(get_bool(fs, "loop"@) == Some(c.loop_));
    assert(get_obj(fs, "punchIn"@) == Some(c.punch_in));
    assert(get_u64(fs, "freezeMs"@) == Some(c.freeze_ms));
}

} // verus!
verus! {

pub open spec fn backend_name(b: Backend) -> Seq<char> {
    match b {
        Backend::Ffmpeg => "ffmpeg"@,
        Backend::Jianying => "jianying"@,
        Backend::Cutforge => "cutforge"@,
    }
}

pub open spec fn backend_of(s: Seq<char>) -> Option<Backend> {
    if s == "ffmpeg"@ {
        Some(Backend::Ffmpeg)
    } else if s == "jianying"@ {
        Some(Backend::Jianying)
    } else if s == "cutforge"@ {
        Some(Backend::Cutforge)
    } else {
        None
    }
}

pub open spec fn ratio_name(r: Ratio) -> Seq<char> {
    match r {
        Ratio::NineBySixteen => "9x16"@,
        Ratio::ThreeByFour => "3x4"@,
        Ratio::SixteenByNine => "16x9"@,
    }
}

pub open spec fn ratio_of(s: Seq<char>) -> Option<Ratio> {
    if s == "9x16"@ {
        Some(Ratio::NineBySixteen)
    } else if s == "3x4"@ {
        Some(Ratio::ThreeByFour)
    } else if s == "16x9"@ {
        Some(Ratio::SixteenByNine)
    } else {
        None
    }
}

pub open spec fn kind_of(s: Seq<char>) -> Option<TrackKind> {
    if s == "video"@ {
        Some(TrackKind::Video)
    } else if s == "audio"@ {
        Some(TrackKind::Audio)
    } else if s == "text"@ {
        Some(TrackKind::Text)
    } else {
        None
    }
}

pub proof fn lemma_enum_names()
    ensures
        forall|b: Backend| #[trigger] backend_of(backend_name(b)) == Some(b),
        forall|r: Ratio| #[trigger] ratio_of(ratio_name(r)) == Some(r),
        forall|k: TrackKind| #[trigger] kind_of(kind_name(k)) == Some(k),
{
    reveal_strlit("ffmpeg");
    reveal_strlit("jianying");
    reveal_strlit("cutforge");
    reveal_strlit("9x16");
    reveal_strlit("3x4");
    reveal_strlit("16x9");
    reveal_strlit("video");
    reveal_strlit("audio");
    reveal_strlit("text");
    assert("ffmpeg"@.len() == 6 && "jianying"@.len() == 8 && "cutforge"@.len() == 8);
    assert("jianying"@[0] == 'j' && "cutforge"@[0] == 'c');
    assert("9x16"@.len() == 4 && "3x4"@.len() == 3 && "16x9"@.len() == 4);
    assert("9x16"@[0] == '9' && "16x9"@[0] == '1');
    assert("video"@.len() == 5 && "audio"@.len() == 5 && "text"@.len() == 4);
    assert("video"@[0] == 'v' && "audio"@[0] == 'a');
}

pub open spec fn clips_json(s: Seq<ClipV>) -> Seq<JVal> {
    s.map_values(|c: ClipV| clip_json(c))
}

/// The keys of a track's document form, in key order.
pub open spec fn track_key(i: int) -> Seq<char> {
    if i == 0 {
        "clips"@
    } else if i == 1 {
        "id"@
    } else if i == 2 {
        "kind"@
    } else {
        "name"@
    }
}

pub open spec fn track_val(x: TrackV, i: int) -> Option<JVal> {
    if i == 0 {
        Some(JVal::Arr(clips_json(x.clips)))
    } else if i == 1 {
        Some(JVal::Str(x.id))
    } else if i == 2 {
        Some(JVal::Str(kind_name(x.kind)))
    } else {
        opt_str_j(x.name)
    }
}

pub open spec fn track_entries(x: TrackV) -> Seq<(Seq<char>, Option<JVal>)> {
    Seq::new(4, |i: int| (track_key(i), track_val(x, i)))
}

pub open spec fn track_json(x: TrackV) -> JVal {
    JVal::Obj(fields_of(track_entries(x)))
}

pub proof fn lemma_track_keys()
    ensures
        forall|i: int, j: int| 0 <= i < j < 4 ==> #[trigger] track_key(i) != #[trigger] track_key(j),
{
    reveal_strlit("clips");
    assert("clips"@.len() == 5 && "clips"@[0] == 'c' && "clips"@[1] == 'l');
    reveal_strlit("id");
    assert("id"@.len() == 2 && "id"@[0] == 'i' && "id"@[1] == 'd');
    reveal_strlit("kind");
    assert("kind"@.len() == 4 && "kind"@[0] == 'k' && "kind"@[1] == 'i');
    reveal_strlit("name");
    assert("name"@.len() == 4 && "name"@[0] == 'n' && "name"@[1] == 'a');
}

pub proof fn lemma_track_lookup(x: TrackV)
    ensures
        forall|i: int| 0 <= i < 4 ==> lookup(fields_of(track_entries(x)), #[trigger] track_key(i)) == track_val(x, i),
{
    lemma_track_keys();
    let e = track_entries(x);
    assert(keys_distinct(e));
    assert forall|i: int| 0 <= i < 4 implies lookup(fields_of(e), #[trigger] track_key(i)) == track_val(x, i) by {
        lemma_lookup_fields_of(e, i);
    }
}

pub open spec fn tracks_json(s: Seq<TrackV>) -> Seq<JVal> {
    s.map_values(|t: TrackV| track_json(t))
}

pub open spec fn u32_j(n: u32) -> JVal {
    JVal::Num(NumV::PosInt(n as u64))
}

/// The keys of a canvas.
pub open spec fn canvas_key(i: int) -> Seq<char> {
    if i == 0 {
        "height"@
    } else {
        "width"@
    }
}

pub open spec fn canvas_val(x: Canvas, i: int) -> Option<JVal> {
    if i == 0 {
        Some(u32_j(x.height))
    } else {
        Some(u32_j(x.width))
    }
}

pub open spec fn canvas_entries(x: Canvas) -> Seq<(Seq<char>, Option<JVal>)> {
    Seq::new(2, |i: int| (canvas_key(i), canvas_val(x, i)))
}

pub open spec fn canvas_json(x: Canvas) -> JVal {
    JVal::Obj(fields_of(canvas_entries(x)))
}

pub proof fn lemma_canvas_keys()
    ensures
        forall|i: int, j: int| 0 <= i < j < 2 ==> #[trigger] canvas_key(i) != #[trigger] canvas_key(j),
{
    reveal_strlit("height");
    assert("height"@.len() == 6 && "height"@[0] == 'h' && "height"@[1] == 'e');
    reveal_strlit("width");
    assert("width"@.len() == 5 && "width"@[0] == 'w' && "width"@[1] == 'i');
}

pub proof fn lemma_canvas_lookup(x: Canvas)
    ensures
        forall|i: int| 0 <= i < 2 ==> lookup(fields_of(canvas_entries(x)), #[trigger] canvas_key(i)) == canvas_val(x, i),
{
    lemma_canvas_keys();
    let e = canvas_entries(x);
    assert(keys_distinct(e));
    assert forall|i: int| 0 <= i < 2 implies lookup(fields_of(e), #[trigger] canvas_key(i)) == canvas_val(x, i) by {
        lemma_lookup_fields_of(e, i);
    }
}

/// The keys of a marker.
pub open spec fn marker_key(i: int) -> Seq<char> {
    if i == 0 {
        "label"@
    } else {
        "ms"@
    }
}

pub open spec fn marker_val(x: MarkerV, i: int) -> Option<JVal> {
    if i == 0 {
        Some(JVal::Str(x.label))
    } else {
        Some(num_u(x.ms))
    }
}

pub open spec fn marker_entries(x: MarkerV) -> Seq<(Seq<char>, Option<JVal>)> {
    Seq::new(2, |i: int| (marker_key(i), marker_val(x, i)))
}

pub open spec fn marker_json(x: MarkerV) -> JVal {
    JVal::Obj(fields_of(marker_entries(x)))
}

pub proof fn lemma_marker_keys()
    ensures
        forall|i: int, j: int| 0 <= i < j < 2 ==> #[trigger] marker_key(i) != #[trigger] marker_key(j),
{
    reveal_strlit("label");
    assert("label"@.len() == 5 && "label"@[0] == 'l' && "label"@[1] == 'a');
    reveal_strlit("ms");
    assert("ms"@.len() == 2 && "ms"@[0] == 'm' && "ms"@[1] == 's');
}

pub proof fn lemma_marker_lookup(x: MarkerV)
    ensures
        forall|i: int| 0 <= i < 2 ==> lookup(fields_of(marker_entries(x)), #[trigger] marker_key(i)) == marker_val(x, i),
{
    lemma_marker_keys();
    let e = marker_entries(x);
    assert(keys_distinct(e));
    assert forall|i: int| 0 <= i < 2 implies lookup(fields_of(e), #[trigger] marker_key(i)) == marker_val(x, i) by {
        lemma_lookup_fields_of(e, i);
    }
}

/// The keys of a subtitle block.
pub open spec fn subtitle_key(i: int) -> Seq<char> {
    if i == 0 {
        "ass"@
    } else if i == 1 {
        "source"@
    } else {
        "style"@
    }
}

pub open spec fn subtitle_val(x: SubtitleV, i: int) -> Option<JVal> {
    if i == 0 {
        opt_str_j(x.ass)
    } else if i == 1 {
        opt_str_j(x.source)
    } else {
        opt_str_j(x.style)
    }
}

pub open spec fn subtitle_entries(x: SubtitleV) -> Seq<(Seq<char>, Option<JVal>)> {
    Seq::new(3, |i: int| (subtitle_key(i), subtitle_val(x, i)))
}

pub open spec fn subtitle_json(x: SubtitleV) -> JVal {
    JVal::Obj(fields_of(subtitle_entries(x)))
}

pub proof fn lemma_subtitle_keys()
    ensures
        forall|i: int, j: int| 0 <= i < j < 3 ==> #[trigger] subtitle_key(i) != #[trigger] subtitle_key(j),
{
    reveal_strlit("ass");
    assert("ass"@.len() == 3 && "ass"@[0] == 'a' && "ass"@[1] == 's');
    reveal_strlit("source");
    assert("source"@.len() == 6 && "source"@[0] == 's' && "source"@[1] == 'o');
    reveal_strlit("style");
    assert("style"@.len() == 5 && "style"@[0] == 's' && "style"@[1] == 't');
}

pub proof fn lemma_subtitle_lookup(x: SubtitleV)
    ensures
        forall|i: int| 0 <= i < 3 ==> lookup(fields_of(subtitle_entries(x)), #[trigger] subtitle_key(i)) == subtitle_val(x, i),
{
    lemma_subtitle_keys();
    let e = subtitle_entries(x);
    assert(keys_distinct(e));
    assert forall|i: int| 0 <= i < 3 implies lookup(fields_of(e), #[trigger] subtitle_key(i)) == subtitle_val(x, i) by {
        lemma_lookup_fields_of(e, i);
    }
}

pub open spec fn backends_json(s: Seq<Backend>) -> Seq<JVal> {
    s.map_values(|b: Backend| JVal::Str(backend_name(b)))
}

pub open spec fn ratios_json(s: Seq<Ratio>) -> Seq<JVal> {
    s.map_values(|r: Ratio| JVal::Str(ratio_name(r)))
}

pub open spec fn markers_json(s: Seq<MarkerV>) -> Seq<JVal> {
    s.map_values(|m: MarkerV| marker_json(m))
}

/// The keys of a project's document form, in key order.
pub open spec fn project_key(i: int) -> Seq<char> {
    if i == 0 {
        "backends"@
    } else if i == 1 {
        "bgm"@
    } else if i == 2 {
        "canvas"@
    } else if i == 3 {
        "fps"@
    } else if i == 4 {
        "joinCrossfadeMs"@
    } else if i == 5 {
        "markers"@
    } else if i == 6 {
        "notes"@
    } else if i == 7 {
        "outputs"@
    } else if i == 8 {
        "schemaVersion"@
    } else if i == 9 {
        "slug"@
    } else if i == 10 {
        "subtitle"@
    } else if i == 11 {
        "tracks"@
    } else {
        "version"@
    }
}

pub open spec fn project_val(x: ProjectV, i: int) -> Option<JVal> {
    if i == 0 {
        Some(JVal::Arr(backends_json(x.backends)))
    } else if i == 1 {
        x.bgm
    } else if i == 2 {
        Some(canvas_json(x.canvas))
    } else if i == 3 {
        Some(u32_j(x.fps))
    } else if i == 4 {
        opt_num_j(x.join_crossfade_ms)
    } else if i == 5 {
        match x.markers {
            Some(m) => Some(JVal::Arr(markers_json(m))),
            None => None,
        }
    } else if i == 6 {
        Some(JVal::Str(x.notes))
    } else if i == 7 {
        match x.outputs {
            Some(o) => Some(JVal::Arr(ratios_json(o))),
            None => None,
        }
    } else if i == 8 {
        Some(JVal::Str(x.schema_version))
    } else if i == 9 {
        Some(JVal::Str(x.slug))
    } else if i == 10 {
        match x.subtitle {
            Some(s) => Some(subtitle_json(s)),
            None => None,
        }
    } else if i == 11 {
        Some(JVal::Arr(tracks_json(x.tracks)))
    } else {
        Some(JVal::Num(NumV::PosInt(x.version as u64)))
    }
}

pub open spec fn project_entries(x: ProjectV) -> Seq<(Seq<char>, Option<JVal>)> {
    Seq::new(13, |i: int| (project_key(i), project_val(x, i)))
}

pub open spec fn project_json(x: ProjectV) -> JVal {
    JVal::Obj(fields_of(project_entries(x)))
}

pub proof fn lemma_project_keys()
    ensures
        forall|i: int, j: int| 0 <= i < j < 13 ==> #[trigger] project_key(i) != #[trigger] project_key(j),
{
    reveal_strlit("backends");
    assert("backends"@.len() == 8 && "backends"@[0] == 'b' && "backends"@[1] == 'a');
    reveal_strlit("bgm");
    assert("bgm"@.len() == 3 && "bgm"@[0] == 'b' && "bgm"@[1] == 'g');
    reveal_strlit("canvas");
    assert("canvas"@.len() == 6 && "canvas"@[0] == 'c' && "canvas"@[1] == 'a');
    reveal_strlit("fps");
    assert("fps"@.len() == 3 && "fps"@[0] == 'f' && "fps"@[1] == 'p');
    reveal_strlit("joinCrossfadeMs");
    assert("joinCrossfadeMs"@.len() == 15 && "joinCrossfadeMs"@[0] == 'j' && "joinCrossfadeMs"@[1] == 'o');
    reveal_strlit("markers");
    assert("markers"@.len() == 7 && "markers"@[0] == 'm' && "markers"@[1] == 'a');
    reveal_strlit("notes");
    assert("notes"@.len() == 5 && "notes"@[0] == 'n' && "notes"@[1] == 'o');
    reveal_strlit("outputs");
    assert("outputs"@.len() == 7 && "outputs"@[0] == 'o' && "outputs"@[1] == 'u');
    reveal_strlit("schemaVersion");
    assert("schemaVersion"@.len() == 13 && "schemaVersion"@[0] == 's' && "schemaVersion"@[1] == 'c');
    reveal_strlit("slug");
    assert("slug"@.len() == 4 && "slug"@[0] == 's' && "slug"@[1] == 'l');
    reveal_strlit("subtitle");
    assert("subtitle"@.len() == 8 && "subtitle"@[0] == 's' && "subtitle"@[1] == 'u');
    reveal_strlit("tracks");
    assert("tracks"@.len() == 6 && "tracks"@[0] == 't' && "tracks"@[1] == 'r');
    reveal_strlit("version");
    assert("version"@.len() == 7 && "version"@[0] == 'v' && "version"@[1] == 'e');
}

pub proof fn lemma_project_lookup(x: ProjectV)
    ensures
        forall|i: int| 0 <= i < 13 ==> lookup(fields_of(project_entries(x)), #[trigger] project_key(i)) == project_val(x, i),
{
    lemma_project_keys();
    let e = project_entries(x);
    assert(keys_distinct(e));
    assert forall|i: int| 0 <= i < 13 implies lookup(fields_of(e), #[trigger] project_key(i)) == project_val(x, i) by {
        lemma_lookup_fields_of(e, i);
    }
}

} // verus!

verus! {

pub open spec fn req_u32(fs: Seq<(Seq<char>, JVal)>, k: Seq<char>) -> Option<u32> {
    match lookup(fs, k) {
        Some(JVal::Num(NumV::PosInt(n))) => if n <= u32::MAX {
            Some(n as u32)
        } else {
            None
        },
        _ => None,
    }
}

pub open spec fn clips_from(a: Seq<JVal>) -> Option<Seq<ClipV>>
    decreases a.len(),
{
    if a.len() == 0 {
        Some(Seq::empty())
    } else {
        match (clips_from(a.drop_last()), clip_from_json(a.last())) {
            (Some(s), Some(c)) => Some(s.push(c)),
            _ => None,
        }
    }
}

pub open spec fn get_clips(fs: Seq<(Seq<char>, JVal)>) -> Option<Seq<ClipV>> {
    match lookup(fs, "clips"@) {
        None => Some(Seq::empty()),
        Some(JVal::Arr(a)) => clips_from(a),
        _ => None,
    }
}

pub open spec fn get_kind(fs: Seq<(Seq<char>, JVal)>) -> Option<TrackKind> {
    match lookup(fs, "kind"@) {
        Some(JVal::Str(s)) => kind_of(s),
        _ => None,
    }
}

/// Reads a track from its document form.
pub open spec fn track_from_json(j: JVal) -> Option<TrackV> {
    match j {
        JVal::Obj(fs) => {
            if req_str(fs, "id"@) is Some && get_kind(fs) is Some && get_str(fs, "name"@) is Some
                && get_clips(fs) is Some {
                Some(TrackV {
                    id: req_str(fs, "id"@)->0,
                    kind: get_kind(fs)->0,
                    name: get_str(fs, "name"@)->0,
                    clips: get_clips(fs)->0,
                })
            } else {
                None
            }
        },
        _ => None,
    }
}

pub open spec fn tracks_from(a: Seq<JVal>) -> Option<Seq<TrackV>>
    decreases a.len(),
{
    if a.len() == 0 {
        Some(Seq::empty())
    } else {
        match (tracks_from(a.drop_last()), track_from_json(a.last())) {
            (Some(s), Some(t)) => Some(s.push(t)),
            _ => None,
        }
    }
}

pub open spec fn canvas_from(j: JVal) -> Option<Canvas> {
    match j {
        JVal::Obj(fs) => if req_u32(fs, "height"@) is Some && req_u32(fs, "width"@) is Some {
            Some(Canvas { width: req_u32(fs, "width"@)->0, height: req_u32(fs, "height"@)->0 })
        } else {
            None
        },
        _ => None,
    }
}

pub open spec fn marker_from(j: JVal) -> Option<MarkerV> {
    match j {
        JVal::Obj(fs) => if req_u64(fs, "ms"@) is Some && req_str(fs, "label"@) is Some {
            Some(MarkerV { ms: req_u64(fs, "ms"@)->0, label: req_str(fs, "label"@)->0 })
        } else {
            None
        },
        _ => None,
    }
}

pub open spec fn subtitle_from(j: JVal) -> Option<SubtitleV> {
    match j {
        JVal::Obj(fs) => if get_str(fs, "ass"@) is Some && get_str(fs, "source"@) is Some && get_str(
            fs,
            "style"@,
        ) is Some {
            Some(
                SubtitleV {
                    ass: get_str(fs, "ass"@)->0,
                    source: get_str(fs, "source"@)->0,
                    style: get_str(fs, "style"@)->0,
                },
            )
        } else {
            None
        },
        _ => None,
    }
}

pub open spec fn markers_from(a: Seq<JVal>) -> Option<Seq<MarkerV>>
    decreases a.len(),
{
    if a.len() == 0 {
        Some(Seq::empty())
    } else {
        match (markers_from(a.drop_last()), marker_from(a.last())) {
            (Some(s), Some(m)) => Some(s.push(m)),
            _ => None,
        }
    }
}

pub open spec fn backends_from(a: Seq<JVal>) -> Option<Seq<Backend>>
    decreases a.len(),
{
    if a.len() == 0 {
        Some(Seq::empty())
    } else {
        match (backends_from(a.drop_last()), a.last()) {
            (Some(s), JVal::Str(t)) => match backend_of(t) {
                Some(b) => Some(s.push(b)),
                None => None,
            },
            _ => None,
        }
    }
}

pub open spec fn ratios_from(a: Seq<JVal>) -> Option<Seq<Ratio>>
    decreases a.len(),
{
    if a.len() == 0 {
        Some(Seq::empty())
    } else {
        match (ratios_from(a.drop_last()), a.last()) {
            (Some(s), JVal::Str(t)) => match ratio_of(t) {
                Some(r) => Some(s.push(r)),
                None => None,
            },
            _ => None,
        }
    }
}

pub open spec fn get_version(fs: Seq<(Seq<char>, JVal)>) -> Option<u8> {
    match lookup(fs, "version"@) {
        None => Some(1),
        Some(JVal::Num(NumV::PosInt(n))) => if n <= 255 {
            Some(n as u8)
        } else {
            None
        },
        _ => None,
    }
}

pub open spec fn get_str_or(fs: Seq<(Seq<char>, JVal)>, k: Seq<char>, dflt: Seq<char>) -> Option<Seq<char>> {
    match lookup(fs, k) {
        None => Some(dflt),
        Some(JVal::Str(s)) => Some(s),
        _ => None,
    }
}

pub open spec fn get_canvas(fs: Seq<(Seq<char>, JVal)>) -> Option<Canvas> {
    match lookup(fs, "canvas"@) {
        Some(v) => canvas_from(v),
        None => None,
    }
}

pub open spec fn get_backends(fs: Seq<(Seq<char>, JVal)>) -> Option<Seq<Backend>> {
    match lookup(fs, "backends"@) {
        None => Some(seq![Backend::Ffmpeg]),
        Some(JVal::Arr(a)) => backends_from(a),
        _ => None,
    }
}

pub open spec fn get_tracks(fs: Seq<(Seq<char>, JVal)>) -> Option<Seq<TrackV>> {
    match lookup(fs, "tracks"@) {
        None => Some(Seq::empty()),
        Some(JVal::Arr(a)) => tracks_from(a),
        _ => None,
    }
}

pub open spec fn get_outputs(fs: Seq<(Seq<char>, JVal)>) -> Option<Option<Seq<Ratio>>> {
    match lookup(fs, "outputs"@) {
        None => Some(None),
        Some(JVal::Null) => Some(None),
        Some(JVal::Arr(a)) => match ratios_from(a) {
            Some(s) => Some(Some(s)),
            None => None,
        },
        _ => None,
    }
}

pub open spec fn get_markers(fs: Seq<(Seq<char>, JVal)>) -> Option<Option<Seq<MarkerV>>> {
    match lookup(fs, "markers"@) {
        None => Some(None),
        Some(JVal::Null) => Some(None),
        Some(JVal::Arr(a)) => match markers_from(a) {
            Some(s) => Some(Some(s)),
            None => None,
        },
        _ => None,
    }
}

pub open spec fn get_subtitle(fs: Seq<(Seq<char>, JVal)>) -> Option<Option<SubtitleV>> {
    match lookup(fs, "subtitle"@) {
        None => Some(None),
        Some(JVal::Null) => Some(None),
        Some(v) => match subtitle_from(v) {
            Some(s) => Some(Some(s)),
            None => None,
        },
    }
}

/// Reads a project from its document form; absent fields take their
/// defaults (version 1, schema "2.0.0", backend ffmpeg, notes
/// "notes.json", no tracks).
pub open spec fn project_from_json(j: JVal) -> Option<ProjectV> {
    match j {
        JVal::Obj(fs) => {
            if get_version(fs) is Some && get_str_or(fs, "schemaVersion"@, "2.0.0"@) is Some && req_str(
                fs,
                "slug"@,
            ) is Some && req_u32(fs, "fps"@) is Some && get_canvas(fs) is Some && get_backends(fs) is Some
                && get_str_or(fs, "notes"@, "notes.json"@) is Some && get_tracks(fs) is Some && get_obj(
                fs,
                "bgm"@,
            ) is Some && get_outputs(fs) is Some && get_markers(fs) is Some && get_subtitle(fs) is Some
                && get_num(fs, "joinCrossfadeMs"@) is Some {
                Some(
                    ProjectV {
                        version: get_version(fs)->0,
                        schema_version: get_str_or(fs, "schemaVersion"@, "2.0.0"@)->0,
                        slug: req_str(fs, "slug"@)->0,
                        fps: req_u32(fs, "fps"@)->0,
                        canvas: get_canvas(fs)->0,
                        backends: get_backends(fs)->0,
                        notes: get_str_or(fs, "notes"@, "notes.json"@)->0,
                        tracks: get_tracks(fs)->0,
                        bgm: get_obj(fs, "bgm"@)->0,
                        outputs: get_outputs(fs)->0,
                        markers: get_markers(fs)->0,
                        subtitle: get_subtitle(fs)->0,
                        join_crossfade_ms: get_num(fs, "joinCrossfadeMs"@)->0,
                    },
                )
            } else {
                None
            }
        },
        _ => None,
    }
}

pub open spec fn track_wf(t: TrackV) -> bool {
    forall|i: int| 0 <= i < t.clips.len() ==> #[trigger] clip_wf(t.clips[i])
}

/// A project whose nested presentation values are objects, as the document
/// form requires.
pub open spec fn project_wf(p: ProjectV) -> bool {
    &&& forall|i: int| 0 <= i < p.tracks.len() ==> #[trigger] track_wf(p.tracks[i])
    &&& is_obj_opt(p.bgm)
}

} // verus!

verus! {

pub proof fn lemma_clips_roundtrip(s: Seq<ClipV>)
    requires
        forall|i: int| 0 <= i < s.len() ==> #[trigger] clip_wf(s[i]),
    ensures
        clips_from(clips_json(s)) == Some(s),
    decreases s.len(),
{
    if s.len() > 0 {
        let p = s.drop_last();
        assert(clips_json(s).drop_last() =~= clips_json(p));
        assert forall|i: int| 0 <= i < p.len() implies #[trigger] clip_wf(p[i]) by {
            assert(p[i] == s[i]);
        }
        lemma_clips_roundtrip(p);
        lemma_clip_roundtrip(s.last());
        assert(clips_json(s).last() == clip_json(s.last()));
        assert(p.push(s.last()) =~= s);
    } else {
        assert(clips_json(s) =~= Seq::<JVal>::empty());
    }
}

/// A track read back from its document form is the track written.
pub proof fn lemma_track_roundtrip(t: TrackV)
    requires
        track_wf(t),
    ensures
        track_from_json(track_json(t)) == Some(t),
{
    lemma_track_lookup(t);
    lemma_enum_names();
    lemma_clips_roundtrip(t.clips);
    let fs = fields_of(track_entries(t));
    assert(lookup(fs, track_key(0)) == track_val(t, 0));
    assert(lookup(fs, track_key(1)) == track_val(t, 1));
    assert(lookup(fs, track_key(2)) == track_val(t, 2));
    assert(lookup(fs, track_key(3)) == track_val(t, 3));
    assert(get_clips(fs) == Some(t.clips));
    assert(get_kind(fs) == Some(t.kind));
}

pub proof fn lemma_tracks_roundtrip(s: Seq<TrackV>)
    requires
        forall|i: int| 0 <= i < s.len() ==> #[trigger] track_wf(s[i]),
    ensures
        tracks_from(tracks_json(s)) == Some(s),
    decreases s.len(),
{
    if s.len() > 0 {
        let p = s.drop_last();
        assert(tracks_json(s).drop_last() =~= tracks_json(p));
        assert forall|i: int| 0 <= i < p.len() implies #[trigger] track_wf(p[i]) by {
            assert(p[i] == s[i]);
        }
        lemma_tracks_roundtrip(p);
        lemma_track_roundtrip(s.last());
        assert(tracks_json(s).last() == track_json(s.last()));
        assert(p.push(s.last()) =~= s);
    } else {
        assert(tracks_json(s) =~= Seq::<JVal>::empty());
    }
}

pub proof fn lemma_markers_roundtrip(s: Seq<MarkerV>)
    ensures
        markers_from(markers_json(s)) == Some(s),
    decreases s.len(),
{
    if s.len() > 0 {
        let p = s.drop_last();
        assert(markers_json(s).drop_last() =~= markers_json(p));
        lemma_markers_roundtrip(p);
        let m = s.last();
        lemma_marker_lookup(m);
        assert(lookup(fields_of(marker_entries(m)), marker_key(0)) == marker_val(m, 0));
        assert(lookup(fields_of(marker_entries(m)), marker_key(1)) == marker_val(m, 1));
        assert(markers_json(s).last() == marker_json(m));
        assert(p.push(m) =~= s);
    } else {
        assert(markers_json(s) =~= Seq::<JVal>::empty());
    }
}

pub proof fn lemma_backends_roundtrip(s: Seq<Backend>)
    ensures
        backends_from(backends_json(s)) == Some(s),
    decreases s.len(),
{
    lemma_enum_names();
    if s.len() > 0 {
        let p = s.drop_last();
        assert(backends_json(s).drop_last() =~= backends_json(p));
        lemma_backends_roundtrip(p);
        assert(backends_json(s).last() == JVal::Str(backend_name(s.last())));
        assert(p.push(s.last()) =~= s);
    } else {
        assert(backends_json(s) =~= Seq::<JVal>::empty());
    }
}

pub proof fn lemma_ratios_roundtrip(s: Seq<Ratio>)
    ensures
        ratios_from(ratios_json(s)) == Some(s),
    decreases s.len(),
{
    lemma_enum_names();
    if s.len() > 0 {
        let p = s.drop_last();
        assert(ratios_json(s).drop_last() =~= ratios_json(p));
        lemma_ratios_roundtrip(p);
        assert(ratios_json(s).last() == JVal::Str(ratio_name(s.last())));
        assert(p.push(s.last()) =~= s);
    } else {
        assert(ratios_json(s) =~= Seq::<JVal>::empty());
    }
}

/// A project read back from its document form is the project written.
#[verifier::rlimit(40)]
pub proof fn lemma_project_roundtrip(p: ProjectV)
    requires
        project_wf(p),
    ensures
        project_from_json(project_json(p)) == Some(p),
{
    lemma_project_lookup(p);
    let fs = fields_of(project_entries(p));
    assert(lookup(fs, project_key(0)) == project_val(p, 0));
    assert(lookup(fs, project_key(1)) == project_val(p, 1));
    assert(lookup(fs, project_key(2)) == project_val(p, 2));
    assert(lookup(fs, project_key(3)) == project_val(p, 3));
    assert(lookup(fs, project_key(4)) == project_val(p, 4));
    assert(lookup(fs, project_key(5)) == project_val(p, 5));
    assert(lookup(fs, project_key(6)) == project_val(p, 6));
    assert(lookup(fs, project_key(7)) == project_val(p, 7));
    assert(lookup(fs, project_key(8)) == project_val(p, 8));
    assert(lookup(fs, project_key(9)) == project_val(p, 9));
    assert(lookup(fs, project_key(10)) == project_val(p, 10));
    assert(lookup(fs, project_key(11)) == project_val(p, 11));
    assert(lookup(fs, project_key(12)) == project_val(p, 12));
    lemma_backends_roundtrip(p.backends);
    lemma_tracks_roundtrip(p.tracks);
    assert(get_backends(fs) == Some(p.backends));
    assert(get_tracks(fs) == Some(p.tracks));
    lemma_canvas_lookup(p.canvas);
    let cf = fields_of(canvas_entries(p.canvas));
    assert(lookup(cf, canvas_key(0)) == canvas_val(p.canvas, 0));
    assert(lookup(cf, canvas_key(1)) == canvas_val(p.canvas, 1));
    assert(get_canvas(fs) == Some(p.canvas));
    if let Some(o) = p.outputs {
        lemma_ratios_roundtrip(o);
    }
    assert(get_outputs(fs) == Some(p.outputs));
    if let Some(m) = p.markers {
        lemma_markers_roundtrip(m);
    }
    assert(get_markers(fs) == Some(p.markers));
    if let Some(s) = p.subtitle {
        lemma_subtitle_lookup(s);
        let sf = fields_of(subtitle_entries(s));
        assert(lookup(sf, subtitle_key(0)) == subtitle_val(s, 0));
        assert(lookup(sf, subtitle_key(1)) == subtitle_val(s, 1));
        assert(lookup(sf, subtitle_key(2)) == subtitle_val(s, 2));
    }
    assert(get_subtitle(fs) == Some(p.subtitle));
    assert(get_version(fs) == Some(p.version));
}

} // verus!

verus! {

pub open spec fn entries_view(e: Seq<(String, Option<Json>)>) -> Seq<(Seq<char>, Option<JVal>)> {
    Seq::new(e.len(), |i: int| (e[i].0@, opt_json(e[i].1)))
}

/// Writes an object from (key, optional value) entries, leaving out the
/// entries without a value.
fn write_fields(e: &Vec<(String, Option<Json>)>) -> (r: Json)
    ensures
        r@ == JVal::Obj(fields_of(entries_view(e@))),
{
    let ghost ev = entries_view(e@);
    let mut out: Vec<(String, Json)> = Vec::new();
    let mut i: usize = 0;
    while i < e.len()
        invariant
            i <= e.len(),
            ev == entries_view(e@),
            fields_view(out@) == fields_of(ev.take(i as int)),
        decreases e.len() - i,
    {
        let ghost prev = out@;
        assert(ev.take(i + 1).drop_last() =~= ev.take(i as int));
        assert(ev.take(i + 1).last() == ev[i as int]);
        match &e[i].1 {
            Some(v) => {
                out.push((e[i].0.clone(), v.deep_copy()));
                assert(fields_view(out@) =~= fields_view(prev) + seq![(e@[i as int].0@, v@)]);
            },
            None => {
                assert(fields_view(prev) + Seq::<(Seq<char>, JVal)>::empty() =~= fields_view(prev));
            },
        }
        i += 1;
    }
    assert(ev.take(e.len() as int) =~= ev);
    let r = Json::Obj(out);
    proof {
        crate::json::lemma_fields_view(out);
    }
    r
}

fn u64_json(n: u64) -> (r: Json)
    ensures
        r@ == num_u(n),
{
    Json::Num(JNum::PosInt(n))
}

pub(crate) fn opt_u64_json(o: Option<u64>) -> (r: Option<Json>)
    ensures
        opt_json(r) == opt_u64_j(o),
{
    match o {
        Some(n) => Some(u64_json(n)),
        None => None,
    }
}

pub(crate) fn opt_str_json(o: &Option<String>) -> (r: Option<Json>)
    ensures
        opt_json(r) == opt_str_j(opt_str(*o)),
{
    match o {
        Some(s) => Some(Json::Str(s.clone())),
        None => None,
    }
}

pub(crate) fn opt_num_json(o: &Option<JNum>) -> (r: Option<Json>)
    ensures
        opt_json(r) == opt_num_j(opt_num(*o)),
{
    match o {
        Some(n) => Some(Json::Num(n.copy_num())),
        None => None,
    }
}

fn opt_bool_json(o: Option<bool>) -> (r: Option<Json>)
    ensures
        opt_json(r) == opt_bool_j(o),
{
    match o {
        Some(b) => Some(Json::Bool(b)),
        None => None,
    }
}

pub fn role_str(r: Role) -> (s: &'static str)
    ensures
        s@ == role_name(r),
{
    match r {
        Role::Voice => "voice",
        Role::Sfx => "sfx",
        Role::Music => "music",
        Role::Ambient => "ambient",
    }
}

pub(crate) fn opt_role_json(o: Option<Role>) -> (r: Option<Json>)
    ensures
        opt_json(r) == opt_role_j(o),
{
    match o {
        Some(x) => Some(Json::Str(role_str(x).to_string())),
        None => None,
    }
}

pub(crate) fn opt_json_copy(o: &Option<Json>) -> (r: Option<Json>)
    ensures
        opt_json(r) == opt_json(*o),
{
    match o {
        Some(j) => Some(j.deep_copy()),
        None => None,
    }
}

/// The document form of a clip.
pub fn clip_to_json(c: &Clip) -> (r: Json)
    ensures
        r@ == clip_json(c@),
{
    let mut e: Vec<(String, Option<Json>)> = Vec::new();
    e.push(("durationMs".to_string(), Some(u64_json(c.duration_ms))));
    e.push(("fade".to_string(), opt_json_copy(&c.fade)));
    e.push(("freezeMs".to_string(), opt_u64_json(c.freeze_ms)));
    e.push(("id".to_string(), Some(Json::Str(c.id.clone()))));
    e.push(("loop".to_string(), opt_bool_json(c.loop_)));
    e.push(("motion".to_string(), opt_json_copy(&c.motion)));
    e.push(("opacity".to_string(), opt_num_json(&c.opacity)));
    e.push(("overlay".to_string(), opt_json_copy(&c.overlay)));
    e.push(("position".to_string(), opt_json_copy(&c.position)));
    e.push(("punchIn".to_string(), opt_json_copy(&c.punch_in)));
    e.push(("reframe".to_string(), opt_json_copy(&c.reframe)));
    e.push(("role".to_string(), opt_role_json(c.role)));
    e.push(("scale".to_string(), opt_num_json(&c.scale)));
    e.push(("sourceHash".to_string(), opt_str_json(&c.source_hash)));
    e.push(("sourceInMs".to_string(), opt_u64_json(c.source_in_ms)));
    e.push(("speed".to_string(), opt_num_json(&c.speed)));
    e.push(("src".to_string(), opt_str_json(&c.src)));
    e.push(("startMs".to_string(), Some(u64_json(c.start_ms))));
    e.push(("text".to_string(), opt_str_json(&c.text)));
    e.push(("transition".to_string(), opt_json_copy(&c.transition)));
    e.push(("volume".to_string(), opt_num_json(&c.volume)));
    assert(entries_view(e@) =~= clip_entries(c@));
    write_fields(&e)
}

/// The document form of a track's clips.
pub fn clips_to_json(v: &Vec<Clip>) -> (r: Json)
    ensures
        r@ == JVal::Arr(clips_json(clips_view(v@))),
{
    let mut out: Vec<Json> = Vec::new();
    let mut i: usize = 0;
    while i < v.len()
        invariant
            i <= v.len(),
            crate::json::arr_view(out@) == clips_json(clips_view(v@.take(i as int))),
        decreases v.len() - i,
    {
        let j = clip_to_json(&v[i]);
        let ghost prev = out@;
        out.push(j);
        assert(crate::json::arr_view(out@) =~= crate::json::arr_view(prev).push(j@));
        assert(clips_json(clips_view(v@.take(i + 1))) =~= clips_json(clips_view(v@.take(i as int))).push(
            clip_json(v@[i as int]@),
        ));
        i += 1;
    }
    assert(v@.take(i as int) =~= v@);
    let r = Json::Arr(out);
    proof {
        crate::json::lemma_arr_view(out);
    }
    r
}

/// The document form of a track.
pub fn track_to_json(t: &Track) -> (r: Json)
    ensures
        r@ == track_json(t@),
{
    let mut e: Vec<(String, Option<Json>)> = Vec::new();
    e.push(("clips".to_string(), Some(clips_to_json(&t.clips))));
    e.push(("id".to_string(), Some(Json::Str(t.id.clone()))));
    e.push(("kind".to_string(), Some(Json::Str(t.kind.kind_json().to_string()))));
    e.push(("name".to_string(), opt_str_json(&t.name)));
    assert(entries_view(e@) =~= track_entries(t@));
    write_fields(&e)
}

/// The document form of a list of tracks.
pub fn tracks_to_json(v: &Vec<Track>) -> (r: Json)
    ensures
        r@ == JVal::Arr(tracks_json(tracks_view(v@))),
{
    let mut out: Vec<Json> = Vec::new();
    let mut i: usize = 0;
    while i < v.len()
        invariant
            i <= v.len(),
            crate::json::arr_view(out@) == tracks_json(tracks_view(v@.take(i as int))),
        decreases v.len() - i,
    {
        let j = track_to_json(&v[i]);
        let ghost prev = out@;
        out.push(j);
        assert(crate::json::arr_view(out@) =~= crate::json::arr_view(prev).push(j@));
        assert(tracks_json(tracks_view(v@.take(i + 1))) =~= tracks_json(tracks_view(v@.take(i as int))).push(
            track_json(v@[i as int]@),
        ));
        i += 1;
    }
    assert(v@.take(i as int) =~= v@);
    let r = Json::Arr(out);
    proof {
        crate::json::lemma_arr_view(out);
    }
    r
}

pub fn backend_str(b: Backend) -> (s: &'static str)
    ensures
        s@ == backend_name(b),
{
    match b {
        Backend::Ffmpeg => "ffmpeg",
        Backend::Jianying => "jianying",
        Backend::Cutforge => "cutforge",
    }
}

pub fn ratio_str(r: Ratio) -> (s: &'static str)
    ensures
        s@ == ratio_name(r),
{
    match r {
        Ratio::NineBySixteen => "9x16",
        Ratio::ThreeByFour => "3x4",
        Ratio::SixteenByNine => "16x9",
    }
}

fn backends_to_json(v: &Vec<Backend>) -> (r: Json)
    ensures
        r@ == JVal::Arr(backends_json(v@)),
{
    let mut out: Vec<Json> = Vec::new();
    let mut i: usize = 0;
    while i < v.len()
        invariant
            i <= v.len(),
            crate::json::arr_view(out@) == backends_json(v@.take(i as int)),
        decreases v.len() - i,
    {
        let j = Json::Str(backend_str(v[i]).to_string());
        let ghost prev = out@;
        out.push(j);
        assert(crate::json::arr_view(out@) =~= crate::json::arr_view(prev).push(j@));
        assert(backends_json(v@.take(i + 1)) =~= backends_json(v@.take(i as int)).push(JVal::Str(backend_name(v@[i as int]))));
        i += 1;
    }
    assert(v@.take(i as int) =~= v@);
    let r = Json::Arr(out);
    proof {
        crate::json::lemma_arr_view(out);
    }
    r
}

fn ratios_to_json(v: &Vec<Ratio>) -> (r: Json)
    ensures
        r@ == JVal::Arr(ratios_json(v@)),
{
    let mut out: Vec<Json> = Vec::new();
    let mut i: usize = 0;
    while i < v.len()
        invariant
            i <= v.len(),
            crate::json::arr_view(out@) == ratios_json(v@.take(i as int)),
        decreases v.len() - i,
    {
        let j = Json::Str(ratio_str(v[i]).to_string());
        let ghost prev = out@;
        out.push(j);
        assert(crate::json::arr_view(out@) =~= crate::json::arr_view(prev).push(j@));
        assert(ratios_json(v@.take(i + 1)) =~= ratios_json(v@.take(i as int)).push(JVal::Str(ratio_name(v@[i as int]))));
        i += 1;
    }
    assert(v@.take(i as int) =~= v@);
    let r = Json::Arr(out);
    proof {
        crate::json::lemma_arr_view(out);
    }
    r
}

fn marker_to_json(m: &Marker) -> (r: Json)
    ensures
        r@ == marker_json(m@),
{
    let mut e: Vec<(String, Option<Json>)> = Vec::new();
    e.push(("label".to_string(), Some(Json::Str(m.label.clone()))));
    e.push(("ms".to_string(), Some(u64_json(m.ms))));
    assert(entries_view(e@) =~= marker_entries(m@));
    write_fields(&e)
}

fn markers_to_json(v: &Vec<Marker>) -> (r: Json)
    ensures
        r@ == JVal::Arr(markers_json(markers_view(v@))),
{
    let mut out: Vec<Json> = Vec::new();
    let mut i: usize = 0;
    while i < v.len()
        invariant
            i <= v.len(),
            crate::json::arr_view(out@) == markers_json(markers_view(v@.take(i as int))),
        decreases v.len() - i,
    {
        let j = marker_to_json(&v[i]);
        let ghost prev = out@;
        out.push(j);
        assert(crate::json::arr_view(out@) =~= crate::json::arr_view(prev).push(j@));
        assert(markers_json(markers_view(v@.take(i + 1))) =~= markers_json(markers_view(v@.take(i as int))).push(
            marker_json(v@[i as int]@),
        ));
        i += 1;
    }
    assert(v@.take(i as int) =~= v@);
    let r = Json::Arr(out);
    proof {
        crate::json::lemma_arr_view(out);
    }
    r
}

fn canvas_to_json(c: Canvas) -> (r: Json)
    ensures
        r@ == canvas_json(c),
{
    let mut e: Vec<(String, Option<Json>)> = Vec::new();
    e.push(("height".to_string(), Some(Json::Num(JNum::PosInt(c.height as u64)))));
    e.push(("width".to_string(), Some(Json::Num(JNum::PosInt(c.width as u64)))));
    assert(entries_view(e@) =~= canvas_entries(c));
    write_fields(&e)
}

fn subtitle_to_json(s: &Subtitle) -> (r: Json)
    ensures
        r@ == subtitle_json(s@),
{
    let mut e: Vec<(String, Option<Json>)> = Vec::new();
    e.push(("ass".to_string(), opt_str_json(&s.ass)));
    e.push(("source".to_string(), opt_str_json(&s.source)));
    e.push(("style".to_string(), opt_str_json(&s.style)));
    assert(entries_view(e@) =~= subtitle_entries(s@));
    write_fields(&e)
}

/// The document form of a project.
pub fn project_to_json(p: &Project) -> (r: Json)
    ensures
        r@ == project_json(p@),
{
    let mut e: Vec<(String, Option<Json>)> = Vec::new();
    e.push(("backends".to_string(), Some(backends_to_json(&p.backends))));
    e.push(("bgm".to_string(), opt_json_copy(&p.bgm)));
    e.push(("canvas".to_string(), Some(canvas_to_json(p.canvas))));
    e.push(("fps".to_string(), Some(Json::Num(JNum::PosInt(p.fps as u64)))));
    e.push(("joinCrossfadeMs".to_string(), opt_num_json(&p.join_crossfade_ms)));
    let markers = match &p.markers {
        Some(m) => Some(markers_to_json(m)),
        None => None,
    };
    e.push(("markers".to_string(), markers));
    e.push(("notes".to_string(), Some(Json::Str(p.notes.clone()))));
    let outputs = match &p.outputs {
        Some(o) => Some(ratios_to_json(o)),
        None => None,
    };
    e.push(("outputs".to_string(), outputs));
    e.push(("schemaVersion".to_string(), Some(Json::Str(p.schema_version.clone()))));
    e.push(("slug".to_string(), Some(Json::Str(p.slug.clone()))));
    let subtitle = match &p.subtitle {
        Some(s) => Some(subtitle_to_json(s)),
        None => None,
    };
    e.push(("subtitle".to_string(), subtitle));
    e.push(("tracks".to_string(), Some(tracks_to_json(&p.tracks))));
    e.push(("version".to_string(), Some(Json::Num(JNum::PosInt(p.version as u64)))));
    assert(entries_view(e@) =~= project_entries(p@));
    write_fields(&e)
}

} // verus!

verus! {

/// The message of a field error: what went wrong and the field's name in
/// backquotes.
fn field_err(what: &str, k: &str) -> (r: String)
    ensures
        r@ == what@ + " `"@ + k@ + "`"@,
{
    let mut m = what.to_string();
    m.append(" `");
    m.append(k);
    m.append("`");
    m
}

/// The value of field `k`, if the object has one.
pub fn get_field<'a>(fs: &'a Vec<(String, Json)>, k: &str) -> (r: Option<&'a Json>)
    ensures
        match r {
            Some(j) => lookup(fields_view(fs@), k@) == Some(j@),
            None => lookup(fields_view(fs@), k@) is None,
        },
{
    match crate::json::field_index(fs, k) {
        Some(i) => Some(&fs[i].1),
        None => None,
    }
}

fn read_req_str(fs: &Vec<(String, Json)>, k: &str) -> (r: Result<String, String>)
    ensures
        match r {
            Ok(s) => req_str(fields_view(fs@), k@) == Some(s@),
            Err(_) => req_str(fields_view(fs@), k@) is None,
        },
{
    match get_field(fs, k) {
        Some(Json::Str(s)) => Ok(s.clone()),
        Some(_) => Err(field_err("invalid type for field", k)),
        None => Err(field_err("missing field", k)),
    }
}

fn read_req_u64(fs: &Vec<(String, Json)>, k: &str) -> (r: Result<u64, String>)
    ensures
        match r {
            Ok(n) => req_u64(fields_view(fs@), k@) == Some(n),
            Err(_) => req_u64(fields_view(fs@), k@) is None,
        },
{
    match get_field(fs, k) {
        Some(Json::Num(JNum::PosInt(n))) => Ok(*n),
        Some(_) => Err(field_err("invalid type for field", k)),
        None => Err(field_err("missing field", k)),
    }
}

fn read_req_u32(fs: &Vec<(String, Json)>, k: &str) -> (r: Result<u32, String>)
    ensures
        match r {
            Ok(n) => req_u32(fields_view(fs@), k@) == Some(n),
            Err(_) => req_u32(fields_view(fs@), k@) is None,
        },
{
    match get_field(fs, k) {
        Some(Json::Num(JNum::PosInt(n))) => if *n <= 0xffff_ffff {
            Ok(*n as u32)
        } else {
            Err(field_err("number out of range for field", k))
        },
        Some(_) => Err(field_err("invalid type for field", k)),
        None => Err(field_err("missing field", k)),
    }
}

fn read_u64(fs: &Vec<(String, Json)>, k: &str) -> (r: Result<Option<u64>, String>)
    ensures
        match r {
            Ok(o) => get_u64(fields_view(fs@), k@) == Some(o),
            Err(_) => get_u64(fields_view(fs@), k@) is None,
        },
{
    match get_field(fs, k) {
        None | Some(Json::Null) => Ok(None),
        Some(Json::Num(JNum::PosInt(n))) => Ok(Some(*n)),
        Some(_) => Err(field_err("invalid type for field", k)),
    }
}

fn read_str(fs: &Vec<(String, Json)>, k: &str) -> (r: Result<Option<String>, String>)
    ensures
        match r {
            Ok(o) => get_str(fields_view(fs@), k@) == Some(opt_str(o)),
            Err(_) => get_str(fields_view(fs@), k@) is None,
        },
{
    match get_field(fs, k) {
        None | Some(Json::Null) => Ok(None),
        Some(Json::Str(s)) => Ok(Some(s.clone())),
        Some(_) => Err(field_err("invalid type for field", k)),
    }
}

fn read_str_or(fs: &Vec<(String, Json)>, k: &str, dflt: &str) -> (r: Result<String, String>)
    ensures
        match r {
            Ok(s) => get_str_or(fields_view(fs@), k@, dflt@) == Some(s@),
            Err(_) => get_str_or(fields_view(fs@), k@, dflt@) is None,
        },
{
    match get_field(fs, k) {
        None => Ok(dflt.to_string()),
        Some(Json::Str(s)) => Ok(s.clone()),
        Some(_) => Err(field_err("invalid type for field", k)),
    }
}

fn read_num(fs: &Vec<(String, Json)>, k: &str) -> (r: Result<Option<JNum>, String>)
    ensures
        match r {
            Ok(o) => get_num(fields_view(fs@), k@) == Some(opt_num(o)),
            Err(_) => get_num(fields_view(fs@), k@) is None,
        },
{
    match get_field(fs, k) {
        None | Some(Json::Null) => Ok(None),
        Some(Json::Num(n)) => Ok(Some(n.copy_num())),
        Some(_) => Err(field_err("invalid type for field", k)),
    }
}

fn read_bool(fs: &Vec<(String, Json)>, k: &str) -> (r: Result<Option<bool>, String>)
    ensures
        match r {
            Ok(o) => get_bool(fields_view(fs@), k@) == Some(o),
            Err(_) => get_bool(fields_view(fs@), k@) is None,
        },
{
    match get_field(fs, k) {
        None | Some(Json::Null) => Ok(None),
        Some(Json::Bool(b)) => Ok(Some(*b)),
        Some(_) => Err(field_err("invalid type for field", k)),
    }
}

fn read_obj(fs: &Vec<(String, Json)>, k: &str) -> (r: Result<Option<Json>, String>)
    ensures
        match r {
            Ok(o) => get_obj(fields_view(fs@), k@) == Some(opt_json(o)),
            Err(_) => get_obj(fields_view(fs@), k@) is None,
        },
{
    match get_field(fs, k) {
        None | Some(Json::Null) => Ok(None),
        Some(j) => match j {
            Json::Obj(_) => Ok(Some(j.deep_copy())),
            _ => Err(field_err("invalid type for field", k)),
        },
    }
}

pub fn role_from_str(s: &str) -> (r: Option<Role>)
    ensures
        r == role_of(s@),
{
    if crate::json::str_eq(s, "voice") {
        Some(Role::Voice)
    } else if crate::json::str_eq(s, "sfx") {
        Some(Role::Sfx)
    } else if crate::json::str_eq(s, "music") {
        Some(Role::Music)
    } else if crate::json::str_eq(s, "ambient") {
        Some(Role::Ambient)
    } else {
        None
    }
}

fn read_role(fs: &Vec<(String, Json)>, k: &str) -> (r: Result<Option<Role>, String>)
    ensures
        match r {
            Ok(o) => get_role(fields_view(fs@), k@) == Some(o),
            Err(_) => get_role(fields_view(fs@), k@) is None,
        },
{
    match get_field(fs, k) {
        None | Some(Json::Null) => Ok(None),
        Some(Json::Str(s)) => match role_from_str(s.as_str()) {
            Some(r) => Ok(Some(r)),
            None => Err(field_err("unknown variant for field", k)),
        },
        Some(_) => Err(field_err("invalid type for field", k)),
    }
}

/// Reads a clip from its document form.
pub fn clip_from(j: &Json) -> (r: Result<Clip, String>)
    ensures
        match r {
            Ok(c) => clip_from_json(j@) == Some(c@),
            Err(_) => clip_from_json(j@) is None,
        },
{
    match j {
        Json::Obj(fs) => {
            proof {
                crate::json::lemma_fields_view(*fs);
            }
            let id = read_req_str(fs, "id")?;
            let start_ms = read_req_u64(fs, "startMs")?;
            let duration_ms = read_req_u64(fs, "durationMs")?;
            let source_hash = read_str(fs, "sourceHash")?;
            let src = read_str(fs, "src")?;
            let source_in_ms = read_u64(fs, "sourceInMs")?;
            let speed = read_num(fs, "speed")?;
            let volume = read_num(fs, "volume")?;
            let role = read_role(fs, "role")?;
            let text = read_str(fs, "text")?;
            let position = read_obj(fs, "position")?;
            let scale = read_num(fs, "scale")?;
            let reframe = read_obj(fs, "reframe")?;
            let motion = read_obj(fs, "motion")?;
            let transition = read_obj(fs, "transition")?;
            let overlay = read_obj(fs, "overlay")?;
            let opacity = read_num(fs, "opacity")?;
            let fade = read_obj(fs, "fade")?;
            let loop_ = read_bool(fs, "loop")?;
            let punch_in = read_obj(fs, "punchIn")?;
            let freeze_ms = read_u64(fs, "freezeMs")?;
            Ok(Clip {
                id,
                source_hash,
                src,
                start_ms,
                duration_ms,
                source_in_ms,
                speed,
                volume,
                role,
                text,
                position,
                scale,
                reframe,
                motion,
                transition,
                overlay,
                opacity,
                fade,
                loop_,
                punch_in,
                freeze_ms,
            })
        },
        _ => Err("invalid type: a clip must be an object".to_string()),
    }
}

} // verus!

verus! {

proof fn lemma_clips_from_prefix(a: Seq<JVal>, i: int)
    requires
        0 <= i <= a.len(),
        clips_from(a.take(i)) is None,
    ensures
        clips_from(a) is None,
    decreases a.len() - i,
{
    if i < a.len() {
        assert(a.take(i + 1).drop_last() =~= a.take(i));
        lemma_clips_from_prefix(a, i + 1);
    } else {
        assert(a.take(i) =~= a);
    }
}

proof fn lemma_tracks_from_prefix(a: Seq<JVal>, i: int)
    requires
        0 <= i <= a.len(),
        tracks_from(a.take(i)) is None,
    ensures
        tracks_from(a) is None,
    decreases a.len() - i,
{
    if i < a.len() {
        assert(a.take(i + 1).drop_last() =~= a.take(i));
        lemma_tracks_from_prefix(a, i + 1);
    } else {
        assert(a.take(i) =~= a);
    }
}

proof fn lemma_markers_from_prefix(a: Seq<JVal>, i: int)
    requires
        0 <= i <= a.len(),
        markers_from(a.take(i)) is None,
    ensures
        markers_from(a) is None,
    decreases a.len() - i,
{
    if i < a.len() {
        assert(a.take(i + 1).drop_last() =~= a.take(i));
        lemma_markers_from_prefix(a, i + 1);
    } else {
        assert(a.take(i) =~= a);
    }
}

proof fn lemma_backends_from_prefix(a: Seq<JVal>, i: int)
    requires
        0 <= i <= a.len(),
        backends_from(a.take(i)) is None,
    ensures
        backends_from(a) is None,
    decreases a.len() - i,
{
    if i < a.len() {
        assert(a.take(i + 1).drop_last() =~= a.take(i));
        lemma_backends_from_prefix(a, i + 1);
    } else {
        assert(a.take(i) =~= a);
    }
}

proof fn lemma_ratios_from_prefix(a: Seq<JVal>, i: int)
    requires
        0 <= i <= a.len(),
        ratios_from(a.take(i)) is None,
    ensures
        ratios_from(a) is None,
    decreases a.len() - i,
{
    if i < a.len() {
        assert(a.take(i + 1).drop_last() =~= a.take(i));
        lemma_ratios_from_prefix(a, i + 1);
    } else {
        assert(a.take(i) =~= a);
    }
}

/// Reads a list of clips.
pub fn clips_from_json_arr(a: &Vec<Json>) -> (r: Result<Vec<Clip>, String>)
    ensures
        match r {
            Ok(v) => clips_from(crate::json::arr_view(a@)) == Some(clips_view(v@)),
            Err(_) => clips_from(crate::json::arr_view(a@)) is None,
        },
{
    let ghost av = crate::json::arr_view(a@);
    let mut out: Vec<Clip> = Vec::new();
    let mut i: usize = 0;
    while i < a.len()
        invariant
            i <= a.len(),
            av == crate::json::arr_view(a@),
            clips_from(av.take(i as int)) == Some(clips_view(out@)),
        decreases a.len() - i,
    {
        assert(av.take(i + 1).drop_last() =~= av.take(i as int));
        assert(av.take(i + 1).last() == a@[i as int]@);
        let c = match clip_from(&a[i]) {
            Ok(x) => x,
            Err(e) => {
                proof {
                    lemma_clips_from_prefix(av, i + 1);
                }
                return Err(e);
            },
        };
        let ghost prev = out@;
        out.push(c);
        assert(clips_view(out@) =~= clips_view(prev).push(c@));
        i += 1;
    }
    assert(av.take(a.len() as int) =~= av);
    Ok(out)
}

pub fn kind_from_str(s: &str) -> (r: Option<TrackKind>)
    ensures
        r == kind_of(s@),
{
    if crate::json::str_eq(s, "video") {
        Some(TrackKind::Video)
    } else if crate::json::str_eq(s, "audio") {
        Some(TrackKind::Audio)
    } else if crate::json::str_eq(s, "text") {
        Some(TrackKind::Text)
    } else {
        None
    }
}

/// Reads a track from its document form.
pub fn track_from(j: &Json) -> (r: Result<Track, String>)
    ensures
        match r {
            Ok(t) => track_from_json(j@) == Some(t@),
            Err(_) => track_from_json(j@) is None,
        },
{
    match j {
        Json::Obj(fs) => {
            proof {
                crate::json::lemma_fields_view(*fs);
            }
            let id = read_req_str(fs, "id")?;
            let kind = match get_field(fs, "kind") {
                Some(Json::Str(s)) => match kind_from_str(s.as_str()) {
                    Some(k) => k,
                    None => {
                        return Err("unknown variant for field `kind`".to_string());
                    },
                },
                Some(_) => {
                    return Err("invalid type for field `kind`".to_string());
                },
                None => {
                    return Err("missing field `kind`".to_string());
                },
            };
            let name = read_str(fs, "name")?;
            let clips = match get_field(fs, "clips") {
                None => {
                    let v: Vec<Clip> = Vec::new();
                    assert(clips_view(v@) =~= Seq::<ClipV>::empty());
                    v
                },
                Some(Json::Arr(a)) => {
                    proof {
                        crate::json::lemma_arr_view(*a);
                    }
                    clips_from_json_arr(a)?
                },
                Some(_) => {
                    return Err("invalid type for field `clips`".to_string());
                },
            };
            Ok(Track { id, kind, name, clips })
        },
        _ => Err("invalid type: a track must be an object".to_string()),
    }
}

fn tracks_from_json_arr(a: &Vec<Json>) -> (r: Result<Vec<Track>, String>)
    ensures
        match r {
            Ok(v) => tracks_from(crate::json::arr_view(a@)) == Some(tracks_view(v@)),
            Err(_) => tracks_from(crate::json::arr_view(a@)) is None,
        },
{
    let ghost av = crate::json::arr_view(a@);
    let mut out: Vec<Track> = Vec::new();
    let mut i: usize = 0;
    while i < a.len()
        invariant
            i <= a.len(),
            av == crate::json::arr_view(a@),
            tracks_from(av.take(i as int)) == Some(tracks_view(out@)),
        decreases a.len() - i,
    {
        assert(av.take(i + 1).drop_last() =~= av.take(i as int));
        assert(av.take(i + 1).last() == a@[i as int]@);
        let t = match track_from(&a[i]) {
            Ok(x) => x,
            Err(e) => {
                proof {
                    lemma_tracks_from_prefix(av, i + 1);
                }
                return Err(e);
            },
        };
        let ghost prev = out@;
        out.push(t);
        assert(tracks_view(out@) =~= tracks_view(prev).push(t@));
        i += 1;
    }
    assert(av.take(a.len() as int) =~= av);
    Ok(out)
}

fn marker_from_json(j: &Json) -> (r: Result<Marker, String>)
    ensures
        match r {
            Ok(m) => marker_from(j@) == Some(m@),
            Err(_) => marker_from(j@) is None,
        },
{
    match j {
        Json::Obj(fs) => {
            proof {
                crate::json::lemma_fields_view(*fs);
            }
            let ms = read_req_u64(fs, "ms")?;
            let label = read_req_str(fs, "label")?;
            Ok(Marker { ms, label })
        },
        _ => Err("invalid type: a marker must be an object".to_string()),
    }
}

fn markers_from_json_arr(a: &Vec<Json>) -> (r: Result<Vec<Marker>, String>)
    ensures
        match r {
            Ok(v) => markers_from(crate::json::arr_view(a@)) == Some(markers_view(v@)),
            Err(_) => markers_from(crate::json::arr_view(a@)) is None,
        },
{
    let ghost av = crate::json::arr_view(a@);
    let mut out: Vec<Marker> = Vec::new();
    let mut i: usize = 0;
    while i < a.len()
        invariant
            i <= a.len(),
            av == crate::json::arr_view(a@),
            markers_from(av.take(i as int)) == Some(markers_view(out@)),
        decreases a.len() - i,
    {
        assert(av.take(i + 1).drop_last() =~= av.take(i as int));
        assert(av.take(i + 1).last() == a@[i as int]@);
        let m = match marker_from_json(&a[i]) {
            Ok(x) => x,
            Err(e) => {
                proof {
                    lemma_markers_from_prefix(av, i + 1);
                }
                return Err(e);
            },
        };
        let ghost prev = out@;
        out.push(m);
        assert(markers_view(out@) =~= markers_view(prev).push(m@));
        i += 1;
    }
    assert(av.take(a.len() as int) =~= av);
    Ok(out)
}

pub fn backend_from_str(s: &str) -> (r: Option<Backend>)
    ensures
        r == backend_of(s@),
{
    if crate::json::str_eq(s, "ffmpeg") {
        Some(Backend::Ffmpeg)
    } else if crate::json::str_eq(s, "jianying") {
        Some(Backend::Jianying)
    } else if crate::json::str_eq(s, "cutforge") {
        Some(Backend::Cutforge)
    } else {
        None
    }
}

pub fn ratio_from_str(s: &str) -> (r: Option<Ratio>)
    ensures
        r == ratio_of(s@),
{
    if crate::json::str_eq(s, "9x16") {
        Some(Ratio::NineBySixteen)
    } else if crate::json::str_eq(s, "3x4") {
        Some(Ratio::ThreeByFour)
    } else if crate::json::str_eq(s, "16x9") {
        Some(Ratio::SixteenByNine)
    } else {
        None
    }
}

fn backends_from_json_arr(a: &Vec<Json>) -> (r: Result<Vec<Backend>, String>)
    ensures
        match r {
            Ok(v) => backends_from(crate::json::arr_view(a@)) == Some(v@),
            Err(_) => backends_from(crate::json::arr_view(a@)) is None,
        },
{
    let ghost av = crate::json::arr_view(a@);
    let mut out: Vec<Backend> = Vec::new();
    let mut i: usize = 0;
    while i < a.len()
        invariant
            i <= a.len(),
            av == crate::json::arr_view(a@),
            backends_from(av.take(i as int)) == Some(out@),
        decreases a.len() - i,
    {
        assert(av.take(i + 1).drop_last() =~= av.take(i as int));
        assert(av.take(i + 1).last() == a@[i as int]@);
        match &a[i] {
            Json::Str(s) => match backend_from_str(s.as_str()) {
                Some(b) => out.push(b),
                None => {
                    proof {
                        lemma_backends_from_prefix(av, i + 1);
                    }
                    return Err("unknown variant in `backends`".to_string());
                },
            },
            _ => {
                proof {
                        lemma_backends_from_prefix(av, i + 1);
                    }
                    return Err("invalid type in `backends`".to_string());
            },
        }
        i += 1;
    }
    assert(av.take(a.len() as int) =~= av);
    Ok(out)
}

fn ratios_from_json_arr(a: &Vec<Json>) -> (r: Result<Vec<Ratio>, String>)
    ensures
        match r {
            Ok(v) => ratios_from(crate::json::arr_view(a@)) == Some(v@),
            Err(_) => ratios_from(crate::json::arr_view(a@)) is None,
        },
{
    let ghost av = crate::json::arr_view(a@);
    let mut out: Vec<Ratio> = Vec::new();
    let mut i: usize = 0;
    while i < a.len()
        invariant
            i <= a.len(),
            av == crate::json::arr_view(a@),
            ratios_from(av.take(i as int)) == Some(out@),
        decreases a.len() - i,
    {
        assert(av.take(i + 1).drop_last() =~= av.take(i as int));
        assert(av.take(i + 1).last() == a@[i as int]@);
        match &a[i] {
            Json::Str(s) => match ratio_from_str(s.as_str()) {
                Some(b) => out.push(b),
                None => {
                    proof {
                        lemma_ratios_from_prefix(av, i + 1);
                    }
                    return Err("unknown variant in `outputs`".to_string());
                },
            },
            _ => {
                proof {
                        lemma_ratios_from_prefix(av, i + 1);
                    }
                    return Err("invalid type in `outputs`".to_string());
            },
        }
        i += 1;
    }
    assert(av.take(a.len() as int) =~= av);
    Ok(out)
}

fn canvas_from_json(j: &Json) -> (r: Result<Canvas, String>)
    ensures
        match r {
            Ok(c) => canvas_from(j@) == Some(c),
            Err(_) => canvas_from(j@) is None,
        },
{
    match j {
        Json::Obj(fs) => {
            proof {
                crate::json::lemma_fields_view(*fs);
            }
            let height = read_req_u32(fs, "height")?;
            let width = read_req_u32(fs, "width")?;
            Ok(Canvas { width, height })
        },
        _ => Err("invalid type: canvas must be an object".to_string()),
    }
}

fn subtitle_from_json(j: &Json) -> (r: Result<Subtitle, String>)
    ensures
        match r {
            Ok(s) => subtitle_from(j@) == Some(s@),
            Err(_) => subtitle_from(j@) is None,
        },
{
    match j {
        Json::Obj(fs) => {
            proof {
                crate::json::lemma_fields_view(*fs);
            }
            let ass = read_str(fs, "ass")?;
            let source = read_str(fs, "source")?;
            let style = read_str(fs, "style")?;
            Ok(Subtitle { ass, source, style })
        },
        _ => Err("invalid type: subtitle must be an object".to_string()),
    }
}

} // verus!

verus! {

/// Reads a project from its document form: absent fields take their
/// defaults, a missing required field or a field of the wrong type is an
/// error, unknown keys are ignored.
pub fn project_from(j: &Json) -> (r: Result<Project, String>)
    ensures
        match r {
            Ok(p) => project_from_json(j@) == Some(p@),
            Err(_) => project_from_json(j@) is None,
        },
{
    match j {
        Json::Obj(fs) => {
            proof {
                crate::json::lemma_fields_view(*fs);
            }
            let version: u8 = match get_field(fs, "version") {
                None => 1,
                Some(Json::Num(JNum::PosInt(n))) => if *n <= 255 {
                    *n as u8
                } else {
                    return Err("number out of range for field `version`".to_string());
                },
                Some(_) => {
                    return Err("invalid type for field `version`".to_string());
                },
            };
            let schema_version = read_str_or(fs, "schemaVersion", "2.0.0")?;
            let slug = read_req_str(fs, "slug")?;
            let fps = read_req_u32(fs, "fps")?;
            let canvas = match get_field(fs, "canvas") {
                Some(c) => canvas_from_json(c)?,
                None => {
                    return Err("missing field `canvas`".to_string());
                },
            };
            let backends = match get_field(fs, "backends") {
                None => {
                    let mut v: Vec<Backend> = Vec::new();
                    v.push(Backend::Ffmpeg);
                    assert(v@ =~= seq![Backend::Ffmpeg]);
                    v
                },
                Some(Json::Arr(a)) => {
                    proof {
                        crate::json::lemma_arr_view(*a);
                    }
                    backends_from_json_arr(a)?
                },
                Some(_) => {
                    return Err("invalid type for field `backends`".to_string());
                },
            };
            let notes = read_str_or(fs, "notes", "notes.json")?;
            let tracks = match get_field(fs, "tracks") {
                None => {
                    let v: Vec<Track> = Vec::new();
                    assert(tracks_view(v@) =~= Seq::<TrackV>::empty());
                    v
                },
                Some(Json::Arr(a)) => {
                    proof {
                        crate::json::lemma_arr_view(*a);
                    }
                    tracks_from_json_arr(a)?
                },
                Some(_) => {
                    return Err("invalid type for field `tracks`".to_string());
                },
            };
            let bgm = read_obj(fs, "bgm")?;
            let outputs = match get_field(fs, "outputs") {
                None | Some(Json::Null) => None,
                Some(Json::Arr(a)) => {
                    proof {
                        crate::json::lemma_arr_view(*a);
                    }
                    Some(ratios_from_json_arr(a)?)
                },
                Some(_) => {
                    return Err("invalid type for field `outputs`".to_string());
                },
            };
            let markers = match get_field(fs, "markers") {
                None | Some(Json::Null) => None,
                Some(Json::Arr(a)) => {
                    proof {
                        crate::json::lemma_arr_view(*a);
                    }
                    Some(markers_from_json_arr(a)?)
                },
                Some(_) => {
                    return Err("invalid type for field `markers`".to_string());
                },
            };
            let subtitle = match get_field(fs, "subtitle") {
                None | Some(Json::Null) => None,
                Some(v) => Some(subtitle_from_json(v)?),
            };
            let join_crossfade_ms = read_num(fs, "joinCrossfadeMs")?;
            Ok(Project {
                version,
                schema_version,
                slug,
                fps,
                canvas,
                backends,
                notes,
                tracks,
                bgm,
                outputs,
                markers,
                subtitle,
                join_crossfade_ms,
            })
        },
        _ => Err("invalid type: a project must be an object".to_string()),
    }
}

} // verus!
