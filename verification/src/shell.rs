//! Projections for display shells: what a viewer shows is computed here, so
//! that no shell holds the truth or does timeline arithmetic of its own. The
//! shells hand in parsed documents and get documents back.

use vstd::prelude::*;
use vstd::multiset::Multiset;
use crate::json::{Json, JNum, JVal, NumV, arr_view, fields_view, seq_lt, str_lt, str_eq};
use crate::dispatch::{arg, as_str, as_u64, get_arg};
use crate::model::{Project, ProjectV, TrackV, ClipV};
use crate::codec::{project_from, project_from_json, project_json, project_to_json};
use crate::migrate::{migratable, migrate_spec, is_migratable, migrate_project_v1_to_v2};
use crate::mcp::{ends_fit, envelope, envelope_spec};
use crate::notes::{NotesStore, NoteV, NoteState, note_keeps, notes_view};
use crate::oplog::strings_view;
use crate::engine::timeline_upto;
use crate::model::clip_end_spec;

verus! {

// ---- op-log summaries ----

/// The revision an op document carries; 0 where it has none.
pub open spec fn rev_key(j: JVal) -> u64 {
    match as_u64(arg(j, "rev"@)) {
        Some(n) => n,
        None => 0,
    }
}

/// `s` with `x` put after every item whose revision is not above its own.
pub open spec fn insert_by_rev(s: Seq<JVal>, x: JVal) -> Seq<JVal>
    decreases s.len(),
{
    if s.len() == 0 {
        seq![x]
    } else if rev_key(s.last()) <= rev_key(x) {
        s.push(x)
    } else {
        insert_by_rev(s.drop_last(), x).push(s.last())
    }
}

/// The items ordered by revision; items with equal revisions keep their
/// order (a stable sort).
pub open spec fn sort_by_rev_spec(s: Seq<JVal>) -> Seq<JVal>
    decreases s.len(),
{
    if s.len() == 0 {
        seq![]
    } else {
        insert_by_rev(sort_by_rev_spec(s.drop_last()), s.last())
    }
}

pub open spec fn rev_sorted(s: Seq<JVal>) -> bool {
    forall|i: int, j: int| 0 <= i < j < s.len() ==> rev_key(#[trigger] s[i]) <= rev_key(#[trigger] s[j])
}

proof fn lemma_insert_by_rev(s: Seq<JVal>, x: JVal)
    ensures
        rev_sorted(s) ==> rev_sorted(insert_by_rev(s, x)),
        insert_by_rev(s, x).to_multiset() == s.to_multiset().insert(x),
        insert_by_rev(s, x).len() == s.len() + 1,
        forall|i: int| 0 <= i < insert_by_rev(s, x).len() ==> (#[trigger] insert_by_rev(s, x)[i] == x || s.contains(
            insert_by_rev(s, x)[i],
        )),
    decreases s.len(),
{
    broadcast use vstd::seq_lib::group_seq_properties;
    if s.len() == 0 {
        assert(seq![x] =~= Seq::<JVal>::empty().push(x));
    } else if rev_key(s.last()) <= rev_key(x) {
    } else {
        let p = s.drop_last();
        lemma_insert_by_rev(p, x);
        let q = insert_by_rev(p, x);
        assert(s =~= p.push(s.last()));
        assert forall|i: int| 0 <= i < q.push(s.last()).len() implies #[trigger] q.push(s.last())[i] == x || s.contains(
            q.push(s.last())[i],
        ) by {
            if i < q.len() {
                if q[i] != x {
                    let k = choose|k: int| 0 <= k < p.len() && p[k] == q[i];
                    assert(s[k] == p[k]);
                }
            } else {
                assert(s[s.len() - 1] == s.last());
            }
        }
        if rev_sorted(s) {
            assert forall|i: int, j: int| 0 <= i < j < q.push(s.last()).len() implies rev_key(
                #[trigger] q.push(s.last())[i],
            ) <= rev_key(#[trigger] q.push(s.last())[j]) by {
                if j == q.len() {
                    let y = q[i];
                    if y == x {
                    } else {
                        let k = choose|k: int| 0 <= k < p.len() && p[k] == y;
                        assert(s[k] == y);
                        assert(s[s.len() - 1] == s.last());
                    }
                } else {
                    assert(rev_sorted(p)) by {
                        assert forall|a: int, b: int| 0 <= a < b < p.len() implies rev_key(#[trigger] p[a]) <= rev_key(
                            #[trigger] p[b],
                        ) by {
                            assert(s[a] == p[a] && s[b] == p[b]);
                        }
                    }
                }
            }
        }
    }
}

/// Sorting by revision keeps every item (a permutation) and gives an order
/// in which revisions never go down.
pub proof fn law_sort_by_rev(s: Seq<JVal>)
    ensures
        rev_sorted(sort_by_rev_spec(s)),
        sort_by_rev_spec(s).to_multiset() == s.to_multiset(),
    decreases s.len(),
{
    broadcast use vstd::seq_lib::group_seq_properties;
    if s.len() == 0 {
        assert(sort_by_rev_spec(s) =~= Seq::<JVal>::empty());
    } else {
        law_sort_by_rev(s.drop_last());
        lemma_insert_by_rev(sort_by_rev_spec(s.drop_last()), s.last());
        assert(s =~= s.drop_last().push(s.last()));
    }
}

fn rev_of(j: &Json) -> (r: u64)
    ensures
        r == rev_key(j@),
{
    match get_arg(j, "rev") {
        Some(Json::Num(JNum::PosInt(n))) => *n,
        _ => 0,
    }
}

/// The op documents ordered by revision, stably.
pub fn sort_by_rev(ops: &Vec<Json>) -> (r: Vec<Json>)
    ensures
        arr_view(r@) == sort_by_rev_spec(arr_view(ops@)),
{
    let ghost src = arr_view(ops@);
    let mut out: Vec<Json> = Vec::new();
    let mut i: usize = 0;
    while i < ops.len()
        invariant
            i <= ops.len(),
            src == arr_view(ops@),
            src.len() == ops.len(),
            arr_view(out@) == sort_by_rev_spec(src.take(i as int)),
        decreases ops.len() - i,
    {
        assert(src.take(i + 1).drop_last() =~= src.take(i as int));
        assert(src[i as int] == ops@[i as int]@);
        let x = ops[i].deep_copy();
        let kx = rev_of(&x);
        let ghost s = arr_view(out@);
        let mut pos = out.len();
        assert(s.take(pos as int) =~= s);
        assert(insert_by_rev(s, x@) + s.skip(pos as int) =~= insert_by_rev(s, x@));
        while pos > 0 && rev_of(&out[pos - 1]) > kx
            invariant
                pos <= out.len(),
                s == arr_view(out@),
                s.len() == out.len(),
                kx == rev_key(x@),
                insert_by_rev(s, x@) == insert_by_rev(s.take(pos as int), x@) + s.skip(pos as int),
            decreases pos,
        {
            proof {
                let t = s.take(pos as int);
                assert(t.last() == s[pos - 1]);
                assert(s[pos - 1] == out@[pos - 1]@);
                assert(t.drop_last() =~= s.take(pos - 1));
                assert(insert_by_rev(t, x@) == insert_by_rev(s.take(pos - 1), x@).push(s[pos - 1]));
                assert(insert_by_rev(s.take(pos - 1), x@).push(s[pos - 1]) + s.skip(pos as int) =~= insert_by_rev(
                    s.take(pos - 1),
                    x@,
                ) + s.skip(pos - 1));
            }
            pos = pos - 1;
        }
        proof {
            let t = s.take(pos as int);
            if pos > 0 {
                assert(t.last() == s[pos - 1]);
                assert(s[pos - 1] == out@[pos - 1]@);
                assert(insert_by_rev(t, x@) == t.push(x@));
            } else {
                assert(t =~= Seq::<JVal>::empty());
                assert(insert_by_rev(t, x@) == seq![x@]);
            }
        }
        let ghost before = out@;
        out.insert(pos, x);
        proof {
            assert(arr_view(out@) =~= s.take(pos as int).push(x@) + s.skip(pos as int));
            if pos > 0 {
                assert(insert_by_rev(s.take(pos as int), x@) == s.take(pos as int).push(x@));
            } else {
                assert(s.take(0).push(x@) =~= seq![x@]);
            }
        }
        i += 1;
    }
    assert(src.take(ops.len() as int) =~= src);
    out
}

// ---- the order of strings ----

proof fn lemma_lt_irrefl(a: Seq<char>)
    ensures
        !seq_lt(a, a),
    decreases a.len(),
{
    if a.len() > 0 {
        lemma_lt_irrefl(a.drop_first());
    }
}

proof fn lemma_lt_asym(a: Seq<char>, b: Seq<char>)
    ensures
        seq_lt(a, b) ==> !seq_lt(b, a),
    decreases a.len(),
{
    if a.len() > 0 && b.len() > 0 && a[0] == b[0] {
        lemma_lt_asym(a.drop_first(), b.drop_first());
    }
}

proof fn lemma_lt_total(a: Seq<char>, b: Seq<char>)
    ensures
        a != b ==> seq_lt(a, b) || seq_lt(b, a),
    decreases a.len(),
{
    if a.len() == 0 && b.len() == 0 {
        assert(a =~= b);
    } else if a.len() > 0 && b.len() > 0 && a[0] == b[0] {
        lemma_lt_total(a.drop_first(), b.drop_first());
        if a.drop_first() == b.drop_first() {
            assert(a =~= seq![a[0]] + a.drop_first());
            assert(b =~= seq![b[0]] + b.drop_first());
        }
    } else if a.len() > 0 && b.len() > 0 {
        vstd::utf8::char_u32_cast(a[0], a[0] as u32);
        vstd::utf8::char_u32_cast(b[0], b[0] as u32);
    }
}

proof fn lemma_lt_trans(a: Seq<char>, b: Seq<char>, c: Seq<char>)
    requires
        seq_lt(a, b),
        seq_lt(b, c),
    ensures
        seq_lt(a, c),
    decreases a.len(),
{
    if a.len() > 0 && b.len() > 0 && c.len() > 0 && a[0] == b[0] && b[0] == c[0] {
        lemma_lt_trans(a.drop_first(), b.drop_first(), c.drop_first());
    }
}

// ---- counts by actor ----

/// The actor kind an op document names; "?" where it names none.
pub open spec fn actor_kind_key(j: JVal) -> Seq<char> {
    match arg(j, "actor"@) {
        Some(a) => match as_str(arg(a, "kind"@)) {
            Some(k) => k,
            None => "?"@,
        },
        None => "?"@,
    }
}

/// How many of `ops` name the actor kind `k`.
pub open spec fn kind_count(ops: Seq<JVal>, k: Seq<char>) -> nat
    decreases ops.len(),
{
    if ops.len() == 0 {
        0
    } else {
        kind_count(ops.drop_last(), k) + if actor_kind_key(ops.last()) == k { 1nat } else { 0nat }
    }
}

/// The counts by actor kind: one entry per kind that occurs, in string
/// order, each with the number of ops of that kind.
pub open spec fn counts_of(fs: Seq<(Seq<char>, u64)>, ops: Seq<JVal>) -> bool {
    &&& forall|i: int, j: int| 0 <= i < j < fs.len() ==> seq_lt(#[trigger] fs[i].0, #[trigger] fs[j].0)
    &&& forall|i: int| 0 <= i < fs.len() ==> #[trigger] fs[i].1 == kind_count(ops, fs[i].0) && fs[i].1 >= 1
    &&& forall|j: int| 0 <= j < ops.len() ==> exists|i: int| 0 <= i < fs.len() && #[trigger] fs[i].0 == actor_kind_key(#[trigger] ops[j])
}

pub open spec fn count_entries(v: Seq<(String, u64)>) -> Seq<(Seq<char>, u64)> {
    v.map_values(|e: (String, u64)| (e.0@, e.1))
}

proof fn lemma_kind_count_le(ops: Seq<JVal>, k: Seq<char>)
    ensures
        kind_count(ops, k) <= ops.len(),
    decreases ops.len(),
{
    if ops.len() > 0 {
        lemma_kind_count_le(ops.drop_last(), k);
    }
}

proof fn lemma_kind_count_absent(ops: Seq<JVal>, k: Seq<char>)
    requires
        forall|j: int| 0 <= j < ops.len() ==> actor_kind_key(#[trigger] ops[j]) != k,
    ensures
        kind_count(ops, k) == 0,
    decreases ops.len(),
{
    if ops.len() > 0 {
        let p = ops.drop_last();
        assert forall|j: int| 0 <= j < p.len() implies actor_kind_key(#[trigger] p[j]) != k by {
            assert(p[j] == ops[j]);
        }
        lemma_kind_count_absent(p, k);
        assert(ops[ops.len() - 1] == ops.last());
    }
}

fn kind_of(j: &Json) -> (r: String)
    ensures
        r@ == actor_kind_key(j@),
{
    match get_arg(j, "actor") {
        Some(a) => match get_arg(a, "kind") {
            Some(Json::Str(k)) => k.clone(),
            _ => String::from_str("?"),
        },
        None => String::from_str("?"),
    }
}

/// The number of op documents per actor kind, kinds in string order.
pub fn actor_counts(ops: &Vec<Json>) -> (r: Vec<(String, u64)>)
    ensures
        counts_of(count_entries(r@), arr_view(ops@)),
{
    let ghost src = arr_view(ops@);
    let mut fs: Vec<(String, u64)> = Vec::new();
    let mut n: usize = 0;
    while n < ops.len()
        invariant
            n <= ops.len(),
            src == arr_view(ops@),
            src.len() == ops.len(),
            counts_of(count_entries(fs@), src.take(n as int)),
        decreases ops.len() - n,
    {
        let ghost p = src.take(n as int);
        let ghost q = src.take(n + 1);
        assert(q.drop_last() =~= p);
        assert(src[n as int] == ops@[n as int]@);
        assert(q.last() == src[n as int]);
        let k = kind_of(&ops[n]);
        let ghost e = count_entries(fs@);
        proof {
            lemma_kind_count_le(p, k@);
        }
        let mut i: usize = 0;
        while i < fs.len() && str_lt(fs[i].0.as_str(), k.as_str())
            invariant
                i <= fs.len(),
                e == count_entries(fs@),
                e.len() == fs.len(),
                forall|j: int| 0 <= j < i ==> seq_lt(#[trigger] e[j].0, k@),
            decreases fs.len() - i,
        {
            assert(e[i as int].0 == fs@[i as int].0@);
            i += 1;
        }
        if i < fs.len() && str_eq(fs[i].0.as_str(), k.as_str()) {
            proof {
                assert(e[i as int].0 == fs@[i as int].0@);
                lemma_kind_count_le(p, e[i as int].0);
                assert(e[i as int].1 <= p.len());
            }
            let c = fs[i].1;
            let name = fs[i].0.clone();
            fs.set(i, (name, c + 1));
            proof {
                let e2 = count_entries(fs@);
                assert forall|a: int| 0 <= a < e2.len() implies #[trigger] e2[a].1 == kind_count(q, e2[a].0) && e2[a].1 >= 1 by {
                    assert(e2[a].0 == e[a].0);
                    if a != i {
                        if a < i {
                            assert(seq_lt(e[a].0, e[i as int].0));
                        } else {
                            assert(seq_lt(e[i as int].0, e[a].0));
                            lemma_lt_asym(e[i as int].0, e[a].0);
                        }
                        lemma_lt_irrefl(e[a].0);
                        assert(e[a].0 != k@);
                    }
                }
                assert forall|j: int| 0 <= j < q.len() implies exists|a: int| 0 <= a < e2.len() && #[trigger] e2[a].0 == actor_kind_key(#[trigger] q[j]) by {
                    if j < p.len() {
                        assert(q[j] == p[j]);
                        let a = choose|a: int| 0 <= a < e.len() && #[trigger] e[a].0 == actor_kind_key(p[j]);
                        assert(e2[a].0 == e[a].0);
                    } else {
                        assert(e2[i as int].0 == k@);
                    }
                }
                assert forall|a: int, b: int| 0 <= a < b < e2.len() implies seq_lt(#[trigger] e2[a].0, #[trigger] e2[b].0) by {
                    assert(e2[a].0 == e[a].0 && e2[b].0 == e[b].0);
                }
            }
        } else {
            proof {
                if i < fs.len() {
                    assert(e[i as int].0 == fs@[i as int].0@);
                    assert(!seq_lt(e[i as int].0, k@));
                    assert(e[i as int].0 != k@);
                    lemma_lt_total(e[i as int].0, k@);
                    assert(seq_lt(k@, e[i as int].0));
                }
                assert forall|a: int| 0 <= a < e.len() implies #[trigger] e[a].0 != k@ by {
                    lemma_lt_irrefl(k@);
                    if a < i {
                        lemma_lt_asym(e[a].0, k@);
                    } else {
                        if a > i {
                            lemma_lt_trans(k@, e[i as int].0, e[a].0);
                        }
                        lemma_lt_asym(k@, e[a].0);
                    }
                }
                assert forall|j: int| 0 <= j < p.len() implies actor_kind_key(#[trigger] p[j]) != k@ by {
                    let a = choose|a: int| 0 <= a < e.len() && #[trigger] e[a].0 == actor_kind_key(p[j]);
                }
                lemma_kind_count_absent(p, k@);
            }
            let ghost kv = k@;
            fs.insert(i, (k, 1));
            proof {
                let e2 = count_entries(fs@);
                assert(e2 =~= e.take(i as int).push((kv, 1u64)) + e.skip(i as int));
                assert forall|a: int| 0 <= a < e2.len() implies #[trigger] e2[a].1 == kind_count(q, e2[a].0) && e2[a].1 >= 1 by {
                    if a < i {
                        assert(e2[a] == e[a]);
                    } else if a > i {
                        assert(e2[a] == e[a - 1]);
                    }
                }
                assert forall|j: int| 0 <= j < q.len() implies exists|a: int| 0 <= a < e2.len() && #[trigger] e2[a].0 == actor_kind_key(#[trigger] q[j]) by {
                    if j < p.len() {
                        assert(q[j] == p[j]);
                        let a = choose|a: int| 0 <= a < e.len() && #[trigger] e[a].0 == actor_kind_key(p[j]);
                        if a < i {
                            assert(e2[a] == e[a]);
                        } else {
                            assert(e2[a + 1] == e[a]);
                        }
                    } else {
                        assert(e2[i as int].0 == kv);
                    }
                }
                assert forall|a: int, b: int| 0 <= a < b < e2.len() implies seq_lt(#[trigger] e2[a].0, #[trigger] e2[b].0) by {
                    if b < i {
                        assert(e2[a] == e[a] && e2[b] == e[b]);
                    } else if b == i {
                        assert(e2[a] == e[a]);
                    } else if a == i {
                        assert(e2[b] == e[b - 1]);
                        if b - 1 > i {
                            lemma_lt_trans(kv, e[i as int].0, e[b - 1].0);
                        }
                    } else if a < i {
                        assert(e2[a] == e[a] && e2[b] == e[b - 1]);
                        if b - 1 > a {
                        }
                    } else {
                        assert(e2[a] == e[a - 1] && e2[b] == e[b - 1]);
                    }
                }
            }
        }
        n += 1;
    }
    assert(src.take(ops.len() as int) =~= src);
    fs
}

pub open spec fn counts_json(c: Seq<(Seq<char>, u64)>) -> JVal {
    JVal::Obj(c.map_values(|e: (Seq<char>, u64)| (e.0, JVal::Num(NumV::PosInt(e.1)))))
}

/// The op-log summary: counts by actor kind, the ops ordered by revision,
/// and their number.
pub open spec fn summary_json(c: Seq<(Seq<char>, u64)>, ops: Seq<JVal>) -> JVal {
    JVal::Obj(
        seq![
            ("byActor"@, counts_json(c)),
            ("ops"@, JVal::Arr(sort_by_rev_spec(ops))),
            ("total"@, JVal::Num(NumV::PosInt(ops.len() as u64))),
        ],
    )
}

/// The summary of op documents for a history panel.
pub fn oplog_summary(ops: &Vec<Json>) -> (r: Json)
    ensures
        exists|c: Seq<(Seq<char>, u64)>| counts_of(c, arr_view(ops@)) && r@ == summary_json(c, arr_view(ops@)),
{
    let counts = actor_counts(ops);
    let ghost c = count_entries(counts@);
    let mut fs: Vec<(String, Json)> = Vec::new();
    let mut i: usize = 0;
    while i < counts.len()
        invariant
            i <= counts.len(),
            c == count_entries(counts@),
            c.len() == counts.len(),
            fields_view(fs@) == c.take(i as int).map_values(|e: (Seq<char>, u64)| (e.0, JVal::Num(NumV::PosInt(e.1)))),
        decreases counts.len() - i,
    {
        let ghost before = fs@;
        fs.push((counts[i].0.clone(), Json::Num(JNum::PosInt(counts[i].1))));
        assert(fields_view(fs@) =~= fields_view(before).push((c[i as int].0, JVal::Num(NumV::PosInt(c[i as int].1)))));
        assert(c.take(i + 1).map_values(|e: (Seq<char>, u64)| (e.0, JVal::Num(NumV::PosInt(e.1)))) =~= c.take(
            i as int,
        ).map_values(|e: (Seq<char>, u64)| (e.0, JVal::Num(NumV::PosInt(e.1)))).push(
            (c[i as int].0, JVal::Num(NumV::PosInt(c[i as int].1))),
        ));
        i += 1;
    }
    assert(c.take(counts.len() as int) =~= c);
    let by_actor = Json::Obj(fs);
    proof {
        crate::json::lemma_fields_view(by_actor->Obj_0);
    }
    let sorted = sort_by_rev(ops);
    let ghost sv = arr_view(sorted@);
    let mut out: Vec<(String, Json)> = Vec::new();
    let ghost bv = by_actor@;
    out.push(("byActor".to_string(), by_actor));
    out.push(("ops".to_string(), Json::Arr(sorted)));
    out.push(("total".to_string(), Json::Num(JNum::PosInt(ops.len() as u64))));
    proof {
        crate::json::lemma_fields_view(out);
        crate::json::lemma_arr_view(out@[1].1->Arr_0);
        assert(fields_view(out@) =~= seq![
            ("byActor"@, counts_json(c)),
            ("ops"@, JVal::Arr(sort_by_rev_spec(arr_view(ops@)))),
            ("total"@, JVal::Num(NumV::PosInt(arr_view(ops@).len() as u64))),
        ]);
    }
    Json::Obj(out)
}

// ---- timeline rows and project views ----

/// The row a shell lays out for clip `c` of track `t`: its id, track, start
/// and end.
pub open spec fn shell_row(t: TrackV, c: ClipV) -> JVal {
    JVal::Obj(
        seq![
            ("endMs"@, JVal::Num(NumV::PosInt((c.start_ms + c.duration_ms) as u64))),
            ("id"@, JVal::Str(c.id)),
            ("startMs"@, JVal::Num(NumV::PosInt(c.start_ms))),
            ("track"@, JVal::Str(t.id)),
        ],
    )
}

pub open spec fn shell_rows(ts: Seq<TrackV>) -> Seq<JVal>
    decreases ts.len(),
{
    if ts.len() == 0 {
        seq![]
    } else {
        shell_rows(ts.drop_last()) + ts.last().clips.map_values(|c: ClipV| shell_row(ts.last(), c))
    }
}

/// The timeline rows of a project, track by track, clips in order.
pub fn timeline_rows(project: &Project) -> (r: Vec<Json>)
    requires
        ends_fit(project@.tracks),
    ensures
        arr_view(r@) == shell_rows(project@.tracks),
{
    let ghost ts = project@.tracks;
    let mut rows: Vec<Json> = Vec::new();
    let mut ti: usize = 0;
    while ti < project.tracks.len()
        invariant
            ts == project@.tracks,
            ends_fit(ts),
            ti <= ts.len(),
            arr_view(rows@) == shell_rows(ts.take(ti as int)),
        decreases ts.len() - ti,
    {
        let t = &project.tracks[ti];
        let ghost tv = ts[ti as int];
        let ghost base = arr_view(rows@);
        assert(tv == t@);
        let mut ci: usize = 0;
        while ci < t.clips.len()
            invariant
                ts == project@.tracks,
                ends_fit(ts),
                ti < ts.len(),
                t == project.tracks@[ti as int],
                tv == ts[ti as int],
                tv == t@,
                ci <= t.clips.len(),
                arr_view(rows@) == base + tv.clips.take(ci as int).map_values(|c: ClipV| shell_row(tv, c)),
            decreases t.clips.len() - ci,
        {
            let c = &t.clips[ci];
            assert(tv.clips[ci as int] == c@);
            assert(ts[ti as int].clips[ci as int].start_ms + ts[ti as int].clips[ci as int].duration_ms <= u64::MAX);
            let mut fs: Vec<(String, Json)> = Vec::new();
            fs.push(("endMs".to_string(), Json::Num(JNum::PosInt(c.start_ms + c.duration_ms))));
            fs.push(("id".to_string(), Json::Str(c.id.clone())));
            fs.push(("startMs".to_string(), Json::Num(JNum::PosInt(c.start_ms))));
            fs.push(("track".to_string(), Json::Str(t.id.clone())));
            proof {
                crate::json::lemma_fields_view(fs);
                assert(fields_view(fs@) =~= shell_row(tv, c@)->Obj_0);
            }
            let ghost before = rows@;
            rows.push(Json::Obj(fs));
            assert(arr_view(rows@) =~= arr_view(before).push(shell_row(tv, tv.clips[ci as int])));
            assert(tv.clips.take(ci + 1).map_values(|c: ClipV| shell_row(tv, c)) =~= tv.clips.take(ci as int).map_values(
                |c: ClipV| shell_row(tv, c),
            ).push(shell_row(tv, tv.clips[ci as int])));
            ci += 1;
        }
        assert(tv.clips.take(t.clips.len() as int) =~= tv.clips);
        assert(ts.take(ti + 1).drop_last() =~= ts.take(ti as int));
        ti += 1;
    }
    assert(ts.take(ts.len() as int) =~= ts);
    rows
}

/// What a document opens as: the project it decodes to, else, for a
/// document the upgrade accepts, the project its upgrade decodes to.
pub open spec fn open_spec(v: JVal) -> Option<ProjectV> {
    match project_from_json(v) {
        Some(p) => Some(p),
        None => if migratable(v) {
            project_from_json(migrate_spec(v))
        } else {
            None
        },
    }
}

/// Opens a project document, upgrading an old one.
pub fn open_document(v: &Json) -> (r: Result<Project, String>)
    ensures
        match r {
            Ok(p) => open_spec(v@) == Some(p@),
            Err(_) => open_spec(v@) is None,
        },
{
    match project_from(v) {
        Ok(p) => Ok(p),
        Err(e) => {
            if is_migratable(v) {
                let m = migrate_project_v1_to_v2(v);
                project_from(&m)
            } else {
                Err(e)
            }
        },
    }
}

/// The view a shell opens on: the project, at revision 0.
pub fn project_view(p: &Project) -> (r: Json)
    ensures
        r@ == JVal::Obj(seq![("project"@, project_json(p@)), ("rev"@, JVal::Num(NumV::PosInt(0)))]),
{
    let mut fs: Vec<(String, Json)> = Vec::new();
    fs.push(("project".to_string(), project_to_json(p)));
    fs.push(("rev".to_string(), Json::Num(JNum::PosInt(0))));
    proof {
        crate::json::lemma_fields_view(fs);
        assert(fields_view(fs@) =~= seq![("project"@, project_json(p@)), ("rev"@, JVal::Num(NumV::PosInt(0)))]);
    }
    Json::Obj(fs)
}

/// The contract check of a document, as an answer: passed where it opens,
/// else refused with the reason.
pub fn validate_answer(v: &Json) -> (r: Json)
    ensures
        open_spec(v@) is Some ==> r@ == envelope_spec(true, "OK"@, "通过 v2 契约"@, JVal::Obj(seq![])),
        open_spec(v@) is None ==> exists|m: Seq<char>|
            r@ == envelope_spec(
                false,
                "SCHEMA_INVALID"@,
                m,
                JVal::Obj(seq![("errors"@, JVal::Arr(seq![JVal::Str(m)]))]),
            ),
{
    match open_document(v) {
        Ok(_) => {
            let data = Json::Obj(Vec::new());
            proof {
                crate::json::lemma_fields_view(data->Obj_0);
                assert(fields_view(data->Obj_0@) =~= Seq::<(Seq<char>, JVal)>::empty());
            }
            envelope(true, "OK", "通过 v2 契约", data)
        },
        Err(m) => {
            let mut errs: Vec<Json> = Vec::new();
            errs.push(Json::Str(m.clone()));
            let mut fs: Vec<(String, Json)> = Vec::new();
            let ghost mv = m@;
            proof {
                crate::json::lemma_arr_view(errs);
                assert(arr_view(errs@) =~= seq![JVal::Str(mv)]);
            }
            fs.push(("errors".to_string(), Json::Arr(errs)));
            proof {
                crate::json::lemma_fields_view(fs);
                assert(fields_view(fs@) =~= seq![("errors"@, JVal::Arr(seq![JVal::Str(mv)]))]);
            }
            envelope(false, "SCHEMA_INVALID", m.as_str(), Json::Obj(fs))
        },
    }
}

// ---- notes panel ----

/// How many notes are in state `st`.
pub open spec fn state_count(ns: Seq<NoteV>, st: NoteState) -> nat {
    ns.filter(|n: NoteV| note_keeps(n, Some(st), None)).len()
}

/// The counts a notes panel shows: per state, and in all.
pub open spec fn note_counts_spec(ns: Seq<NoteV>) -> JVal {
    JVal::Obj(
        seq![
            ("open"@, JVal::Num(NumV::PosInt(state_count(ns, NoteState::Open) as u64))),
            ("orphan"@, JVal::Num(NumV::PosInt(state_count(ns, NoteState::Orphan) as u64))),
            ("rejected"@, JVal::Num(NumV::PosInt(state_count(ns, NoteState::Rejected) as u64))),
            ("resolved"@, JVal::Num(NumV::PosInt(state_count(ns, NoteState::Resolved) as u64))),
            ("total"@, JVal::Num(NumV::PosInt(ns.len() as u64))),
        ],
    )
}

fn count_state(store: &NotesStore, st: NoteState) -> (r: u64)
    ensures
        r == state_count(store@, st) as u64,
{
    let v = store.filter(Some(st), None);
    proof {
        assert(notes_view(v@).len() == v@.len());
    }
    v.len() as u64
}

/// The counts of a notes panel.
pub fn note_counts(store: &NotesStore) -> (r: Json)
    ensures
        r@ == note_counts_spec(store@),
{
    let mut fs: Vec<(String, Json)> = Vec::new();
    fs.push(("open".to_string(), Json::Num(JNum::PosInt(count_state(store, NoteState::Open)))));
    fs.push(("orphan".to_string(), Json::Num(JNum::PosInt(count_state(store, NoteState::Orphan)))));
    fs.push(("rejected".to_string(), Json::Num(JNum::PosInt(count_state(store, NoteState::Rejected)))));
    fs.push(("resolved".to_string(), Json::Num(JNum::PosInt(count_state(store, NoteState::Resolved)))));
    let total = store.notes().len() as u64;
    fs.push(("total".to_string(), Json::Num(JNum::PosInt(total))));
    proof {
        crate::json::lemma_fields_view(fs);
        assert(fields_view(fs@) =~= note_counts_spec(store@)->Obj_0);
    }
    Json::Obj(fs)
}

/// The ids of the orphaned notes, in order.
pub fn orphan_ids(store: &NotesStore) -> (r: Vec<String>)
    ensures
        strings_view(r@) == store@.filter(|n: NoteV| n.state == NoteState::Orphan).map_values(|n: NoteV| n.id),
{
    let os = store.orphans();
    let ghost ov = notes_view(os@);
    let mut out: Vec<String> = Vec::new();
    let mut i: usize = 0;
    while i < os.len()
        invariant
            i <= os.len(),
            ov == notes_view(os@),
            ov.len() == os.len(),
            strings_view(out@) == ov.take(i as int).map_values(|n: NoteV| n.id),
        decreases os.len() - i,
    {
        let ghost before = out@;
        out.push(os[i].id.clone());
        assert(strings_view(out@) =~= strings_view(before).push(ov[i as int].id));
        assert(ov.take(i + 1).map_values(|n: NoteV| n.id) =~= ov.take(i as int).map_values(|n: NoteV| n.id).push(
            ov[i as int].id,
        ));
        i += 1;
    }
    assert(ov.take(os.len() as int) =~= ov);
    out
}

// ---- the two shells agree ----

/// An engine timeline answer row as a shell row.
pub open spec fn answer_row(x: (Seq<char>, u64, u64, Seq<char>)) -> JVal {
    JVal::Obj(
        seq![
            ("endMs"@, JVal::Num(NumV::PosInt(x.2))),
            ("id"@, JVal::Str(x.0)),
            ("startMs"@, JVal::Num(NumV::PosInt(x.1))),
            ("track"@, JVal::Str(x.3)),
        ],
    )
}

proof fn lemma_timeline_prefix(ts: Seq<TrackV>, t: int)
    requires
        0 <= t < ts.len(),
    ensures
        timeline_upto(ts, t) == timeline_upto(ts.drop_last(), t),
    decreases t,
{
    if t > 0 {
        lemma_timeline_prefix(ts, t - 1);
        assert(ts[t - 1] == ts.drop_last()[t - 1]);
    }
}

/// The shells agree: the rows a display shell computes from a project are
/// the engine's timeline answer for that project, row for row.
pub proof fn law_shell_rows_match_engine(ts: Seq<TrackV>)
    requires
        ends_fit(ts),
    ensures
        shell_rows(ts) == timeline_upto(ts, ts.len() as int).map_values(|x: (Seq<char>, u64, u64, Seq<char>)| answer_row(x)),
    decreases ts.len(),
{
    if ts.len() == 0 {
        assert(timeline_upto(ts, 0).map_values(|x: (Seq<char>, u64, u64, Seq<char>)| answer_row(x)) =~= Seq::<JVal>::empty());
    } else {
        let p = ts.drop_last();
        assert(ends_fit(p)) by {
            assert forall|t: int, c: int| 0 <= t < p.len() && 0 <= c < p[t].clips.len() implies #[trigger] p[t].clips[c].start_ms
                + p[t].clips[c].duration_ms <= u64::MAX by {
                assert(p[t] == ts[t]);
                assert(ts[t].clips[c].start_ms + ts[t].clips[c].duration_ms <= u64::MAX);
            }
        }
        law_shell_rows_match_engine(p);
        lemma_timeline_prefix(ts, ts.len() - 1);
        let n = ts.len() as int;
        let last = ts[n - 1];
        assert(last == ts.last());
        let f = |x: (Seq<char>, u64, u64, Seq<char>)| answer_row(x);
        let tail = last.clips.map_values(|c: ClipV| (c.id, c.start_ms, clip_end_spec(c), last.id));
        assert(timeline_upto(ts, n) == timeline_upto(ts, n - 1) + tail);
        assert((timeline_upto(ts, n - 1) + tail).map_values(f) =~= timeline_upto(ts, n - 1).map_values(f) + tail.map_values(f));
        assert(tail.map_values(f) =~= last.clips.map_values(|c: ClipV| shell_row(last, c))) by {
            assert forall|i: int| 0 <= i < last.clips.len() implies tail.map_values(f)[i] == shell_row(last, last.clips[i]) by {
                assert(ts[n - 1].clips[i].start_ms + ts[n - 1].clips[i].duration_ms <= u64::MAX);
            }
        }
    }
}

} // verus!

verus! {

/// Parts joined by `"; "`.
pub open spec fn join_semi(parts: Seq<Seq<char>>) -> Seq<char>
    decreases parts.len(),
{
    if parts.len() == 0 {
        Seq::empty()
    } else if parts.len() == 1 {
        parts[0]
    } else {
        join_semi(parts.drop_last()) + "; "@ + parts.last()
    }
}

/// The document a valid project is read from: the document itself, or its
/// upgrade when only the upgrade decodes.
pub open spec fn opened_doc(v: JVal) -> JVal {
    if project_from_json(v) is Some {
        v
    } else {
        migrate_spec(v)
    }
}

/// The contract check of a document against the project schema `sc`, as an
/// answer: refused with the decoding reason when it does not open; refused
/// with the schema's violations, joined by `"; "` and listed under
/// `errors`, when the document it opens from breaks the schema; refused as
/// internal when the schema cannot be used; passed otherwise.
pub open spec fn validate_with_spec(v: JVal, sc: JVal) -> Option<JVal> {
    if open_spec(v) is None {
        None
    } else {
        match crate::schema::validate_spec(sc, sc, opened_doc(v), "$"@) {
            None => Some(envelope_spec(false, "INTERNAL"@, "project schema 无法使用($ref 或 pattern 无效)"@, JVal::Obj(seq![]))),
            Some(errs) => if errs.len() > 0 {
                Some(
                    envelope_spec(
                        false,
                        "SCHEMA_INVALID"@,
                        join_semi(errs),
                        JVal::Obj(seq![("errors"@, JVal::Arr(errs.map_values(|e: Seq<char>| JVal::Str(e))))]),
                    ),
                )
            } else {
                Some(envelope_spec(true, "OK"@, "通过 v2 契约"@, JVal::Obj(seq![])))
            },
        }
    }
}

fn join_semi_exec(v: &Vec<String>) -> (r: String)
    ensures
        r@ == join_semi(strings_view(v@)),
{
    let ghost sv = strings_view(v@);
    let mut out = String::new();
    let mut i: usize = 0;
    while i < v.len()
        invariant
            i <= v.len(),
            sv == strings_view(v@),
            out@ == join_semi(sv.take(i as int)),
        decreases v.len() - i,
    {
        let ghost o = out@;
        assert(sv.take(i + 1).drop_last() =~= sv.take(i as int));
        assert(sv.take(i + 1).last() == v@[i as int]@);
        if i > 0 {
            out.append("; ");
        }
        out.append(v[i].as_str());
        if i == 0 {
            assert(out@ =~= join_semi(sv.take(1)));
        } else {
            assert(out@ =~= join_semi(sv.take(i + 1)));
        }
        i += 1;
    }
    assert(sv.take(v.len() as int) =~= sv);
    out
}

/// The contract check of a document against the project schema `sc`.
pub fn validate_answer_with(v: &Json, sc: &Json) -> (r: Json)
    ensures
        validate_with_spec(v@, sc@) matches Some(a) ==> r@ == a,
        validate_with_spec(v@, sc@) is None ==> exists|m: Seq<char>|
            r@ == envelope_spec(
                false,
                "SCHEMA_INVALID"@,
                m,
                JVal::Obj(seq![("errors"@, JVal::Arr(seq![JVal::Str(m)]))]),
            ),
{
    let opened = match project_from(v) {
        Ok(_) => v.deep_copy(),
        Err(_) => {
            if is_migratable(v) {
                let m = migrate_project_v1_to_v2(v);
                match project_from(&m) {
                    Ok(_) => m,
                    Err(_) => {
                        return validate_answer(v);
                    },
                }
            } else {
                return validate_answer(v);
            }
        },
    };
    assert(opened@ == opened_doc(v@));
    let empty: Vec<(String, Json)> = Vec::new();
    proof {
        crate::json::lemma_fields_view(empty);
        assert(fields_view(empty@) =~= Seq::<(Seq<char>, JVal)>::empty());
    }
    match crate::schema::try_validate_node(sc, sc, &opened, "$") {
        None => envelope(false, "INTERNAL", "project schema 无法使用($ref 或 pattern 无效)", Json::Obj(empty)),
        Some(errs) => {
            if errs.len() > 0 {
                let msg = join_semi_exec(&errs);
                let mut items: Vec<Json> = Vec::new();
                let mut i: usize = 0;
                while i < errs.len()
                    invariant
                        i <= errs.len(),
                        items@.len() == i,
                        arr_view(items@) == strings_view(errs@).take(i as int).map_values(|e: Seq<char>| JVal::Str(e)),
                    decreases errs.len() - i,
                {
                    let ghost before = items@;
                    let e = errs[i].clone();
                    assert(e@ == errs@[i as int]@);
                    items.push(Json::Str(e));
                    assert forall|k: int| 0 <= k < i + 1 implies #[trigger] arr_view(items@)[k] == strings_view(errs@).take(
                        i + 1,
                    ).map_values(|e: Seq<char>| JVal::Str(e))[k] by {
                        if k < i {
                            assert(items@[k] == before[k]);
                            assert(arr_view(before)[k] == strings_view(errs@).take(i as int).map_values(
                                |e: Seq<char>| JVal::Str(e),
                            )[k]);
                        }
                    }
                    assert(arr_view(items@) =~= strings_view(errs@).take(i + 1).map_values(|e: Seq<char>| JVal::Str(e)));
                    i += 1;
                }
                assert(strings_view(errs@).take(errs.len() as int) =~= strings_view(errs@));
                let mut fs: Vec<(String, Json)> = Vec::new();
                let ghost iv = arr_view(items@);
                proof {
                    crate::json::lemma_arr_view(items);
                }
                fs.push(("errors".to_string(), Json::Arr(items)));
                proof {
                    crate::json::lemma_fields_view(fs);
                    assert(fields_view(fs@) =~= seq![("errors"@, JVal::Arr(iv))]);
                }
                envelope(false, "SCHEMA_INVALID", msg.as_str(), Json::Obj(fs))
            } else {
                envelope(true, "OK", "通过 v2 契约", Json::Obj(empty))
            }
        },
    }
}

} // verus!
