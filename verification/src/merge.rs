//! Three-way merge of JSON documents: common ancestor (base), the copy on
//! disk and the local copy are compared field by field. Objects merge per
//! key; arrays whose elements all carry a string `id` merge per element;
//! every other divergence is reported as a conflict, never resolved by
//! letting the last writer win.

use vstd::prelude::*;
use vstd::string::*;
use crate::json::{Json, JVal, json_view, json_eq, find_key, find_from, keys_of, seq_lt, lemma_find_from, lemma_find_first, field_index, str_lt, str_eq, arr_view, fields_view, lemma_arr_view, lemma_fields_view};

verus! {

#[derive(Clone, Copy, PartialEq, Eq, Structural, Debug)]
pub enum ConflictCode {
    /// Both sides changed one field to different values.
    FieldConflict,
    /// One side deleted what the other side modified.
    DeleteModify,
    /// Both sides inserted the same id with different contents.
    DupId,
}

pub open spec fn code_text(c: ConflictCode) -> Seq<char> {
    match c {
        ConflictCode::FieldConflict => "CF-001"@,
        ConflictCode::DeleteModify => "CF-002"@,
        ConflictCode::DupId => "CF-003"@,
    }
}

impl ConflictCode {
    /// The conflict code as written in conflict records.
    pub fn code(&self) -> (r: &'static str)
        ensures
            r@ == code_text(*self),
    {
        match self {
            ConflictCode::FieldConflict => "CF-001",
            ConflictCode::DeleteModify => "CF-002",
            ConflictCode::DupId => "CF-003",
        }
    }
}

/// A conflict found by the merge, with the three values at its pointer.
#[derive(Debug)]
pub struct Conflict {
    pub code: ConflictCode,
    pub pointer: String,
    pub base: Option<Json>,
    pub disk: Option<Json>,
    pub local: Option<Json>,
}

pub struct ConflictV {
    pub code: ConflictCode,
    pub pointer: Seq<char>,
    pub base: Option<JVal>,
    pub disk: Option<JVal>,
    pub local: Option<JVal>,
}

pub open spec fn opt_view(o: Option<Json>) -> Option<JVal> {
    match o {
        Some(j) => Some(j@),
        None => None,
    }
}

impl View for Conflict {
    type V = ConflictV;

    open spec fn view(&self) -> ConflictV {
        ConflictV {
            code: self.code,
            pointer: self.pointer@,
            base: opt_view(self.base),
            disk: opt_view(self.disk),
            local: opt_view(self.local),
        }
    }
}

pub open spec fn conflicts_view(cs: Seq<Conflict>) -> Seq<ConflictV> {
    cs.map_values(|c: Conflict| c@)
}

#[derive(Debug)]
pub enum MergeOutcome {
    /// The documents merged without conflict.
    Merged(Json),
    /// The documents cannot be merged automatically.
    Conflicts(Vec<Conflict>),
}

pub enum MergeOutcomeV {
    Merged(JVal),
    Conflicts(Seq<ConflictV>),
}

impl View for MergeOutcome {
    type V = MergeOutcomeV;

    open spec fn view(&self) -> MergeOutcomeV {
        match self {
            MergeOutcome::Merged(j) => MergeOutcomeV::Merged(j@),
            MergeOutcome::Conflicts(cs) => MergeOutcomeV::Conflicts(conflicts_view(cs@)),
        }
    }
}

pub open spec fn mk_conflict(
    code: ConflictCode,
    ptr: Seq<char>,
    b: Option<JVal>,
    d: Option<JVal>,
    l: Option<JVal>,
) -> ConflictV {
    ConflictV { code, pointer: ptr, base: b, disk: d, local: l }
}

pub open spec fn child_ptr(ptr: Seq<char>, k: Seq<char>) -> Seq<char> {
    ptr + "/"@ + k
}

pub open spec fn elem_ptr(ptr: Seq<char>, id: Seq<char>) -> Seq<char> {
    ptr + "["@ + id + "]"@
}

/// The string `id` of an array element, if it has one.
pub open spec fn id_of(v: JVal) -> Option<Seq<char>> {
    match v {
        JVal::Obj(fs) => match find_key(fs, "id"@) {
            Some(i) => match fs[i].1 {
                JVal::Str(s) => Some(s),
                _ => None,
            },
            None => None,
        },
        _ => None,
    }
}

/// Every element of the array carries a string `id`.
pub open spec fn id_keyed(a: Seq<JVal>) -> bool {
    forall|i: int| 0 <= i < a.len() ==> (#[trigger] id_of(a[i])) is Some
}

/// Index of the last element among the first `n` whose id is `id`.
pub open spec fn last_id(a: Seq<JVal>, id: Seq<char>, n: int) -> Option<int>
    decreases n,
{
    if n <= 0 || n > a.len() {
        None
    } else if id_of(a[n - 1]) == Some(id) {
        Some(n - 1)
    } else {
        last_id(a, id, n - 1)
    }
}

pub open spec fn last_of(a: Seq<JVal>, id: Seq<char>) -> Option<int> {
    last_id(a, id, a.len() as int)
}

pub proof fn lemma_last_id(a: Seq<JVal>, id: Seq<char>, n: int)
    ensures
        last_id(a, id, n) matches Some(i) ==> 0 <= i < n && i < a.len() && id_of(a[i]) == Some(id),
    decreases n,
{
    if 0 < n <= a.len() && id_of(a[n - 1]) != Some(id) {
        lemma_last_id(a, id, n - 1);
    }
}

/// The smallest head among three key lists (not all empty).
pub open spec fn min3(x: Seq<Seq<char>>, y: Seq<Seq<char>>, z: Seq<Seq<char>>) -> Seq<char> {
    let m0 = if x.len() > 0 {
        x[0]
    } else if y.len() > 0 {
        y[0]
    } else {
        z[0]
    };
    let m1 = if y.len() > 0 && seq_lt(y[0], m0) {
        y[0]
    } else {
        m0
    };
    if z.len() > 0 && seq_lt(z[0], m1) {
        z[0]
    } else {
        m1
    }
}

pub open spec fn pop_if(x: Seq<Seq<char>>, m: Seq<char>) -> Seq<Seq<char>> {
    if x.len() > 0 && x[0] == m {
        x.drop_first()
    } else {
        x
    }
}

/// Ordered union of three ordered key lists.
pub open spec fn union3(x: Seq<Seq<char>>, y: Seq<Seq<char>>, z: Seq<Seq<char>>) -> Seq<Seq<char>>
    decreases x.len() + y.len() + z.len(),
{
    if x.len() == 0 && y.len() == 0 && z.len() == 0 {
        Seq::empty()
    } else {
        let m = min3(x, y, z);
        seq![m] + union3(pop_if(x, m), pop_if(y, m), pop_if(z, m))
    }
}

pub open spec fn opt_at(fs: Seq<(Seq<char>, JVal)>, i: Option<int>) -> Option<JVal> {
    match i {
        Some(j) => Some(fs[j].1),
        None => None,
    }
}

/// Merge of two sides against their ancestor: the merged value and the
/// conflicts found, in document order.
pub open spec fn merge_spec(b: JVal, d: JVal, l: JVal, ptr: Seq<char>) -> (JVal, Seq<ConflictV>)
    decreases b, 0nat,
{
    if d == l {
        (d, Seq::empty())
    } else if b == l {
        (d, Seq::empty())
    } else if b == d {
        (l, Seq::empty())
    } else {
        match (b, d, l) {
            (JVal::Obj(bf), JVal::Obj(df), JVal::Obj(lf)) => {
                let keys = union3(keys_of(bf), keys_of(df), keys_of(lf));
                let r = merge_fields(bf, df, lf, keys, ptr);
                (JVal::Obj(r.0), r.1)
            },
            (JVal::Arr(ba), JVal::Arr(da), JVal::Arr(la)) => {
                if id_keyed(ba) && id_keyed(da) && id_keyed(la) {
                    let r1 = merge_disk_elems(ba, da, la, da.len() as int, ptr);
                    let r2 = merge_local_only(ba, da, la, la.len() as int, ptr);
                    (JVal::Arr(r1.0 + r2.0), r1.1 + r2.1)
                } else {
                    (l, seq![mk_conflict(ConflictCode::FieldConflict, ptr, Some(b), Some(d), Some(l))])
                }
            },
            _ => (l, seq![mk_conflict(ConflictCode::FieldConflict, ptr, Some(b), Some(d), Some(l))]),
        }
    }
}

/// Object merge over the given key list, in its order.
pub open spec fn merge_fields(
    bf: Seq<(Seq<char>, JVal)>,
    df: Seq<(Seq<char>, JVal)>,
    lf: Seq<(Seq<char>, JVal)>,
    keys: Seq<Seq<char>>,
    ptr: Seq<char>,
) -> (Seq<(Seq<char>, JVal)>, Seq<ConflictV>)
    decreases bf, keys.len() + 1,
{
    if keys.len() == 0 {
        (Seq::empty(), Seq::empty())
    } else {
        let r0 = merge_fields(bf, df, lf, keys.drop_last(), ptr);
        let r1 = merge_key(bf, df, lf, keys.last(), ptr);
        (r0.0 + r1.0, r0.1 + r1.1)
    }
}

/// The decision table for one key of an object.
pub open spec fn merge_key(
    bf: Seq<(Seq<char>, JVal)>,
    df: Seq<(Seq<char>, JVal)>,
    lf: Seq<(Seq<char>, JVal)>,
    k: Seq<char>,
    ptr: Seq<char>,
) -> (Seq<(Seq<char>, JVal)>, Seq<ConflictV>)
    decreases bf, 0nat,
{
    let cp = child_ptr(ptr, k);
    let bi = find_key(bf, k);
    let di = find_key(df, k);
    let li = find_key(lf, k);
    match (bi, di, li) {
        (Some(i), Some(j), Some(m)) => {
            proof {
                lemma_find_from(bf, k, 0);
            }
            let r = merge_spec(bf[i].1, df[j].1, lf[m].1, cp);
            (seq![(k, r.0)], r.1)
        },
        (Some(i), None, Some(m)) => {
            if bf[i].1 == lf[m].1 {
                (Seq::empty(), Seq::empty())
            } else {
                (
                    Seq::empty(),
                    seq![mk_conflict(ConflictCode::DeleteModify, cp, Some(bf[i].1), None, Some(lf[m].1))],
                )
            }
        },
        (Some(i), Some(j), None) => {
            if bf[i].1 == df[j].1 {
                (Seq::empty(), Seq::empty())
            } else {
                (
                    Seq::empty(),
                    seq![mk_conflict(ConflictCode::DeleteModify, cp, Some(bf[i].1), Some(df[j].1), None)],
                )
            }
        },
        (None, Some(j), Some(m)) => {
            if df[j].1 == lf[m].1 {
                (seq![(k, df[j].1)], Seq::empty())
            } else {
                (
                    Seq::empty(),
                    seq![mk_conflict(ConflictCode::FieldConflict, cp, None, Some(df[j].1), Some(lf[m].1))],
                )
            }
        },
        (None, Some(j), None) => (seq![(k, df[j].1)], Seq::empty()),
        (None, None, Some(m)) => (seq![(k, lf[m].1)], Seq::empty()),
        _ => (Seq::empty(), Seq::empty()),
    }
}

/// First pass of an id-keyed array merge: the first `n` disk elements, in
/// disk order.
pub open spec fn merge_disk_elems(
    ba: Seq<JVal>,
    da: Seq<JVal>,
    la: Seq<JVal>,
    n: int,
    ptr: Seq<char>,
) -> (Seq<JVal>, Seq<ConflictV>)
    decreases ba, if n > 0 { n + 1 } else { 0 },
{
    if n <= 0 || n > da.len() {
        (Seq::empty(), Seq::empty())
    } else {
        let r0 = merge_disk_elems(ba, da, la, n - 1, ptr);
        let el = da[n - 1];
        let r1: (Seq<JVal>, Seq<ConflictV>) = match id_of(el) {
            None => (Seq::empty(), Seq::empty()),
            Some(id) => {
                let ep = elem_ptr(ptr, id);
                match (last_of(ba, id), last_of(la, id)) {
                    (Some(bi), Some(li)) => {
                        proof {
                            lemma_last_id(ba, id, ba.len() as int);
                        }
                        let r = merge_spec(ba[bi], el, la[li], ep);
                        (seq![r.0], r.1)
                    },
                    (Some(bi), None) => {
                        if ba[bi] == el {
                            (Seq::empty(), Seq::empty())
                        } else {
                            (seq![el], seq![mk_conflict(ConflictCode::DeleteModify, ep, Some(ba[bi]), Some(el), None)])
                        }
                    },
                    _ => (seq![el], Seq::empty()),
                }
            },
        };
        (r0.0 + r1.0, r0.1 + r1.1)
    }
}

/// Second pass of an id-keyed array merge: among the first `n` local
/// elements, those that carry the last occurrence of their id, in local order.
pub open spec fn merge_local_only(
    ba: Seq<JVal>,
    da: Seq<JVal>,
    la: Seq<JVal>,
    n: int,
    ptr: Seq<char>,
) -> (Seq<JVal>, Seq<ConflictV>)
    decreases if n > 0 { n } else { 0 },
{
    if n <= 0 || n > la.len() {
        (Seq::empty(), Seq::empty())
    } else {
        let r0 = merge_local_only(ba, da, la, n - 1, ptr);
        let r1 = local_elem(ba, da, la, n - 1, ptr);
        (r0.0 + r1.0, r0.1 + r1.1)
    }
}

/// What the local element at index `i` adds to the second pass.
pub open spec fn local_elem(
    ba: Seq<JVal>,
    da: Seq<JVal>,
    la: Seq<JVal>,
    i: int,
    ptr: Seq<char>,
) -> (Seq<JVal>, Seq<ConflictV>) {
    let lv = la[i];
    match id_of(lv) {
        None => (Seq::empty(), Seq::empty()),
        Some(id) => {
            if last_of(la, id) != Some(i) {
                (Seq::empty(), Seq::empty())
            } else {
                let ep = elem_ptr(ptr, id);
                match (last_of(da, id), last_of(ba, id)) {
                    (None, None) => (seq![lv], Seq::empty()),
                    (None, Some(bi)) => {
                        if ba[bi] != lv {
                            (Seq::empty(), seq![mk_conflict(ConflictCode::DeleteModify, ep, Some(ba[bi]), None, Some(lv))])
                        } else {
                            (Seq::empty(), Seq::empty())
                        }
                    },
                    (Some(di), None) => {
                        if da[di] != lv {
                            (Seq::empty(), seq![mk_conflict(ConflictCode::DupId, ep, None, Some(da[di]), Some(lv))])
                        } else {
                            (Seq::empty(), Seq::empty())
                        }
                    },
                    (Some(_), Some(_)) => (Seq::empty(), Seq::empty()),
                }
            }
        },
    }
}

/// The outcome of a three-way merge of whole documents.
pub open spec fn merge_outcome(b: JVal, d: JVal, l: JVal) -> MergeOutcomeV {
    let r = merge_spec(b, d, l, "$"@);
    if r.1.len() == 0 {
        MergeOutcomeV::Merged(r.0)
    } else {
        MergeOutcomeV::Conflicts(r.1)
    }
}

} // verus!

verus! {

proof fn lemma_union3_contains(x: Seq<Seq<char>>, y: Seq<Seq<char>>, z: Seq<Seq<char>>, k: Seq<char>)
    requires
        x.contains(k) || y.contains(k) || z.contains(k),
    ensures
        union3(x, y, z).contains(k),
    decreases x.len() + y.len() + z.len(),
{
    let m = min3(x, y, z);
    let u = union3(x, y, z);
    assert(u[0] == m);
    if m == k {
        assert(u.contains(k));
    } else {
        let x1 = pop_if(x, m);
        let y1 = pop_if(y, m);
        let z1 = pop_if(z, m);
        assert(x.contains(k) ==> x1.contains(k)) by {
            if x.contains(k) && x.len() > 0 && x[0] == m {
                let i = choose|i: int| 0 <= i < x.len() && x[i] == k;
                assert(x1[i - 1] == k);
            }
        }
        assert(y.contains(k) ==> y1.contains(k)) by {
            if y.contains(k) && y.len() > 0 && y[0] == m {
                let i = choose|i: int| 0 <= i < y.len() && y[i] == k;
                assert(y1[i - 1] == k);
            }
        }
        assert(z.contains(k) ==> z1.contains(k)) by {
            if z.contains(k) && z.len() > 0 && z[0] == m {
                let i = choose|i: int| 0 <= i < z.len() && z[i] == k;
                assert(z1[i - 1] == k);
            }
        }
        lemma_union3_contains(x1, y1, z1, k);
        let u1 = union3(x1, y1, z1);
        let i = choose|i: int| 0 <= i < u1.len() && u1[i] == k;
        assert(u[i + 1] == k);
    }
}

proof fn lemma_fields_conflict(
    bf: Seq<(Seq<char>, JVal)>,
    df: Seq<(Seq<char>, JVal)>,
    lf: Seq<(Seq<char>, JVal)>,
    keys: Seq<Seq<char>>,
    ptr: Seq<char>,
    k: Seq<char>,
)
    requires
        keys.contains(k),
        merge_key(bf, df, lf, k, ptr).1.len() > 0,
    ensures
        merge_fields(bf, df, lf, keys, ptr).1.len() > 0,
    decreases keys.len(),
{
    if keys.last() != k {
        let i = choose|i: int| 0 <= i < keys.len() && keys[i] == k;
        assert(keys.drop_last()[i] == k);
        lemma_fields_conflict(bf, df, lf, keys.drop_last(), ptr, k);
    }
}

proof fn lemma_key_in(fs: Seq<(Seq<char>, JVal)>, k: Seq<char>)
    requires
        find_key(fs, k) is Some,
    ensures
        keys_of(fs).contains(k),
{
    lemma_find_from(fs, k, 0);
    let i = find_key(fs, k)->0;
    assert(keys_of(fs)[i] == k);
}

/// Merging a document with two equal sides gives that side back
/// (unchanged on both sides, or changed to the same value on both).
pub proof fn law_equal_sides_merge(b: JVal, x: JVal)
    ensures
        merge_outcome(b, x, x) == MergeOutcomeV::Merged(x),
{
}

/// A change on disk alone is taken from disk.
pub proof fn law_disk_only_change(b: JVal, d: JVal)
    ensures
        merge_outcome(b, d, b) == MergeOutcomeV::Merged(d),
{
}

/// A change on the local side alone is taken from the local side.
pub proof fn law_local_only_change(b: JVal, l: JVal)
    ensures
        merge_outcome(b, b, l) == MergeOutcomeV::Merged(l),
{
}

pub open spec fn is_leaf(v: JVal) -> bool {
    !(v is Obj) && !(v is Arr)
}

/// When both sides change one field of an object to different values
/// (neither an object nor an array), the merge reports a conflict: no
/// side silently wins.
pub proof fn law_divergent_field_conflicts(
    bf: Seq<(Seq<char>, JVal)>,
    df: Seq<(Seq<char>, JVal)>,
    lf: Seq<(Seq<char>, JVal)>,
    k: Seq<char>,
)
    requires
        find_key(bf, k) is Some,
        find_key(df, k) is Some,
        find_key(lf, k) is Some,
        bf[find_key(bf, k)->0].1 != df[find_key(df, k)->0].1,
        bf[find_key(bf, k)->0].1 != lf[find_key(lf, k)->0].1,
        df[find_key(df, k)->0].1 != lf[find_key(lf, k)->0].1,
        is_leaf(df[find_key(df, k)->0].1),
    ensures
        merge_outcome(JVal::Obj(bf), JVal::Obj(df), JVal::Obj(lf)) is Conflicts,
{
    let (b, d, l) = (JVal::Obj(bf), JVal::Obj(df), JVal::Obj(lf));
    lemma_find_from(bf, k, 0);
    lemma_find_from(df, k, 0);
    lemma_find_from(lf, k, 0);
    lemma_key_in(bf, k);
    let keys = union3(keys_of(bf), keys_of(df), keys_of(lf));
    lemma_union3_contains(keys_of(bf), keys_of(df), keys_of(lf), k);
    let cp = child_ptr("$"@, k);
    let bv = bf[find_key(bf, k)->0].1;
    let dv = df[find_key(df, k)->0].1;
    let lv = lf[find_key(lf, k)->0].1;
    assert(merge_spec(bv, dv, lv, cp).1.len() > 0);
    assert(merge_key(bf, df, lf, k, "$"@).1.len() > 0);
    lemma_fields_conflict(bf, df, lf, keys, "$"@, k);
    assert(d != l);
    assert(b != l);
    assert(b != d);
}

/// When one side deletes a field that the other side modified, the merge
/// reports a conflict.
pub proof fn law_delete_modify_conflicts(
    bf: Seq<(Seq<char>, JVal)>,
    kept: Seq<(Seq<char>, JVal)>,
    gone: Seq<(Seq<char>, JVal)>,
    k: Seq<char>,
)
    requires
        find_key(bf, k) is Some,
        find_key(kept, k) is Some,
        find_key(gone, k) is None,
        bf[find_key(bf, k)->0].1 != kept[find_key(kept, k)->0].1,
    ensures
        merge_outcome(JVal::Obj(bf), JVal::Obj(gone), JVal::Obj(kept)) is Conflicts,
        merge_outcome(JVal::Obj(bf), JVal::Obj(kept), JVal::Obj(gone)) is Conflicts,
{
    lemma_find_from(bf, k, 0);
    lemma_find_from(kept, k, 0);
    lemma_key_in(bf, k);
    lemma_union3_contains(keys_of(bf), keys_of(gone), keys_of(kept), k);
    lemma_union3_contains(keys_of(bf), keys_of(kept), keys_of(gone), k);
    assert(merge_key(bf, gone, kept, k, "$"@).1.len() > 0);
    assert(merge_key(bf, kept, gone, k, "$"@).1.len() > 0);
    lemma_fields_conflict(bf, gone, kept, union3(keys_of(bf), keys_of(gone), keys_of(kept)), "$"@, k);
    lemma_fields_conflict(bf, kept, gone, union3(keys_of(bf), keys_of(kept), keys_of(gone)), "$"@, k);
    assert(JVal::Obj(gone) != JVal::Obj(kept));
    assert(JVal::Obj(bf) != JVal::Obj(kept));
    assert(JVal::Obj(bf) != JVal::Obj(gone));
}

} // verus!

verus! {

pub open spec fn opt_str(o: Option<String>) -> Option<Seq<char>> {
    match o {
        Some(s) => Some(s@),
        None => None,
    }
}

pub open spec fn opt_idx(o: Option<usize>) -> Option<int> {
    match o {
        Some(i) => Some(i as int),
        None => None,
    }
}

pub open spec fn strs_view(v: Seq<String>) -> Seq<Seq<char>> {
    Seq::new(v.len(), |i: int| v[i]@)
}

/// The string `id` of an element.
fn elem_id(v: &Json) -> (r: Option<String>)
    ensures
        opt_str(r) == id_of(v@),
{
    match v {
        Json::Obj(fs) => {
            proof {
                lemma_fields_view(*fs);
            }
            match field_index(fs, "id") {
                Some(i) => match &fs[i].1 {
                    Json::Str(s) => Some(s.clone()),
                    _ => None,
                },
                None => None,
            }
        },
        _ => None,
    }
}

fn all_id_keyed(a: &Vec<Json>) -> (r: bool)
    ensures
        r == id_keyed(arr_view(a@)),
{
    let mut i: usize = 0;
    while i < a.len()
        invariant
            i <= a.len(),
            forall|j: int| 0 <= j < i ==> (#[trigger] id_of(arr_view(a@)[j])) is Some,
        decreases a.len() - i,
    {
        if elem_id(&a[i]).is_none() {
            assert(id_of(arr_view(a@)[i as int]) is None);
            return false;
        }
        i += 1;
    }
    true
}

fn last_index(a: &Vec<Json>, id: &str) -> (r: Option<usize>)
    ensures
        opt_idx(r) == last_of(arr_view(a@), id@),
{
    let ghost s = arr_view(a@);
    let mut n: usize = a.len();
    while n > 0
        invariant
            n <= a.len(),
            s == arr_view(a@),
            last_id(s, id@, a.len() as int) == last_id(s, id@, n as int),
        decreases n,
    {
        match elem_id(&a[n - 1]) {
            Some(e) => {
                if str_eq(e.as_str(), id) {
                    return Some(n - 1);
                }
            },
            None => {},
        }
        n -= 1;
    }
    None
}

pub open spec fn key_seq(v: Seq<(String, Json)>) -> Seq<Seq<char>> {
    keys_of(fields_view(v))
}

proof fn lemma_pop_skip(x: Seq<Seq<char>>, i: int, m: Seq<char>)
    requires
        0 <= i <= x.len(),
    ensures
        pop_if(x.skip(i), m) == if i < x.len() && x[i] == m { x.skip(i + 1) } else { x.skip(i) },
{
    if i < x.len() && x[i] == m {
        assert(x.skip(i).drop_first() =~= x.skip(i + 1));
    }
}

/// The union of the keys of three objects, in key order.
#[verifier::rlimit(40)]
fn union_keys(b: &Vec<(String, Json)>, d: &Vec<(String, Json)>, l: &Vec<(String, Json)>) -> (r: Vec<String>)
    ensures
        strs_view(r@) == union3(key_seq(b@), key_seq(d@), key_seq(l@)),
{
    let ghost (kb, kd, kl) = (key_seq(b@), key_seq(d@), key_seq(l@));
    let mut out: Vec<String> = Vec::new();
    let (mut i, mut j, mut k): (usize, usize, usize) = (0, 0, 0);
    assert(kb.skip(0) =~= kb);
    assert(kd.skip(0) =~= kd);
    assert(kl.skip(0) =~= kl);
    assert(strs_view(out@) + union3(kb, kd, kl) =~= union3(kb, kd, kl));
    while i < b.len() || j < d.len() || k < l.len()
        invariant
            i <= b.len(),
            j <= d.len(),
            k <= l.len(),
            kb == key_seq(b@),
            kd == key_seq(d@),
            kl == key_seq(l@),
            kb.len() == b.len(),
            kd.len() == d.len(),
            kl.len() == l.len(),
            strs_view(out@) + union3(kb.skip(i as int), kd.skip(j as int), kl.skip(k as int)) == union3(kb, kd, kl),
        decreases (b.len() - i) + (d.len() - j) + (l.len() - k),
    {
        let ghost (x, y, z) = (kb.skip(i as int), kd.skip(j as int), kl.skip(k as int));
        let m0: &String = if i < b.len() {
            &b[i].0
        } else if j < d.len() {
            &d[j].0
        } else {
            &l[k].0
        };
        let m1: &String = if j < d.len() && str_lt(d[j].0.as_str(), m0.as_str()) {
            &d[j].0
        } else {
            m0
        };
        let m: &String = if k < l.len() && str_lt(l[k].0.as_str(), m1.as_str()) {
            &l[k].0
        } else {
            m1
        };
        assert(m@ == min3(x, y, z));
        let mv = m.clone();
        proof {
            lemma_pop_skip(kb, i as int, mv@);
            lemma_pop_skip(kd, j as int, mv@);
            lemma_pop_skip(kl, k as int, mv@);
        }
        let ni = if i < b.len() && str_eq(b[i].0.as_str(), mv.as_str()) { i + 1 } else { i };
        let nj = if j < d.len() && str_eq(d[j].0.as_str(), mv.as_str()) { j + 1 } else { j };
        let nk = if k < l.len() && str_eq(l[k].0.as_str(), mv.as_str()) { k + 1 } else { k };
        let ghost old_out = out@;
        out.push(mv);
        assert(strs_view(out@) =~= strs_view(old_out).push(mv@));
        assert(union3(x, y, z) == seq![mv@] + union3(pop_if(x, mv@), pop_if(y, mv@), pop_if(z, mv@)));
        assert(strs_view(out@) + union3(kb.skip(ni as int), kd.skip(nj as int), kl.skip(nk as int)) =~= strs_view(old_out) + union3(x, y, z));
        i = ni;
        j = nj;
        k = nk;
    }
    assert(kb.skip(i as int) =~= Seq::<Seq<char>>::empty());
    assert(kd.skip(j as int) =~= Seq::<Seq<char>>::empty());
    assert(kl.skip(k as int) =~= Seq::<Seq<char>>::empty());
    assert(strs_view(out@) =~= strs_view(out@) + Seq::<Seq<char>>::empty());
    out
}

} // verus!

verus! {

fn child_pointer(ptr: &String, k: &str) -> (r: String)
    ensures
        r@ == child_ptr(ptr@, k@),
{
    let mut s = ptr.clone();
    s.append("/");
    s.append(k);
    s
}

fn elem_pointer(ptr: &String, id: &str) -> (r: String)
    ensures
        r@ == elem_ptr(ptr@, id@),
{
    let mut s = ptr.clone();
    s.append("[");
    s.append(id);
    s.append("]");
    s
}

fn some_copy(j: &Json) -> (r: Option<Json>)
    ensures
        opt_view(r) == Some(j@),
{
    Some(j.deep_copy())
}

fn one_conflict(code: ConflictCode, pointer: String, base: Option<Json>, disk: Option<Json>, local: Option<Json>) -> (r: Vec<Conflict>)
    ensures
        conflicts_view(r@) == seq![mk_conflict(code, pointer@, opt_view(base), opt_view(disk), opt_view(local))],
{
    let mut v: Vec<Conflict> = Vec::new();
    v.push(Conflict { code, pointer, base, disk, local });
    assert(conflicts_view(v@) =~= seq![mk_conflict(code, pointer@, opt_view(base), opt_view(disk), opt_view(local))]);
    v
}

pub open spec fn opt_field_view(e: Option<(String, Json)>) -> Seq<(Seq<char>, JVal)> {
    match e {
        Some(x) => seq![(x.0@, x.1@)],
        None => Seq::empty(),
    }
}

/// The decision table for a key missing on at least one side.
fn merge_key_partial(
    bf: &Vec<(String, Json)>,
    df: &Vec<(String, Json)>,
    lf: &Vec<(String, Json)>,
    k: &String,
    cp: String,
    bi: Option<usize>,
    di: Option<usize>,
    li: Option<usize>,
    ptr: Ghost<Seq<char>>,
) -> (r: (Option<(String, Json)>, Vec<Conflict>))
    requires
        cp@ == child_ptr(ptr@, k@),
        opt_idx(bi) == find_key(fields_view(bf@), k@),
        opt_idx(di) == find_key(fields_view(df@), k@),
        opt_idx(li) == find_key(fields_view(lf@), k@),
        bi matches Some(i) ==> i < bf.len(),
        di matches Some(i) ==> i < df.len(),
        li matches Some(i) ==> i < lf.len(),
        !(bi is Some && di is Some && li is Some),
    ensures
        (opt_field_view(r.0), conflicts_view(r.1@)) == merge_key(fields_view(bf@), fields_view(df@), fields_view(lf@), k@, ptr@),
{
    let none: Vec<Conflict> = Vec::new();
    assert(conflicts_view(none@) =~= Seq::<ConflictV>::empty());
    match (bi, di, li) {
        (Some(i), None, Some(m)) => {
            if json_eq(&bf[i].1, &lf[m].1) {
                (None, none)
            } else {
                (None, one_conflict(ConflictCode::DeleteModify, cp, some_copy(&bf[i].1), None, some_copy(&lf[m].1)))
            }
        },
        (Some(i), Some(j), None) => {
            if json_eq(&bf[i].1, &df[j].1) {
                (None, none)
            } else {
                (None, one_conflict(ConflictCode::DeleteModify, cp, some_copy(&bf[i].1), some_copy(&df[j].1), None))
            }
        },
        (None, Some(j), Some(m)) => {
            if json_eq(&df[j].1, &lf[m].1) {
                (Some((k.clone(), df[j].1.deep_copy())), none)
            } else {
                (None, one_conflict(ConflictCode::FieldConflict, cp, None, some_copy(&df[j].1), some_copy(&lf[m].1)))
            }
        },
        (None, Some(j), None) => (Some((k.clone(), df[j].1.deep_copy())), none),
        (None, None, Some(m)) => (Some((k.clone(), lf[m].1.deep_copy())), none),
        _ => (None, none),
    }
}

/// Second pass of an id-keyed array merge, in local order.
fn merge_local_pass(ba: &Vec<Json>, da: &Vec<Json>, la: &Vec<Json>, ptr: &String) -> (r: (Vec<Json>, Vec<Conflict>))
    ensures
        (arr_view(r.0@), conflicts_view(r.1@)) == merge_local_only(arr_view(ba@), arr_view(da@), arr_view(la@), la@.len() as int, ptr@),
{
    let ghost (bs, ds, ls) = (arr_view(ba@), arr_view(da@), arr_view(la@));
    let mut out: Vec<Json> = Vec::new();
    let mut cs: Vec<Conflict> = Vec::new();
    let mut t: usize = 0;
    assert(arr_view(out@) =~= Seq::<JVal>::empty());
    assert(conflicts_view(cs@) =~= Seq::<ConflictV>::empty());
    while t < la.len()
        invariant
            t <= la.len(),
            bs == arr_view(ba@),
            ds == arr_view(da@),
            ls == arr_view(la@),
            ls.len() == la@.len(),
            (arr_view(out@), conflicts_view(cs@)) == merge_local_only(bs, ds, ls, t as int, ptr@),
        decreases la.len() - t,
    {
        let ghost old_out = out@;
        let ghost old_cs = cs@;
        let ghost step = local_elem(bs, ds, ls, t as int, ptr@);
        match elem_id(&la[t]) {
            None => {
                assert(arr_view(out@) =~= arr_view(old_out) + step.0);
                assert(conflicts_view(cs@) =~= conflicts_view(old_cs) + step.1);
            },
            Some(id) => {
                let own = last_index(la, id.as_str());
                proof {
                    lemma_last_id(ls, id@, ls.len() as int);
                }
                let mine = match own {
                    Some(k) => k == t,
                    None => false,
                };
                if !mine {
                    assert(arr_view(out@) =~= arr_view(old_out) + step.0);
                    assert(conflicts_view(cs@) =~= conflicts_view(old_cs) + step.1);
                } else {
                    let ep = elem_pointer(ptr, id.as_str());
                    let dl = last_index(da, id.as_str());
                    let bl = last_index(ba, id.as_str());
                    proof {
                        lemma_last_id(ds, id@, ds.len() as int);
                        lemma_last_id(bs, id@, bs.len() as int);
                    }
                    match (dl, bl) {
                        (None, None) => {
                            out.push(la[t].deep_copy());
                            assert(arr_view(out@) =~= arr_view(old_out) + step.0);
                            assert(conflicts_view(cs@) =~= conflicts_view(old_cs) + step.1);
                        },
                        (None, Some(bi)) => {
                            if !json_eq(&ba[bi], &la[t]) {
                                let mut c = one_conflict(ConflictCode::DeleteModify, ep, some_copy(&ba[bi]), None, some_copy(&la[t]));
                                cs.append(&mut c);
                            }
                            assert(conflicts_view(cs@) =~= conflicts_view(old_cs) + step.1);
                            assert(arr_view(out@) =~= arr_view(old_out) + step.0);
                        },
                        (Some(di), None) => {
                            if !json_eq(&da[di], &la[t]) {
                                let mut c = one_conflict(ConflictCode::DupId, ep, None, some_copy(&da[di]), some_copy(&la[t]));
                                cs.append(&mut c);
                            }
                            assert(conflicts_view(cs@) =~= conflicts_view(old_cs) + step.1);
                            assert(arr_view(out@) =~= arr_view(old_out) + step.0);
                        },
                        (Some(_), Some(_)) => {
                            assert(conflicts_view(cs@) =~= conflicts_view(old_cs) + step.1);
                            assert(arr_view(out@) =~= arr_view(old_out) + step.0);
                        },
                    }
                }
            },
        }
        t += 1;
    }
    (out, cs)
}

} // verus!

verus! {

fn empty_conflicts() -> (r: Vec<Conflict>)
    ensures
        conflicts_view(r@) == Seq::<ConflictV>::empty(),
{
    let v: Vec<Conflict> = Vec::new();
    assert(conflicts_view(v@) =~= Seq::<ConflictV>::empty());
    v
}

/// Merge of one node: the merged value and the conflicts below `ptr`.
#[verifier::rlimit(40)]
fn merge_node(b: &Json, d: &Json, l: &Json, ptr: &String) -> (r: (Json, Vec<Conflict>))
    ensures
        (r.0@, conflicts_view(r.1@)) == merge_spec(b@, d@, l@, ptr@),
    decreases b,
{
    if json_eq(d, l) {
        return (d.deep_copy(), empty_conflicts());
    }
    if json_eq(b, l) {
        return (d.deep_copy(), empty_conflicts());
    }
    if json_eq(b, d) {
        return (l.deep_copy(), empty_conflicts());
    }
    match (b, d, l) {
        (Json::Obj(bf), Json::Obj(df), Json::Obj(lf)) => {
            proof {
                lemma_fields_view(*bf);
                lemma_fields_view(*df);
                lemma_fields_view(*lf);
            }
            let ghost (bs, ds, ls) = (fields_view(bf@), fields_view(df@), fields_view(lf@));
            let keys = union_keys(bf, df, lf);
            let ghost ks = strs_view(keys@);
            let mut res: Vec<(String, Json)> = Vec::new();
            let mut cs: Vec<Conflict> = Vec::new();
            let mut t: usize = 0;
            assert(ks.take(0) =~= Seq::<Seq<char>>::empty());
            assert(fields_view(res@) =~= Seq::<(Seq<char>, JVal)>::empty());
            assert(conflicts_view(cs@) =~= Seq::<ConflictV>::empty());
            while t < keys.len()
                invariant
                    t <= keys.len(),
                    *b == Json::Obj(*bf),
                    ks == strs_view(keys@),
                    ks == union3(keys_of(bs), keys_of(ds), keys_of(ls)),
                    bs == fields_view(bf@),
                    ds == fields_view(df@),
                    ls == fields_view(lf@),
                    (fields_view(res@), conflicts_view(cs@)) == merge_fields(bs, ds, ls, ks.take(t as int), ptr@),
                decreases keys.len() - t,
            {
                let k = &keys[t];
                assert(ks.take(t + 1).drop_last() =~= ks.take(t as int));
                assert(ks.take(t + 1).last() == k@);
                let cp = child_pointer(ptr, k.as_str());
                let bi = field_index(bf, k.as_str());
                let di = field_index(df, k.as_str());
                let li = field_index(lf, k.as_str());
                let ghost old_res = res@;
                let ghost old_cs = cs@;
                match (bi, di, li) {
                    (Some(i), Some(j), Some(m)) => {
                        proof {
                            assert(decreases_to!(*b => (*b)->Obj_0));
                            assert(decreases_to!(*b => bf@[i as int].1));
                        }
                        let (v, mut c) = merge_node(&bf[i].1, &df[j].1, &lf[m].1, &cp);
                        let ghost cv = conflicts_view(c@);
                        let kc = k.clone();
                        res.push((kc, v));
                        cs.append(&mut c);
                        assert(conflicts_view(cs@) =~= conflicts_view(old_cs) + cv);
                        assert(merge_key(bs, ds, ls, k@, ptr@).1 == cv);
                        assert(fields_view(res@) =~= fields_view(old_res) + seq![(k@, merge_spec(bs[i as int].1, ds[j as int].1, ls[m as int].1, child_ptr(ptr@, k@)).0)]);
                    },
                    _ => {
                        let (e, mut c) = merge_key_partial(bf, df, lf, k, cp, bi, di, li, Ghost(ptr@));
                        let ghost cv = conflicts_view(c@);
                        match e {
                            Some(x) => {
                                res.push(x);
                            },
                            None => {},
                        }
                        cs.append(&mut c);
                        assert(conflicts_view(cs@) =~= conflicts_view(old_cs) + cv);
                        assert(fields_view(res@) =~= fields_view(old_res) + opt_field_view(e));
                    },
                }
                t += 1;
            }
            assert(ks.take(keys.len() as int) =~= ks);
            proof {
                lemma_fields_view(res);
            }
            assert(merge_spec(b@, d@, l@, ptr@) == (JVal::Obj(fields_view(res@)), conflicts_view(cs@)));
            (Json::Obj(res), cs)
        },
        (Json::Arr(ba), Json::Arr(da), Json::Arr(la)) => {
            proof {
                lemma_arr_view(*ba);
                lemma_arr_view(*da);
                lemma_arr_view(*la);
            }
            let ghost (bs, ds, ls) = (arr_view(ba@), arr_view(da@), arr_view(la@));
            if !(all_id_keyed(ba) && all_id_keyed(da) && all_id_keyed(la)) {
                return (l.deep_copy(), one_conflict(ConflictCode::FieldConflict, ptr.clone(), some_copy(b), some_copy(d), some_copy(l)));
            }
            let mut out: Vec<Json> = Vec::new();
            let mut cs: Vec<Conflict> = Vec::new();
            let mut t: usize = 0;
            assert(arr_view(out@) =~= Seq::<JVal>::empty());
            assert(conflicts_view(cs@) =~= Seq::<ConflictV>::empty());
            while t < da.len()
                invariant
                    t <= da.len(),
                    *b == Json::Arr(*ba),
                    bs == arr_view(ba@),
                    ds == arr_view(da@),
                    ls == arr_view(la@),
                    (arr_view(out@), conflicts_view(cs@)) == merge_disk_elems(bs, ds, ls, t as int, ptr@),
                decreases da.len() - t,
            {
                let ghost old_out = out@;
                let ghost old_cs = cs@;
                match elem_id(&da[t]) {
                    None => {
                        assert(arr_view(out@) =~= arr_view(old_out) + Seq::<JVal>::empty());
                        assert(conflicts_view(cs@) =~= conflicts_view(old_cs) + Seq::<ConflictV>::empty());
                    },
                    Some(id) => {
                        let ep = elem_pointer(ptr, id.as_str());
                        let bl = last_index(ba, id.as_str());
                        let ll = last_index(la, id.as_str());
                        proof {
                            lemma_last_id(bs, id@, bs.len() as int);
                            lemma_last_id(ls, id@, ls.len() as int);
                        }
                        match (bl, ll) {
                            (Some(bi), Some(li)) => {
                                proof {
                                    assert(decreases_to!(*b => (*b)->Arr_0));
                                    assert(decreases_to!(*b => ba@[bi as int]));
                                }
                                let (v, mut c) = merge_node(&ba[bi], &da[t], &la[li], &ep);
                                out.push(v);
                                cs.append(&mut c);
                                assert(arr_view(out@) =~= arr_view(old_out) + seq![merge_spec(bs[bi as int], ds[t as int], ls[li as int], elem_ptr(ptr@, id@)).0]);
                            },
                            (Some(bi), None) => {
                                if json_eq(&ba[bi], &da[t]) {
                                    assert(arr_view(out@) =~= arr_view(old_out) + Seq::<JVal>::empty());
                                    assert(conflicts_view(cs@) =~= conflicts_view(old_cs) + Seq::<ConflictV>::empty());
                                } else {
                                    let mut c = one_conflict(ConflictCode::DeleteModify, ep, some_copy(&ba[bi]), some_copy(&da[t]), None);
                                    cs.append(&mut c);
                                    out.push(da[t].deep_copy());
                                    assert(arr_view(out@) =~= arr_view(old_out) + seq![ds[t as int]]);
                                }
                            },
                            _ => {
                                out.push(da[t].deep_copy());
                                assert(arr_view(out@) =~= arr_view(old_out) + seq![ds[t as int]]);
                                assert(conflicts_view(cs@) =~= conflicts_view(old_cs) + Seq::<ConflictV>::empty());
                            },
                        }
                    },
                }
                t += 1;
            }
            let (mut o2, mut c2) = merge_local_pass(ba, da, la, ptr);
            let ghost (o2v, c2v) = (arr_view(o2@), conflicts_view(c2@));
            let ghost (o1, c1) = (out@, cs@);
            out.append(&mut o2);
            cs.append(&mut c2);
            assert(arr_view(out@) =~= arr_view(o1) + o2v);
            assert(conflicts_view(cs@) =~= conflicts_view(c1) + c2v);
            assert(da@.len() == ds.len());
            proof {
                lemma_arr_view(out);
            }
            (Json::Arr(out), cs)
        },
        _ => (l.deep_copy(), one_conflict(ConflictCode::FieldConflict, ptr.clone(), some_copy(b), some_copy(d), some_copy(l))),
    }
}

} // verus!

verus! {

/// Three-way merge of a document: `base` is the common ancestor, `disk` and
/// `local` the two sides. Returns the merged document, or every conflict
/// found (pointers start at `$`).
pub fn three_way_merge(base: &Json, disk: &Json, local: &Json) -> (r: MergeOutcome)
    ensures
        r@ == merge_outcome(base@, disk@, local@),
{
    let root = String::from_str("$");
    let (merged, conflicts) = merge_node(base, disk, local, &root);
    if conflicts.len() == 0 {
        MergeOutcome::Merged(merged)
    } else {
        MergeOutcome::Conflicts(conflicts)
    }
}

} // verus!

verus! {

/// Every conflict of `cs` lies at or below `ptr`: its pointer starts with
/// `ptr`.
pub open spec fn under(cs: Seq<ConflictV>, ptr: Seq<char>) -> bool {
    forall|i: int| 0 <= i < cs.len() ==> ptr.len() <= (#[trigger] cs[i]).pointer.len() && cs[i].pointer.take(ptr.len() as int) == ptr
}

proof fn lemma_under_cat(a: Seq<ConflictV>, b: Seq<ConflictV>, ptr: Seq<char>)
    requires
        under(a, ptr),
        under(b, ptr),
    ensures
        under(a + b, ptr),
{
    assert forall|i: int| 0 <= i < (a + b).len() implies ptr.len() <= (#[trigger] (a + b)[i]).pointer.len()
        && (a + b)[i].pointer.take(ptr.len() as int) == ptr by {
        if i < a.len() {
            assert((a + b)[i] == a[i]);
        } else {
            assert((a + b)[i] == b[i - a.len()]);
        }
    }
}

proof fn lemma_under_deeper(cs: Seq<ConflictV>, ptr: Seq<char>, tail: Seq<char>)
    requires
        under(cs, ptr + tail),
    ensures
        under(cs, ptr),
{
    assert forall|i: int| 0 <= i < cs.len() implies ptr.len() <= (#[trigger] cs[i]).pointer.len()
        && cs[i].pointer.take(ptr.len() as int) == ptr by {
        let q = cs[i].pointer;
        assert(q.take((ptr + tail).len() as int) == ptr + tail);
        assert(q.take(ptr.len() as int) =~= (ptr + tail).take(ptr.len() as int));
        assert((ptr + tail).take(ptr.len() as int) =~= ptr);
    }
}

proof fn lemma_one_under(c: ConflictV, ptr: Seq<char>, tail: Seq<char>)
    requires
        c.pointer == ptr + tail,
    ensures
        under(seq![c], ptr),
{
    assert(c.pointer.take(ptr.len() as int) =~= ptr);
}

proof fn lemma_merge_under(b: JVal, d: JVal, l: JVal, ptr: Seq<char>)
    ensures
        under(merge_spec(b, d, l, ptr).1, ptr),
    decreases b, 0nat,
{
    if d == l || b == l || b == d {
    } else {
        match (b, d, l) {
            (JVal::Obj(bf), JVal::Obj(df), JVal::Obj(lf)) => {
                let keys = union3(keys_of(bf), keys_of(df), keys_of(lf));
                lemma_fields_under(bf, df, lf, keys, ptr);
            },
            (JVal::Arr(ba), JVal::Arr(da), JVal::Arr(la)) => {
                if id_keyed(ba) && id_keyed(da) && id_keyed(la) {
                    lemma_disk_under(ba, da, la, da.len() as int, ptr);
                    lemma_local_under(ba, da, la, la.len() as int, ptr);
                    lemma_under_cat(
                        merge_disk_elems(ba, da, la, da.len() as int, ptr).1,
                        merge_local_only(ba, da, la, la.len() as int, ptr).1,
                        ptr,
                    );
                } else {
                    lemma_one_under(mk_conflict(ConflictCode::FieldConflict, ptr, Some(b), Some(d), Some(l)), ptr, Seq::empty());
                    assert(ptr + Seq::<char>::empty() =~= ptr);
                }
            },
            _ => {
                assert(ptr + Seq::<char>::empty() =~= ptr);
                lemma_one_under(mk_conflict(ConflictCode::FieldConflict, ptr, Some(b), Some(d), Some(l)), ptr, Seq::empty());
            },
        }
    }
}

proof fn lemma_fields_under(
    bf: Seq<(Seq<char>, JVal)>,
    df: Seq<(Seq<char>, JVal)>,
    lf: Seq<(Seq<char>, JVal)>,
    keys: Seq<Seq<char>>,
    ptr: Seq<char>,
)
    ensures
        under(merge_fields(bf, df, lf, keys, ptr).1, ptr),
    decreases bf, keys.len() + 1,
{
    if keys.len() > 0 {
        lemma_fields_under(bf, df, lf, keys.drop_last(), ptr);
        lemma_key_under(bf, df, lf, keys.last(), ptr);
        lemma_under_cat(
            merge_fields(bf, df, lf, keys.drop_last(), ptr).1,
            merge_key(bf, df, lf, keys.last(), ptr).1,
            ptr,
        );
    }
}

proof fn lemma_key_under(
    bf: Seq<(Seq<char>, JVal)>,
    df: Seq<(Seq<char>, JVal)>,
    lf: Seq<(Seq<char>, JVal)>,
    k: Seq<char>,
    ptr: Seq<char>,
)
    ensures
        under(merge_key(bf, df, lf, k, ptr).1, ptr),
    decreases bf, 0nat,
{
    let cp = child_ptr(ptr, k);
    let tail = "/"@ + k;
    assert(cp =~= ptr + tail);
    let r = merge_key(bf, df, lf, k, ptr);
    match (find_key(bf, k), find_key(df, k), find_key(lf, k)) {
        (Some(i), Some(j), Some(m)) => {
            lemma_find_from(bf, k, 0);
            lemma_merge_under(bf[i].1, df[j].1, lf[m].1, cp);
            lemma_under_deeper(r.1, ptr, tail);
        },
        _ => {
            assert forall|q: int| 0 <= q < r.1.len() implies ptr.len() <= (#[trigger] r.1[q]).pointer.len()
                && r.1[q].pointer.take(ptr.len() as int) == ptr by {
                assert(r.1[q].pointer == cp);
                assert(cp.take(ptr.len() as int) =~= ptr);
            }
        },
    }
}

proof fn lemma_disk_under(ba: Seq<JVal>, da: Seq<JVal>, la: Seq<JVal>, n: int, ptr: Seq<char>)
    ensures
        under(merge_disk_elems(ba, da, la, n, ptr).1, ptr),
    decreases ba, if n > 0 { n + 1 } else { 0 },
{
    if n <= 0 || n > da.len() {
    } else {
        lemma_disk_under(ba, da, la, n - 1, ptr);
        let r = merge_disk_elems(ba, da, la, n, ptr);
        let r0 = merge_disk_elems(ba, da, la, n - 1, ptr);
        let el = da[n - 1];
        match id_of(el) {
            None => {
                assert(r.1 =~= r0.1 + Seq::<ConflictV>::empty());
            },
            Some(id) => {
                let ep = elem_ptr(ptr, id);
                let tail = "["@ + id + "]"@;
                assert(ep =~= ptr + tail);
                match (last_of(ba, id), last_of(la, id)) {
                    (Some(bi), Some(li)) => {
                        lemma_last_id(ba, id, ba.len() as int);
                        lemma_merge_under(ba[bi], el, la[li], ep);
                        lemma_under_deeper(merge_spec(ba[bi], el, la[li], ep).1, ptr, tail);
                        lemma_under_cat(r0.1, merge_spec(ba[bi], el, la[li], ep).1, ptr);
                    },
                    (Some(bi), None) => {
                        lemma_one_under(mk_conflict(ConflictCode::DeleteModify, ep, Some(ba[bi]), Some(el), None), ptr, tail);
                        lemma_under_cat(r0.1, seq![mk_conflict(ConflictCode::DeleteModify, ep, Some(ba[bi]), Some(el), None)], ptr);
                        lemma_under_cat(r0.1, Seq::empty(), ptr);
                    },
                    _ => {
                        lemma_under_cat(r0.1, Seq::empty(), ptr);
                    },
                }
            },
        }
    }
}

proof fn lemma_local_under(ba: Seq<JVal>, da: Seq<JVal>, la: Seq<JVal>, n: int, ptr: Seq<char>)
    ensures
        under(merge_local_only(ba, da, la, n, ptr).1, ptr),
    decreases if n > 0 { n } else { 0 },
{
    if n <= 0 || n > la.len() {
    } else {
        lemma_local_under(ba, da, la, n - 1, ptr);
        let r0 = merge_local_only(ba, da, la, n - 1, ptr);
        let r1 = local_elem(ba, da, la, n - 1, ptr);
        assert(under(r1.1, ptr)) by {
            assert forall|q: int| 0 <= q < r1.1.len() implies ptr.len() <= (#[trigger] r1.1[q]).pointer.len()
                && r1.1[q].pointer.take(ptr.len() as int) == ptr by {
                let id = id_of(la[n - 1])->0;
                let ep = elem_ptr(ptr, id);
                assert(r1.1[q].pointer == ep);
                assert(ep.take(ptr.len() as int) =~= ptr);
            }
        }
        lemma_under_cat(r0.1, r1.1, ptr);
    }
}

/// Every conflict a three-way merge reports points into the document: its
/// pointer starts with `$`.
pub proof fn law_conflict_pointers_rooted(b: JVal, d: JVal, l: JVal)
    ensures
        merge_outcome(b, d, l) matches MergeOutcomeV::Conflicts(cs) ==> forall|i: int|
            0 <= i < cs.len() ==> (#[trigger] cs[i]).pointer.len() > 0 && cs[i].pointer[0] == '$',
{
    lemma_merge_under(b, d, l, "$"@);
    reveal_strlit("$");
    let cs = merge_spec(b, d, l, "$"@).1;
    assert forall|i: int| 0 <= i < cs.len() implies (#[trigger] cs[i]).pointer.len() > 0 && cs[i].pointer[0] == '$' by {
        assert(cs[i].pointer.take(1) == "$"@);
        assert(cs[i].pointer.take(1)[0] == cs[i].pointer[0]);
    }
}

} // verus!

verus! {

/// One step down a document: an object member by key, or the element of an
/// id-keyed array by its id.
pub enum PathStep {
    Key(Seq<char>),
    Id(Seq<char>),
}

/// The value one step below `v`, if there is one. An id names the last
/// element that carries it, the element the merge pairs up.
pub open spec fn at_step(v: JVal, s: PathStep) -> Option<JVal> {
    match (s, v) {
        (PathStep::Key(k), JVal::Obj(fs)) => opt_at(fs, find_key(fs, k)),
        (PathStep::Id(id), JVal::Arr(a)) => match last_of(a, id) {
            Some(i) => Some(a[i]),
            None => None,
        },
        _ => None,
    }
}

/// The value found by following `path` from `v`.
pub open spec fn at_path(v: JVal, path: Seq<PathStep>) -> Option<JVal>
    decreases path.len(),
{
    if path.len() == 0 {
        Some(v)
    } else {
        match at_step(v, path[0]) {
            Some(c) => at_path(c, path.drop_first()),
            None => None,
        }
    }
}

/// Three values that differ pairwise, one of them neither an object nor an
/// array: a place where no merge rule can reconcile the two sides.
pub open spec fn divergent(b: JVal, d: JVal, l: JVal) -> bool {
    &&& b != d
    &&& b != l
    &&& d != l
    &&& is_leaf(b) || is_leaf(d) || is_leaf(l)
}

/// Some element among the first `n` disk elements whose own merge reports
/// a conflict makes the first pass report one.
proof fn lemma_disk_elems_conflict(
    ba: Seq<JVal>,
    da: Seq<JVal>,
    la: Seq<JVal>,
    n: int,
    ptr: Seq<char>,
    j: int,
    id: Seq<char>,
)
    requires
        0 <= j < n <= da.len(),
        id_of(da[j]) == Some(id),
        last_of(ba, id) is Some,
        last_of(la, id) is Some,
        merge_spec(ba[last_of(ba, id)->0], da[j], la[last_of(la, id)->0], elem_ptr(ptr, id)).1.len() > 0,
    ensures
        merge_disk_elems(ba, da, la, n, ptr).1.len() > 0,
    decreases n,
{
    if j < n - 1 {
        lemma_disk_elems_conflict(ba, da, la, n - 1, ptr, j, id);
    }
}

/// Following a path on which the three documents diverge, the merge of the
/// documents at any pointer reports at least one conflict.
proof fn lemma_path_conflict(b: JVal, d: JVal, l: JVal, path: Seq<PathStep>, ptr: Seq<char>)
    requires
        at_path(b, path) is Some,
        at_path(d, path) is Some,
        at_path(l, path) is Some,
        divergent(at_path(b, path)->0, at_path(d, path)->0, at_path(l, path)->0),
    ensures
        merge_spec(b, d, l, ptr).1.len() > 0,
    decreases path.len(),
{
    if path.len() > 0 {
        let s = path[0];
        let rest = path.drop_first();
        let cb = at_step(b, s)->0;
        let cd = at_step(d, s)->0;
        let cl = at_step(l, s)->0;
        assert(at_path(b, path) == at_path(cb, rest));
        assert(at_path(d, path) == at_path(cd, rest));
        assert(at_path(l, path) == at_path(cl, rest));
        assert(d != l && b != l && b != d);
        match s {
            PathStep::Key(k) => {
                let bf = b->Obj_0;
                let df = d->Obj_0;
                let lf = l->Obj_0;
                lemma_find_from(bf, k, 0);
                lemma_find_from(df, k, 0);
                lemma_find_from(lf, k, 0);
                lemma_key_in(bf, k);
                lemma_union3_contains(keys_of(bf), keys_of(df), keys_of(lf), k);
                let cp = child_ptr(ptr, k);
                lemma_path_conflict(cb, cd, cl, rest, cp);
                assert(merge_key(bf, df, lf, k, ptr).1.len() > 0);
                lemma_fields_conflict(bf, df, lf, union3(keys_of(bf), keys_of(df), keys_of(lf)), ptr, k);
            },
            PathStep::Id(id) => {
                let ba = b->Arr_0;
                let da = d->Arr_0;
                let la = l->Arr_0;
                if id_keyed(ba) && id_keyed(da) && id_keyed(la) {
                    let j = last_of(da, id)->0;
                    lemma_last_id(da, id, da.len() as int);
                    lemma_last_id(ba, id, ba.len() as int);
                    lemma_last_id(la, id, la.len() as int);
                    lemma_path_conflict(cb, cd, cl, rest, elem_ptr(ptr, id));
                    lemma_disk_elems_conflict(ba, da, la, da.len() as int, ptr, j, id);
                    let r1 = merge_disk_elems(ba, da, la, da.len() as int, ptr);
                    let r2 = merge_local_only(ba, da, la, la.len() as int, ptr);
                    assert((r1.1 + r2.1).len() > 0);
                }
            },
        }
    }
}

/// Zero silent overwrite: wherever, following object keys and the ids of
/// id-keyed array elements, the ancestor, the disk copy and the local copy
/// hold three different values and one of them is neither an object nor an
/// array, the merge of the whole documents reports conflicts instead of
/// picking a side.
pub proof fn law_no_silent_overwrite(b: JVal, d: JVal, l: JVal, path: Seq<PathStep>)
    requires
        at_path(b, path) is Some,
        at_path(d, path) is Some,
        at_path(l, path) is Some,
        divergent(at_path(b, path)->0, at_path(d, path)->0, at_path(l, path)->0),
    ensures
        merge_outcome(b, d, l) is Conflicts,
{
    lemma_path_conflict(b, d, l, path, "$"@);
}

} // verus!

verus! {

/// The pointer the merge uses for the value found along `path`.
pub open spec fn path_ptr(ptr: Seq<char>, path: Seq<PathStep>) -> Seq<char>
    decreases path.len(),
{
    if path.len() == 0 {
        ptr
    } else {
        let next = match path[0] {
            PathStep::Key(k) => child_ptr(ptr, k),
            PathStep::Id(id) => elem_ptr(ptr, id),
        };
        path_ptr(next, path.drop_first())
    }
}

proof fn lemma_fields_keys(
    bf: Seq<(Seq<char>, JVal)>,
    df: Seq<(Seq<char>, JVal)>,
    lf: Seq<(Seq<char>, JVal)>,
    keys: Seq<Seq<char>>,
    ptr: Seq<char>,
)
    ensures
        forall|i: int|
            0 <= i < merge_fields(bf, df, lf, keys, ptr).0.len() ==> keys.contains(
                (#[trigger] merge_fields(bf, df, lf, keys, ptr).0[i]).0,
            ),
    decreases keys.len(),
{
    if keys.len() > 0 {
        lemma_fields_keys(bf, df, lf, keys.drop_last(), ptr);
        let r0 = merge_fields(bf, df, lf, keys.drop_last(), ptr).0;
        let r1 = merge_key(bf, df, lf, keys.last(), ptr).0;
        let r = merge_fields(bf, df, lf, keys, ptr).0;
        assert(r == r0 + r1);
        assert forall|i: int| 0 <= i < r.len() implies keys.contains((#[trigger] r[i]).0) by {
            if i < r0.len() {
                assert(r[i] == r0[i]);
                assert(keys.drop_last().contains(r0[i].0));
                let m = choose|m: int| 0 <= m < keys.drop_last().len() && keys.drop_last()[m] == r0[i].0;
                assert(keys[m] == r0[i].0);
            } else {
                assert(r[i] == r1[i - r0.len()]);
                assert(r1[i - r0.len()].0 == keys.last());
                assert(keys[keys.len() - 1] == keys.last());
            }
        }
    }
}

/// A key that all three objects hold is found in the merged object with
/// the merge of the three values.
proof fn lemma_fields_find(
    bf: Seq<(Seq<char>, JVal)>,
    df: Seq<(Seq<char>, JVal)>,
    lf: Seq<(Seq<char>, JVal)>,
    keys: Seq<Seq<char>>,
    ptr: Seq<char>,
    k: Seq<char>,
)
    requires
        keys.contains(k),
        find_key(bf, k) is Some,
        find_key(df, k) is Some,
        find_key(lf, k) is Some,
    ensures
        ({
            let r = merge_fields(bf, df, lf, keys, ptr).0;
            let v = merge_spec(
                bf[find_key(bf, k)->0].1,
                df[find_key(df, k)->0].1,
                lf[find_key(lf, k)->0].1,
                child_ptr(ptr, k),
            ).0;
            find_key(r, k) matches Some(i) && r[i].1 == v
        }),
    decreases keys.len(),
{
    let r0 = merge_fields(bf, df, lf, keys.drop_last(), ptr).0;
    let r1 = merge_key(bf, df, lf, keys.last(), ptr).0;
    let r = merge_fields(bf, df, lf, keys, ptr).0;
    assert(r == r0 + r1);
    lemma_find_from(bf, k, 0);
    lemma_find_from(df, k, 0);
    lemma_find_from(lf, k, 0);
    if keys.drop_last().contains(k) {
        lemma_fields_find(bf, df, lf, keys.drop_last(), ptr, k);
        let i = find_key(r0, k)->0;
        lemma_find_from(r0, k, 0);
        assert forall|m: int| 0 <= m < i implies r[m].0 != k by {
            assert(r[m] == r0[m]);
        }
        assert(r[i] == r0[i]);
        lemma_find_first(r, k, i, 0);
    } else {
        let idx = choose|m: int| 0 <= m < keys.len() && keys[m] == k;
        if idx < keys.len() - 1 {
            assert(keys.drop_last()[idx] == k);
        }
        assert(keys.last() == k);
        lemma_fields_keys(bf, df, lf, keys.drop_last(), ptr);
        assert forall|m: int| 0 <= m < r0.len() implies r[m].0 != k by {
            assert(r[m] == r0[m]);
            assert(keys.drop_last().contains(r0[m].0));
        }
        assert(r[r0.len() as int] == r1[0]);
        lemma_find_first(r, k, r0.len() as int, 0);
    }
}

/// Merging three elements that carry one id gives an element with that id.
proof fn lemma_id_kept(x: JVal, y: JVal, z: JVal, q: Seq<char>, id: Seq<char>)
    requires
        id_of(x) == Some(id),
        id_of(y) == Some(id),
        id_of(z) == Some(id),
    ensures
        id_of(merge_spec(x, y, z, q).0) == Some(id),
{
    if y != z && x != z && x != y {
        let xf = x->Obj_0;
        let yf = y->Obj_0;
        let zf = z->Obj_0;
        let k = "id"@;
        lemma_key_in(xf, k);
        let keys = union3(keys_of(xf), keys_of(yf), keys_of(zf));
        lemma_union3_contains(keys_of(xf), keys_of(yf), keys_of(zf), k);
        lemma_fields_find(xf, yf, zf, keys, q, k);
        lemma_find_from(xf, k, 0);
        lemma_find_from(yf, k, 0);
        lemma_find_from(zf, k, 0);
        let mf = merge_fields(xf, yf, zf, keys, q).0;
        let i = find_key(mf, k)->0;
        assert(mf[i].1 == JVal::Str(id));
    }
}

proof fn lemma_last_after(a: Seq<JVal>, id: Seq<char>, n: int)
    requires
        0 <= n <= a.len(),
    ensures
        last_id(a, id, n) matches Some(i) ==> forall|m: int| i < m < n ==> id_of(#[trigger] a[m]) != Some(id),
    decreases n,
{
    if n > 0 && id_of(a[n - 1]) != Some(id) {
        lemma_last_after(a, id, n - 1);
    }
}

proof fn lemma_last_split(r: Seq<JVal>, id: Seq<char>, i: int, n: int)
    requires
        0 <= i < n <= r.len(),
        id_of(r[i]) == Some(id),
        forall|m: int| i < m < r.len() ==> id_of(#[trigger] r[m]) != Some(id),
    ensures
        last_id(r, id, n) == Some(i),
    decreases n,
{
    if n - 1 > i {
        lemma_last_split(r, id, i, n - 1);
    }
}

/// After the disk element that last carries `id`, the first pass emits no
/// element with that id.
proof fn lemma_disk_tail(ba: Seq<JVal>, da: Seq<JVal>, la: Seq<JVal>, n: int, ptr: Seq<char>, j: int, id: Seq<char>)
    requires
        id_keyed(ba) && id_keyed(da) && id_keyed(la),
        0 <= j < n <= da.len(),
        forall|m: int| j < m < da.len() ==> id_of(#[trigger] da[m]) != Some(id),
    ensures
        ({
            let p = merge_disk_elems(ba, da, la, j + 1, ptr).0;
            let r = merge_disk_elems(ba, da, la, n, ptr).0;
            &&& r.len() >= p.len()
            &&& r.take(p.len() as int) == p
            &&& forall|m: int| p.len() <= m < r.len() ==> id_of(#[trigger] r[m]) != Some(id)
        }),
    decreases n,
{
    let p = merge_disk_elems(ba, da, la, j + 1, ptr).0;
    let r = merge_disk_elems(ba, da, la, n, ptr).0;
    if n > j + 1 {
        lemma_disk_tail(ba, da, la, n - 1, ptr, j, id);
        let r0 = merge_disk_elems(ba, da, la, n - 1, ptr).0;
        let el = da[n - 1];
        assert(id_of(el) is Some);
        let x = id_of(el)->0;
        assert(x != id);
        assert(r.len() >= r0.len());
        assert forall|m: int| 0 <= m < r0.len() implies r[m] == r0[m] by {}
        assert forall|m: int| r0.len() <= m < r.len() implies id_of(#[trigger] r[m]) != Some(id) by {
            match (last_of(ba, x), last_of(la, x)) {
                (Some(bi), Some(li)) => {
                    lemma_last_id(ba, x, ba.len() as int);
                    lemma_last_id(la, x, la.len() as int);
                    lemma_id_kept(ba[bi], el, la[li], elem_ptr(ptr, x), x);
                    assert(r[m] == merge_spec(ba[bi], el, la[li], elem_ptr(ptr, x)).0);
                },
                _ => {
                    assert(r[m] == el);
                },
            }
        }
        assert(r.take(p.len() as int) =~= p) by {
            assert forall|m: int| 0 <= m < p.len() implies r[m] == p[m] by {
                assert(r0.take(p.len() as int)[m] == r0[m]);
            }
        }
    } else {
        assert(r.take(p.len() as int) =~= p);
    }
}

/// When disk has an element with `id`, the second pass emits none with it.
proof fn lemma_local_ids(ba: Seq<JVal>, da: Seq<JVal>, la: Seq<JVal>, n: int, ptr: Seq<char>, id: Seq<char>)
    requires
        last_of(da, id) is Some,
    ensures
        forall|m: int|
            0 <= m < merge_local_only(ba, da, la, n, ptr).0.len() ==> id_of(
                #[trigger] merge_local_only(ba, da, la, n, ptr).0[m],
            ) != Some(id),
    decreases if n > 0 { n } else { 0 },
{
    if 0 < n <= la.len() {
        lemma_local_ids(ba, da, la, n - 1, ptr, id);
        let r0 = merge_local_only(ba, da, la, n - 1, ptr).0;
        let r1 = local_elem(ba, da, la, n - 1, ptr).0;
        let r = merge_local_only(ba, da, la, n, ptr).0;
        assert(r == r0 + r1);
        assert forall|m: int| 0 <= m < r.len() implies id_of(#[trigger] r[m]) != Some(id) by {
            if m < r0.len() {
                assert(r[m] == r0[m]);
            } else {
                assert(r[m] == r1[m - r0.len()]);
            }
        }
    }
}

/// In a conflict-free merge of id-keyed arrays, the element with `id` in
/// the result is the merge of the three elements that carry it.
#[verifier::rlimit(40)]
proof fn lemma_arr_at(ba: Seq<JVal>, da: Seq<JVal>, la: Seq<JVal>, ptr: Seq<char>, id: Seq<char>)
    requires
        id_keyed(ba) && id_keyed(da) && id_keyed(la),
        last_of(ba, id) is Some,
        last_of(da, id) is Some,
        last_of(la, id) is Some,
        (merge_disk_elems(ba, da, la, da.len() as int, ptr).1 + merge_local_only(
            ba,
            da,
            la,
            la.len() as int,
            ptr,
        ).1).len() == 0,
    ensures
        ({
            let rr = merge_disk_elems(ba, da, la, da.len() as int, ptr).0 + merge_local_only(
                ba,
                da,
                la,
                la.len() as int,
                ptr,
            ).0;
            let e = merge_spec(
                ba[last_of(ba, id)->0],
                da[last_of(da, id)->0],
                la[last_of(la, id)->0],
                elem_ptr(ptr, id),
            );
            &&& e.1.len() == 0
            &&& last_of(rr, id) matches Some(i) && rr[i] == e.0
        }),
{
    let bi = last_of(ba, id)->0;
    let j = last_of(da, id)->0;
    let li = last_of(la, id)->0;
    lemma_last_id(ba, id, ba.len() as int);
    lemma_last_id(da, id, da.len() as int);
    lemma_last_id(la, id, la.len() as int);
    lemma_last_after(da, id, da.len() as int);
    let e = merge_spec(ba[bi], da[j], la[li], elem_ptr(ptr, id));
    let d1 = merge_disk_elems(ba, da, la, da.len() as int, ptr);
    let l1 = merge_local_only(ba, da, la, la.len() as int, ptr);
    if e.1.len() > 0 {
        lemma_disk_elems_conflict(ba, da, la, da.len() as int, ptr, j, id);
        assert((d1.1 + l1.1).len() > 0);
    }
    lemma_disk_tail(ba, da, la, da.len() as int, ptr, j, id);
    lemma_local_ids(ba, da, la, la.len() as int, ptr, id);
    lemma_id_kept(ba[bi], da[j], la[li], elem_ptr(ptr, id), id);
    let p = merge_disk_elems(ba, da, la, j + 1, ptr).0;
    let p0 = merge_disk_elems(ba, da, la, j, ptr).0;
    assert(p == p0 + seq![e.0]);
    let idx = p0.len() as int;
    let rr = d1.0 + l1.0;
    assert(rr[idx] == e.0) by {
        assert(d1.0.take(p.len() as int)[idx] == d1.0[idx]);
    }
    assert forall|m: int| idx < m < rr.len() implies id_of(#[trigger] rr[m]) != Some(id) by {
        if m < d1.0.len() {
            assert(rr[m] == d1.0[m]);
        } else {
            assert(rr[m] == l1.0[m - d1.0.len()]);
        }
    }
    lemma_last_split(rr, id, idx, rr.len() as int);
}

/// Following a path through a conflict-free merge, the merged document
/// holds the merge of the three values found along the path.
proof fn lemma_merge_at(b: JVal, d: JVal, l: JVal, path: Seq<PathStep>, ptr: Seq<char>)
    requires
        at_path(b, path) is Some,
        at_path(d, path) is Some,
        at_path(l, path) is Some,
        merge_spec(b, d, l, ptr).1.len() == 0,
    ensures
        at_path(merge_spec(b, d, l, ptr).0, path) == Some(
            merge_spec(at_path(b, path)->0, at_path(d, path)->0, at_path(l, path)->0, path_ptr(ptr, path)).0,
        ),
    decreases path.len(),
{
    if path.len() > 0 {
        let s = path[0];
        let rest = path.drop_first();
        let cb = at_step(b, s)->0;
        let cd = at_step(d, s)->0;
        let cl = at_step(l, s)->0;
        assert(at_path(b, path) == at_path(cb, rest));
        assert(at_path(d, path) == at_path(cd, rest));
        assert(at_path(l, path) == at_path(cl, rest));
        let bv = at_path(b, path)->0;
        let dv = at_path(d, path)->0;
        let lv = at_path(l, path)->0;
        let q = path_ptr(ptr, path);
        if d == l {
            assert(dv == lv);
        } else if b == l {
            assert(bv == lv);
        } else if b == d {
            assert(bv == dv);
        } else {
            match s {
                PathStep::Key(k) => {
                    let bf = b->Obj_0;
                    let df = d->Obj_0;
                    let lf = l->Obj_0;
                    lemma_find_from(bf, k, 0);
                    lemma_find_from(df, k, 0);
                    lemma_find_from(lf, k, 0);
                    lemma_key_in(bf, k);
                    let keys = union3(keys_of(bf), keys_of(df), keys_of(lf));
                    lemma_union3_contains(keys_of(bf), keys_of(df), keys_of(lf), k);
                    let cp = child_ptr(ptr, k);
                    if merge_spec(cb, cd, cl, cp).1.len() > 0 {
                        assert(merge_key(bf, df, lf, k, ptr).1.len() > 0);
                        lemma_fields_conflict(bf, df, lf, keys, ptr, k);
                    }
                    lemma_fields_find(bf, df, lf, keys, ptr, k);
                    lemma_merge_at(cb, cd, cl, rest, cp);
                    let mf = merge_fields(bf, df, lf, keys, ptr).0;
                    assert(merge_spec(b, d, l, ptr).0 == JVal::Obj(mf));
                    assert(at_step(JVal::Obj(mf), s) == Some(merge_spec(cb, cd, cl, cp).0));
                    assert(path_ptr(ptr, path) == path_ptr(cp, rest));
                },
                PathStep::Id(id) => {
                    let ba = b->Arr_0;
                    let da = d->Arr_0;
                    let la = l->Arr_0;
                    assert(id_keyed(ba) && id_keyed(da) && id_keyed(la));
                    let ep = elem_ptr(ptr, id);
                    lemma_arr_at(ba, da, la, ptr, id);
                    lemma_merge_at(cb, cd, cl, rest, ep);
                    assert(path_ptr(ptr, path) == path_ptr(ep, rest));
                },
            }
        }
    }
}

/// The one-sided rows of the merge table hold at any depth: following
/// object keys and the ids of id-keyed array elements, where the disk copy
/// still holds the ancestor's value the merged document holds the local
/// value, where the local copy does it holds the disk value, and where both
/// sides agree it holds their common value.
pub proof fn law_one_sided_at_path(b: JVal, d: JVal, l: JVal, path: Seq<PathStep>)
    requires
        at_path(b, path) is Some,
        at_path(d, path) is Some,
        at_path(l, path) is Some,
    ensures
        merge_outcome(b, d, l) matches MergeOutcomeV::Merged(m) ==> {
            &&& at_path(d, path) == at_path(b, path) ==> at_path(m, path) == at_path(l, path)
            &&& at_path(l, path) == at_path(b, path) ==> at_path(m, path) == at_path(d, path)
            &&& at_path(d, path) == at_path(l, path) ==> at_path(m, path) == at_path(d, path)
        },
{
    if merge_spec(b, d, l, "$"@).1.len() == 0 {
        lemma_merge_at(b, d, l, path, "$"@);
    }
}

} // verus!

verus! {

/// A key whose merge yields exactly one entry is found in the merged
/// object with that entry's value.
proof fn lemma_fields_find_entry(
    bf: Seq<(Seq<char>, JVal)>,
    df: Seq<(Seq<char>, JVal)>,
    lf: Seq<(Seq<char>, JVal)>,
    keys: Seq<Seq<char>>,
    ptr: Seq<char>,
    k: Seq<char>,
    v: JVal,
)
    requires
        keys.contains(k),
        merge_key(bf, df, lf, k, ptr).0 == seq![(k, v)],
    ensures
        ({
            let r = merge_fields(bf, df, lf, keys, ptr).0;
            find_key(r, k) matches Some(i) && r[i].1 == v
        }),
    decreases keys.len(),
{
    let r0 = merge_fields(bf, df, lf, keys.drop_last(), ptr).0;
    let r1 = merge_key(bf, df, lf, keys.last(), ptr).0;
    let r = merge_fields(bf, df, lf, keys, ptr).0;
    assert(r == r0 + r1);
    if keys.drop_last().contains(k) {
        lemma_fields_find_entry(bf, df, lf, keys.drop_last(), ptr, k, v);
        let i = find_key(r0, k)->0;
        lemma_find_from(r0, k, 0);
        assert forall|m: int| 0 <= m < i implies r[m].0 != k by {
            assert(r[m] == r0[m]);
        }
        assert(r[i] == r0[i]);
        lemma_find_first(r, k, i, 0);
    } else {
        let idx = choose|m: int| 0 <= m < keys.len() && keys[m] == k;
        if idx < keys.len() - 1 {
            assert(keys.drop_last()[idx] == k);
        }
        assert(keys.last() == k);
        lemma_fields_keys(bf, df, lf, keys.drop_last(), ptr);
        assert forall|m: int| 0 <= m < r0.len() implies r[m].0 != k by {
            assert(r[m] == r0[m]);
            assert(keys.drop_last().contains(r0[m].0));
        }
        assert(r[r0.len() as int] == r1[0]);
        lemma_find_first(r, k, r0.len() as int, 0);
    }
}

proof fn lemma_at_path_push(v: JVal, path: Seq<PathStep>, s: PathStep)
    ensures
        at_path(v, path.push(s)) == match at_path(v, path) {
            Some(x) => at_step(x, s),
            None => None,
        },
    decreases path.len(),
{
    let ps = path.push(s);
    if path.len() == 0 {
        assert(ps.drop_first() =~= Seq::<PathStep>::empty());
        assert(ps[0] == s);
        match at_step(v, s) {
            Some(c) => {
                assert(at_path(c, ps.drop_first()) == Some(c));
            },
            None => {},
        }
        assert(at_path(v, path) == Some(v));
    } else {
        assert(ps[0] == path[0]);
        assert(ps.drop_first() =~= path.drop_first().push(s));
        match at_step(v, path[0]) {
            Some(c) => {
                lemma_at_path_push(c, path.drop_first(), s);
                assert(at_path(v, ps) == at_path(c, ps.drop_first()));
                assert(at_path(v, path) == at_path(c, path.drop_first()));
            },
            None => {
                assert(at_path(v, ps) is None);
                assert(at_path(v, path) is None);
            },
        }
    }
}

/// In the merge of three objects, a key that only one side added keeps the
/// value that side gave it.
proof fn lemma_added_key(
    bf: Seq<(Seq<char>, JVal)>,
    df: Seq<(Seq<char>, JVal)>,
    lf: Seq<(Seq<char>, JVal)>,
    ptr: Seq<char>,
    k: Seq<char>,
)
    requires
        find_key(bf, k) is None,
        (find_key(df, k) is None && find_key(lf, k) is Some) || (find_key(df, k) is Some && find_key(lf, k) is None),
    ensures
        find_key(df, k) is None ==> at_step(merge_spec(JVal::Obj(bf), JVal::Obj(df), JVal::Obj(lf), ptr).0, PathStep::Key(k))
            == at_step(JVal::Obj(lf), PathStep::Key(k)),
        find_key(lf, k) is None ==> at_step(merge_spec(JVal::Obj(bf), JVal::Obj(df), JVal::Obj(lf), ptr).0, PathStep::Key(k))
            == at_step(JVal::Obj(df), PathStep::Key(k)),
{
    let (b, d, l) = (JVal::Obj(bf), JVal::Obj(df), JVal::Obj(lf));
    if d != l && b != l && b != d {
        let keys = union3(keys_of(bf), keys_of(df), keys_of(lf));
        lemma_find_from(df, k, 0);
        lemma_find_from(lf, k, 0);
        if find_key(df, k) is None {
            lemma_key_in(lf, k);
            lemma_union3_contains(keys_of(bf), keys_of(df), keys_of(lf), k);
            lemma_fields_find_entry(bf, df, lf, keys, ptr, k, lf[find_key(lf, k)->0].1);
        } else {
            lemma_key_in(df, k);
            lemma_union3_contains(keys_of(bf), keys_of(df), keys_of(lf), k);
            lemma_fields_find_entry(bf, df, lf, keys, ptr, k, df[find_key(df, k)->0].1);
        }
    }
}

/// A one-sided addition is never lost: where, along `path`, the three
/// documents hold objects and only the local side (or only the disk side)
/// has key `k`, a conflict-free merge holds `k` there with that side's value.
pub proof fn law_added_key_kept(b: JVal, d: JVal, l: JVal, path: Seq<PathStep>, k: Seq<char>)
    requires
        at_path(b, path) matches Some(x) && x is Obj,
        at_path(d, path) matches Some(x) && x is Obj,
        at_path(l, path) matches Some(x) && x is Obj,
    ensures
        ({
            let bf = at_path(b, path)->0->Obj_0;
            let df = at_path(d, path)->0->Obj_0;
            let lf = at_path(l, path)->0->Obj_0;
            let kp = path.push(PathStep::Key(k));
            merge_outcome(b, d, l) matches MergeOutcomeV::Merged(m) ==> {
                &&& find_key(bf, k) is None && find_key(df, k) is None && find_key(lf, k) is Some ==> at_path(m, kp)
                    == at_path(l, kp)
                &&& find_key(bf, k) is None && find_key(lf, k) is None && find_key(df, k) is Some ==> at_path(m, kp)
                    == at_path(d, kp)
            }
        }),
{
    let bv = at_path(b, path)->0;
    let dv = at_path(d, path)->0;
    let lv = at_path(l, path)->0;
    let kp = path.push(PathStep::Key(k));
    if merge_spec(b, d, l, "$"@).1.len() == 0 {
        lemma_merge_at(b, d, l, path, "$"@);
        let m = merge_spec(b, d, l, "$"@).0;
        let q = path_ptr("$"@, path);
        lemma_at_path_push(m, path, PathStep::Key(k));
        lemma_at_path_push(l, path, PathStep::Key(k));
        lemma_at_path_push(d, path, PathStep::Key(k));
        let (bf, df, lf) = (bv->Obj_0, dv->Obj_0, lv->Obj_0);
        assert(bv == JVal::Obj(bf) && dv == JVal::Obj(df) && lv == JVal::Obj(lf));
        if find_key(bf, k) is None && ((find_key(df, k) is None && find_key(lf, k) is Some) || (find_key(df, k) is Some
            && find_key(lf, k) is None)) {
            lemma_added_key(bf, df, lf, q, k);
        }
    }
}

} // verus!
