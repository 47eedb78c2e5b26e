//! The cut list's `keep` and `removedMs`, recomputed from the cuts whose
//! action is `remove`: remove spans sorted by `inMs`, `keep` the complement
//! in `[0, srcTotalMs]` (ends clamped, empty spans dropped), adjacent
//! removes merging naturally.

use vstd::prelude::*;
use crate::json::{Json, JNum, JVal, NumV, fields_view, arr_view, str_eq};
use crate::codec::{lookup, get_field};
use crate::engine::obj_insert;
use crate::text::{dec, push_dec};

verus! {

/// A JSON number read as a 64-bit signed integer.
pub open spec fn as_i64(j: JVal) -> Option<int> {
    match j {
        JVal::Num(NumV::PosInt(n)) => if n <= i64::MAX {
            Some(n as int)
        } else {
            None
        },
        JVal::Num(NumV::NegInt(i)) => Some(i as int),
        _ => None,
    }
}

/// The member `k` of an object (none for a value that is not an object).
pub open spec fn member(j: JVal, k: Seq<char>) -> Option<JVal> {
    match j {
        JVal::Obj(fs) => lookup(fs, k),
        _ => None,
    }
}

/// The remove spans of the cuts, in order.
pub open spec fn removes_of(cuts: Seq<JVal>) -> Seq<(int, int)>
    decreases cuts.len(),
{
    if cuts.len() == 0 {
        Seq::empty()
    } else {
        let rest = removes_of(cuts.drop_last());
        let c = cuts.last();
        if member(c, "action"@) == Some(JVal::Str("remove"@)) && member(c, "inMs"@) is Some && as_i64(
            member(c, "inMs"@)->0,
        ) is Some && member(c, "outMs"@) is Some && as_i64(member(c, "outMs"@)->0) is Some {
            rest.push((as_i64(member(c, "inMs"@)->0)->0, as_i64(member(c, "outMs"@)->0)->0))
        } else {
            rest
        }
    }
}

/// `x` inserted after every element whose start is not greater.
pub open spec fn insert_sorted(s: Seq<(int, int)>, x: (int, int)) -> Seq<(int, int)>
    decreases s.len(),
{
    if s.len() == 0 {
        seq![x]
    } else if s.last().0 <= x.0 {
        s.push(x)
    } else {
        insert_sorted(s.drop_last(), x).push(s.last())
    }
}

/// The spans sorted by start, equal starts in their original order.
pub open spec fn sort_by_start(s: Seq<(int, int)>) -> Seq<(int, int)>
    decreases s.len(),
{
    if s.len() == 0 {
        Seq::empty()
    } else {
        insert_sorted(sort_by_start(s.drop_last()), s.last())
    }
}

pub open spec fn clamp0(x: int, total: int) -> int {
    let y = if x < 0 { 0 } else { x };
    if y > total { total } else { y }
}

/// The keep spans before the tail, and the cursor, after the first `n`
/// sorted removes.
pub open spec fn keep_fold(rs: Seq<(int, int)>, total: int, n: int) -> (Seq<(int, int)>, int)
    decreases n,
{
    if n <= 0 {
        (Seq::empty(), 0)
    } else {
        let (k, cur) = keep_fold(rs, total, n - 1);
        let a = clamp0(rs[n - 1].0, total);
        let b = clamp0(rs[n - 1].1, total);
        let k2 = if a > cur { k.push((cur, a)) } else { k };
        (k2, if cur > b { cur } else { b })
    }
}

pub open spec fn drop_empty(k: Seq<(int, int)>) -> Seq<(int, int)> {
    k.filter(|s: (int, int)| s.1 - s.0 > 0)
}

/// The keep spans: the complement of the removes in `[0, total]`.
pub open spec fn keep_of(rs: Seq<(int, int)>, total: int) -> Seq<(int, int)> {
    let (k, cur) = keep_fold(rs, total, rs.len() as int);
    drop_empty(if cur < total { k.push((cur, total)) } else { k })
}

pub open spec fn removed_sum(rs: Seq<(int, int)>) -> int
    decreases rs.len(),
{
    if rs.len() == 0 {
        0
    } else {
        removed_sum(rs.drop_last()) + (rs.last().1 - rs.last().0)
    }
}

pub open spec fn int_text(i: int) -> Seq<char> {
    if i < 0 {
        seq!['-'] + dec((-i) as nat)
    } else {
        dec(i as nat)
    }
}

/// The first fault of keep spans from `i`, with the cursor `cur` (the end
/// of the span before).
pub open spec fn keep_fault(k: Seq<(int, int)>, i: int, cur: int, total: int) -> Option<Seq<char>>
    decreases k.len() - i,
{
    if i < 0 || i >= k.len() {
        if cur != total {
            Some("keep 未覆盖到片尾:cursor="@ + int_text(cur) + " total="@ + int_text(total))
        } else {
            None
        }
    } else {
        let (a, b) = k[i];
        if a < cur {
            Some("keep 区间重叠:a="@ + int_text(a) + " < 上一段末尾 "@ + int_text(cur))
        } else if b <= a {
            Some("keep 空区间:"@ + int_text(a) + "-"@ + int_text(b))
        } else {
            keep_fault(k, i + 1, b, total)
        }
    }
}

pub open spec fn int_json(i: int) -> JVal {
    if i >= 0 {
        JVal::Num(NumV::PosInt(i as u64))
    } else {
        JVal::Num(NumV::NegInt(i as i64))
    }
}

pub open spec fn keep_json(k: Seq<(int, int)>) -> JVal {
    JVal::Arr(k.map_values(|s: (int, int)| JVal::Arr(seq![int_json(s.0), int_json(s.1)])))
}

/// The cut list with `keep` and `removedMs` recomputed, or why not.
pub open spec fn finalize_spec(cl: JVal) -> Result<JVal, Seq<char>> {
    match member(cl, "srcTotalMs"@) {
        None => Err("缺 srcTotalMs"@),
        Some(tj) => match as_i64(tj) {
            None => Err("缺 srcTotalMs"@),
            Some(total) => match member(cl, "cuts"@) {
                Some(JVal::Arr(cuts)) => {
                    let rs = sort_by_start(removes_of(cuts));
                    let keep = keep_of(rs, total);
                    let removed = removed_sum(rs);
                    match keep_fault(keep, 0, 0, total) {
                        Some(m) => Err(m),
                        None => if rs.len() >= SPAN_LIMIT {
                            Err("remove 区间过多"@)
                        } else if removed < i64::MIN || removed > i64::MAX {
                            Err("removedMs 超出范围"@)
                        } else {
                            match cl {
                                JVal::Obj(fs) => Ok(
                                    JVal::Obj(
                                        obj_insert(obj_insert(fs, "keep"@, keep_json(keep)), "removedMs"@, int_json(removed)),
                                    ),
                                ),
                                _ => Err("cutlist 必须是 object"@),
                            }
                        },
                    }
                },
                _ => Err("缺 cuts"@),
            },
        },
    }
}

} // verus!

verus! {

fn i64_of(j: &Json) -> (r: Option<i64>)
    ensures
        match r {
            Some(i) => as_i64(j@) == Some(i as int),
            None => as_i64(j@) is None,
        },
{
    match j {
        Json::Num(JNum::PosInt(n)) => if *n <= 0x7fff_ffff_ffff_ffff {
            Some(*n as i64)
        } else {
            None
        },
        Json::Num(JNum::NegInt(i)) => Some(*i),
        _ => None,
    }
}

fn member_of<'a>(j: &'a Json, k: &str) -> (r: Option<&'a Json>)
    ensures
        match r {
            Some(x) => member(j@, k@) == Some(x@),
            None => member(j@, k@) is None,
        },
{
    match j {
        Json::Obj(fs) => {
            proof {
                crate::json::lemma_fields_view(*fs);
            }
            get_field(fs, k)
        },
        _ => None,
    }
}

pub open spec fn pairs_view(v: Seq<(i64, i64)>) -> Seq<(int, int)> {
    v.map_values(|p: (i64, i64)| (p.0 as int, p.1 as int))
}

proof fn lemma_insert_sorted(s: Seq<(int, int)>, x: (int, int), pos: int)
    requires
        0 <= pos <= s.len(),
        forall|j: int| pos <= j < s.len() ==> s[j].0 > x.0,
        pos == 0 || s[pos - 1].0 <= x.0,
    ensures
        insert_sorted(s, x) == s.insert(pos, x),
    decreases s.len(),
{
    if s.len() == 0 {
        assert(s.insert(pos, x) =~= seq![x]);
    } else if pos == s.len() {
        assert(s.insert(pos, x) =~= s.push(x));
    } else {
        let p = s.drop_last();
        lemma_insert_sorted(p, x, pos);
        assert(s.insert(pos, x) =~= p.insert(pos, x).push(s.last()));
    }
}

fn sort_spans(v: &Vec<(i64, i64)>) -> (r: Vec<(i64, i64)>)
    ensures
        pairs_view(r@) == sort_by_start(pairs_view(v@)),
        r.len() == v.len(),
{
    let ghost vv = pairs_view(v@);
    let mut out: Vec<(i64, i64)> = Vec::new();
    let mut i: usize = 0;
    assert(pairs_view(out@) =~= sort_by_start(vv.take(0)));
    while i < v.len()
        invariant
            i <= v.len(),
            vv == pairs_view(v@),
            out.len() == i,
            pairs_view(out@) == sort_by_start(vv.take(i as int)),
        decreases v.len() - i,
    {
        let x = v[i];
        let ghost ov = pairs_view(out@);
        let mut pos: usize = out.len();
        while pos > 0 && out[pos - 1].0 > x.0
            invariant
                pos <= out.len(),
                ov == pairs_view(out@),
                forall|j: int| pos <= j < out.len() ==> ov[j].0 > x.0,
            decreases pos,
        {
            pos -= 1;
        }
        proof {
            lemma_insert_sorted(ov, (x.0 as int, x.1 as int), pos as int);
        }
        out.insert(pos, x);
        assert(pairs_view(out@) =~= ov.insert(pos as int, (x.0 as int, x.1 as int)));
        assert(vv.take(i + 1).drop_last() =~= vv.take(i as int));
        i += 1;
    }
    assert(vv.take(v.len() as int) =~= vv);
    out
}

fn int_string(i: i64) -> (r: String)
    ensures
        r@ == int_text(i as int),
{
    proof {
        reveal_strlit("-");
    }
    let mut s = String::new();
    if i < 0 {
        s.append("-");
        let u: u64 = if i == i64::MIN {
            9223372036854775808u64
        } else {
            (-i) as u64
        };
        push_dec(&mut s, u);
    } else {
        push_dec(&mut s, i as u64);
    }
    assert(s@ =~= int_text(i as int));
    s
}

fn int_json_exec(i: i64) -> (r: Json)
    ensures
        r@ == int_json(i as int),
{
    if i >= 0 {
        Json::Num(JNum::PosInt(i as u64))
    } else {
        Json::Num(JNum::NegInt(i))
    }
}

/// The largest number of remove spans the recomputation takes (far beyond
/// any memory).
pub const SPAN_LIMIT: u64 = 0x4000_0000_0000_0000;

/// Recomputes `keep` and `removedMs` of a cut list from its remove cuts,
/// in place; refuses (and leaves the cut list as it was) when the result
/// would not be a valid cover of the source (unordered, empty, or not
/// reaching the end).
pub fn finalize_cutlist_value(cl: &mut Json) -> (r: Result<(), String>)
    ensures
        match finalize_spec(old(cl)@) {
            Ok(v) => r is Ok && final(cl)@ == v,
            Err(m) => r matches Err(e) && e@ == m && final(cl)@ == old(cl)@,
        },
{
    let total = match member_of(cl, "srcTotalMs") {
        Some(t) => match i64_of(t) {
            Some(x) => x,
            None => {
                return Err("缺 srcTotalMs".to_string());
            },
        },
        None => {
            return Err("缺 srcTotalMs".to_string());
        },
    };
    let cuts = match member_of(cl, "cuts") {
        Some(Json::Arr(a)) => a,
        _ => {
            return Err("缺 cuts".to_string());
        },
    };
    proof {
        crate::json::lemma_arr_view(*cuts);
    }
    let ghost cv = arr_view(cuts@);
    let mut removes: Vec<(i64, i64)> = Vec::new();
    let mut i: usize = 0;
    assert(pairs_view(removes@) =~= removes_of(cv.take(0)));
    while i < cuts.len()
        invariant
            i <= cuts.len(),
            cv == arr_view(cuts@),
            pairs_view(removes@) == removes_of(cv.take(i as int)),
        decreases cuts.len() - i,
    {
        let c = &cuts[i];
        assert(cv[i as int] == c@);
        assert(cv.take(i + 1).drop_last() =~= cv.take(i as int));
        let is_remove = match member_of(c, "action") {
            Some(Json::Str(a)) => str_eq(a.as_str(), "remove"),
            _ => false,
        };
        let span = match (member_of(c, "inMs"), member_of(c, "outMs")) {
            (Some(a), Some(b)) => match (i64_of(a), i64_of(b)) {
                (Some(x), Some(y)) => Some((x, y)),
                _ => None,
            },
            _ => None,
        };
        proof {
            reveal_strlit("remove");
        }
        if is_remove {
            if let Some(p) = span {
                let ghost prev = pairs_view(removes@);
                removes.push(p);
                assert(pairs_view(removes@) =~= prev.push((p.0 as int, p.1 as int)));
            }
        }
        i += 1;
    }
    assert(cv.take(cuts.len() as int) =~= cv);
    let rs = sort_spans(&removes);
    let ghost rv = pairs_view(rs@);
    // keep: the complement of the removes
    let mut keep: Vec<(i64, i64)> = Vec::new();
    let mut cursor: i64 = 0;
    let mut j: usize = 0;
    assert(pairs_view(keep@) =~= keep_fold(rv, total as int, 0).0);
    while j < rs.len()
        invariant
            j <= rs.len(),
            rv == pairs_view(rs@),
            (pairs_view(keep@), cursor as int) == keep_fold(rv, total as int, j as int),
        decreases rs.len() - j,
    {
        let (a0, b0) = rs[j];
        let a = if a0 < 0 { 0 } else { a0 };
        let a = if a > total { total } else { a };
        let b = if b0 < 0 { 0 } else { b0 };
        let b = if b > total { total } else { b };
        let ghost prev = pairs_view(keep@);
        if a > cursor {
            keep.push((cursor, a));
            assert(pairs_view(keep@) =~= prev.push((cursor as int, a as int)));
        }
        if b > cursor {
            cursor = b;
        }
        j += 1;
    }
    if cursor < total {
        let ghost prev = pairs_view(keep@);
        keep.push((cursor, total));
        assert(pairs_view(keep@) =~= prev.push((cursor as int, total as int)));
    }
    let ghost pre = pairs_view(keep@);
    let mut kept: Vec<(i64, i64)> = Vec::new();
    let mut q: usize = 0;
    proof {
        reveal(Seq::filter);
        assert(pre.take(0) =~= Seq::<(int, int)>::empty());
        assert(pairs_view(kept@) =~= pre.take(0).filter(|s: (int, int)| s.1 - s.0 > 0));
    }
    while q < keep.len()
        invariant
            q <= keep.len(),
            pre == pairs_view(keep@),
            pairs_view(kept@) == pre.take(q as int).filter(|s: (int, int)| s.1 - s.0 > 0),
        decreases keep.len() - q,
    {
        proof {
            reveal(Seq::filter);
        }
        assert(pre.take(q + 1).drop_last() =~= pre.take(q as int));
        let s = keep[q];
        assert(pre.take(q + 1).last() == (s.0 as int, s.1 as int));
        if (s.1 as i128) - (s.0 as i128) > 0 {
            let ghost prev = pairs_view(kept@);
            kept.push(s);
            assert(pairs_view(kept@) =~= prev.push((s.0 as int, s.1 as int)));
        }
        q += 1;
    }
    assert(pre.take(keep.len() as int) =~= pre);
    let ghost kv = pairs_view(kept@);
    assert(kv == keep_of(rv, total as int));
    assert(rv == sort_by_start(removes_of(cv)));
    assert(keep_fault(kv, 0, 0, total as int) matches Some(m) ==> finalize_spec(old(cl)@) == Err::<JVal, Seq<char>>(m));
    // validation
    let mut cur: i64 = 0;
    let mut v: usize = 0;
    while v < kept.len()
        invariant
            v <= kept.len(),
            kv == pairs_view(kept@),
            keep_fault(kv, 0, 0, total as int) == keep_fault(kv, v as int, cur as int, total as int),
            keep_fault(kv, 0, 0, total as int) matches Some(m) ==> finalize_spec(old(cl)@) == Err::<JVal, Seq<char>>(m),
            *cl == *old(cl),
        decreases kept.len() - v,
    {
        let (a, b) = kept[v];
        if a < cur {
            let mut msg = "keep 区间重叠:a=".to_string();
            msg.append(int_string(a).as_str());
            msg.append(" < 上一段末尾 ");
            msg.append(int_string(cur).as_str());
            return Err(msg);
        }
        if b <= a {
            let mut msg = "keep 空区间:".to_string();
            msg.append(int_string(a).as_str());
            msg.append("-");
            msg.append(int_string(b).as_str());
            return Err(msg);
        }
        cur = b;
        v += 1;
    }
    if cur != total {
        let mut msg = "keep 未覆盖到片尾:cursor=".to_string();
        msg.append(int_string(cur).as_str());
        msg.append(" total=");
        msg.append(int_string(total).as_str());
        return Err(msg);
    }
    if rs.len() as u64 >= SPAN_LIMIT {
        return Err("remove 区间过多".to_string());
    }
    let mut sum: i128 = 0;
    let mut m: usize = 0;
    while m < rs.len()
        invariant
            m <= rs.len(),
            rs.len() < SPAN_LIMIT,
            rv == pairs_view(rs@),
            sum as int == removed_sum(rv.take(m as int)),
            -(m as int) * 0x1_0000_0000_0000_0000 <= sum <= (m as int) * 0x1_0000_0000_0000_0000,
        decreases rs.len() - m,
    {
        assert(rv.take(m + 1).drop_last() =~= rv.take(m as int));
        let d = (rs[m].1 as i128) - (rs[m].0 as i128);
        assert(-(m as int) * 0x1_0000_0000_0000_0000 - 0x1_0000_0000_0000_0000 == -((m + 1) as int) * 0x1_0000_0000_0000_0000) by (nonlinear_arith);
        assert((m as int) * 0x1_0000_0000_0000_0000 + 0x1_0000_0000_0000_0000 == ((m + 1) as int) * 0x1_0000_0000_0000_0000) by (nonlinear_arith);
        assert(((m + 1) as int) * 0x1_0000_0000_0000_0000 <= 0x4000_0000_0000_0000int * 0x1_0000_0000_0000_0000) by (nonlinear_arith)
            requires m + 1 <= 0x4000_0000_0000_0000int;
        sum = sum + d;
        m += 1;
    }
    assert(rv.take(rs.len() as int) =~= rv);
    if sum < -0x8000_0000_0000_0000i128 || sum > 0x7fff_ffff_ffff_ffffi128 {
        return Err("removedMs 超出范围".to_string());
    }
    let removed = sum as i64;
    // write back
    let mut keep_items: Vec<Json> = Vec::new();
    let mut w: usize = 0;
    while w < kept.len()
        invariant
            w <= kept.len(),
            kv == pairs_view(kept@),
            arr_view(keep_items@) == kv.take(w as int).map_values(
                |s: (int, int)| JVal::Arr(seq![int_json(s.0), int_json(s.1)]),
            ),
        decreases kept.len() - w,
    {
        let mut pair: Vec<Json> = Vec::new();
        pair.push(int_json_exec(kept[w].0));
        pair.push(int_json_exec(kept[w].1));
        let item = Json::Arr(pair);
        proof {
            crate::json::lemma_arr_view(pair);
            assert(arr_view(pair@) =~= seq![int_json(kept@[w as int].0 as int), int_json(kept@[w as int].1 as int)]);
        }
        let ghost prev = arr_view(keep_items@);
        keep_items.push(item);
        assert(arr_view(keep_items@) =~= prev.push(item@));
        assert(kv.take(w + 1).map_values(|s: (int, int)| JVal::Arr(seq![int_json(s.0), int_json(s.1)])) =~= kv.take(
            w as int,
        ).map_values(|s: (int, int)| JVal::Arr(seq![int_json(s.0), int_json(s.1)])).push(item@));
        w += 1;
    }
    assert(kv.take(kept.len() as int) =~= kv);
    let keep_val = Json::Arr(keep_items);
    proof {
        crate::json::lemma_arr_view(keep_items);
    }
    assert(keep_val@ == keep_json(kv));
    let mut taken = Json::Null;
    std::mem::swap(&mut taken, cl);
    match taken {
        Json::Obj(fs) => {
            proof {
                crate::json::lemma_fields_view(fs);
            }
            let fs = crate::engine::obj_insert_exec(fs, "keep", keep_val);
            let fs = crate::engine::obj_insert_exec(fs, "removedMs", int_json_exec(removed));
            *cl = Json::Obj(fs);
            proof {
                crate::json::lemma_fields_view(fs);
            }
            Ok(())
        },
        other => {
            *cl = other;
            Err("cutlist 必须是 object".to_string())
        },
    }
}

} // verus!
