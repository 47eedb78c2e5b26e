//! The schema check: a draft-07 subset (`type`, `const`, `enum`,
//! `required`, `properties`, `additionalProperties: false`, `items`,
//! `$ref` into the root document, `minimum`, `maximum`,
//! `exclusiveMinimum`, `minLength`, `maxLength`, `pattern`, `minItems`,
//! `maxItems`) plus two cross-field assertions, `x-removeRequiresGuardOk`
//! and `x-keepCoversTimeline`. The result is the list of violations, each
//! a message that starts with the JSON path where it was found.
//!
//! Numeric bounds are compared exactly when the bound and the value are
//! both integers; a bound or a value with a fraction is not checked here.

use vstd::prelude::*;
use crate::json::{Json, JNum, JVal, NumV, json_text, num_text, json_to_text, json_eq, str_eq, arr_view, fields_view, lemma_fields_view, lemma_arr_view};
use crate::codec::{lookup, get_field};
use crate::text::{dec, push_dec};
use crate::dispatch::debug_str;

verus! {

/// What `regex::Regex::new(pattern)` followed by `is_match(text)` gives:
/// whether the pattern matches somewhere in `text`, or `None` when the
/// pattern does not compile.
pub uninterp spec fn regex_match(pattern: Seq<char>, text: Seq<char>) -> Option<bool>;

/// `regex::Regex::new(pattern)` then `Regex::is_match(text)`; `None` when
/// `Regex::new` returns an error. Nothing more is claimed of the matcher.
#[verifier::external_body]
fn regex_is_match(pattern: &str, text: &str) -> (r: Option<bool>)
    ensures
        r == regex_match(pattern@, text@),
{
    match regex::Regex::new(pattern) {
        Ok(re) => Some(re.is_match(text)),
        Err(_) => None,
    }
}

/// The member `k` of an object (nothing for other values).
pub open spec fn member(v: JVal, k: Seq<char>) -> Option<JVal> {
    match v {
        JVal::Obj(fs) => lookup(fs, k),
        _ => None,
    }
}

pub open spec fn str_of(o: Option<JVal>) -> Option<Seq<char>> {
    match o {
        Some(JVal::Str(s)) => Some(s),
        _ => None,
    }
}

/// A non-negative integer that fits in `u64`.
pub open spec fn u64_of(o: Option<JVal>) -> Option<u64> {
    match o {
        Some(JVal::Num(NumV::PosInt(n))) => Some(n),
        _ => None,
    }
}

/// An integer that fits in `i64`.
pub open spec fn i64_of(o: Option<JVal>) -> Option<i64> {
    match o {
        Some(JVal::Num(NumV::PosInt(n))) => if n <= i64::MAX {
            Some(n as i64)
        } else {
            None
        },
        Some(JVal::Num(NumV::NegInt(n))) => Some(n),
        _ => None,
    }
}

/// The value of an integral number.
pub open spec fn int_of(o: Option<JVal>) -> Option<int> {
    match o {
        Some(JVal::Num(NumV::PosInt(n))) => Some(n as int),
        Some(JVal::Num(NumV::NegInt(n))) => Some(n as int),
        _ => None,
    }
}

/// Decimal text of an integer, with a minus sign when negative.
pub open spec fn int_text(i: int) -> Seq<char> {
    if i < 0 {
        seq!['-'] + dec((-i) as nat)
    } else {
        dec(i as nat)
    }
}

// ---- `$ref` resolution ----

/// The parts of `s` between slashes (`cur` is the part read so far and
/// `acc` the parts before it).
pub open spec fn split_slash(s: Seq<char>, cur: Seq<char>, acc: Seq<Seq<char>>) -> Seq<Seq<char>>
    decreases s.len(),
{
    if s.len() == 0 {
        acc.push(cur)
    } else if s[0] == '/' {
        split_slash(s.drop_first(), Seq::empty(), acc.push(cur))
    } else {
        split_slash(s.drop_first(), cur.push(s[0]), acc)
    }
}

/// `s` with each occurrence of the pair `ab`, read left to right without
/// overlap, replaced by `w`.
pub open spec fn replace_pair(s: Seq<char>, a: char, b: char, w: char) -> Seq<char>
    decreases s.len(),
{
    if s.len() < 2 {
        s
    } else if s[0] == a && s[1] == b {
        seq![w] + replace_pair(s.skip(2), a, b, w)
    } else {
        seq![s[0]] + replace_pair(s.drop_first(), a, b, w)
    }
}

/// A pointer part with `~1` read as `/` and then `~0` as `~`.
pub open spec fn unescape(p: Seq<char>) -> Seq<char> {
    replace_pair(replace_pair(p, '~', '1', '/'), '~', '0', '~')
}

/// The node reached from `node` through the object members `parts`.
pub open spec fn walk(node: JVal, parts: Seq<Seq<char>>) -> Option<JVal>
    decreases parts.len(),
{
    if parts.len() == 0 {
        Some(node)
    } else {
        match member(node, unescape(parts[0])) {
            Some(n) => walk(n, parts.drop_first()),
            None => None,
        }
    }
}

/// The node a `#/...` reference names in `root`, if it names one.
pub open spec fn ref_target(root: JVal, r: Seq<char>) -> Option<JVal> {
    if r.len() >= 2 && r[0] == '#' && r[1] == '/' {
        walk(root, split_slash(r.skip(2), Seq::empty(), Seq::empty()))
    } else {
        None
    }
}

/// How many `$ref` hops a resolution may take.
pub const REF_HOPS: u64 = 1024;

/// A schema with its `$ref` chain followed, within `fuel` hops; `None`
/// when a reference is not local, names no node, or the chain is longer.
pub open spec fn resolve_spec(schema: JVal, root: JVal, fuel: nat) -> Option<JVal>
    decreases fuel,
{
    match str_of(member(schema, "$ref"@)) {
        None => Some(schema),
        Some(r) => if fuel == 0 {
            None
        } else {
            match ref_target(root, r) {
                Some(t) => resolve_spec(t, root, (fuel - 1) as nat),
                None => None,
            }
        },
    }
}

// ---- type names and debug text ----

/// Whether `d` has the JSON type called `name`.
pub open spec fn type_ok(name: Seq<char>, d: JVal) -> bool {
    if name == "integer"@ {
        d matches JVal::Num(n) && !(n is Float)
    } else if name == "number"@ {
        d is Num
    } else if name == "string"@ {
        d is Str
    } else if name == "boolean"@ {
        d is Bool
    } else if name == "object"@ {
        d is Obj
    } else if name == "array"@ {
        d is Arr
    } else if name == "null"@ {
        d is Null
    } else {
        false
    }
}

/// Whether `d` has one of the types a `type` keyword names: one name, or
/// a list whose string items are names; any other value admits all.
pub open spec fn type_check(t: JVal, d: JVal) -> bool {
    match t {
        JVal::Str(name) => type_ok(name, d),
        JVal::Arr(a) => exists|i: int| 0 <= i < a.len() && (#[trigger] a[i] matches JVal::Str(name) && type_ok(name, d)),
        _ => true,
    }
}

/// The type name of a value, as the messages give it.
pub open spec fn kind_name(d: JVal) -> Seq<char> {
    match d {
        JVal::Null => "null"@,
        JVal::Bool(_) => "boolean"@,
        JVal::Num(n) => if n is Float {
            "number"@
        } else {
            "integer"@
        },
        JVal::Str(_) => "string"@,
        JVal::Arr(_) => "array"@,
        JVal::Obj(_) => "object"@,
    }
}

/// Parts joined by `", "`.
pub open spec fn join_list(parts: Seq<Seq<char>>) -> Seq<char>
    decreases parts.len(),
{
    if parts.len() == 0 {
        Seq::empty()
    } else if parts.len() == 1 {
        parts[0]
    } else {
        join_list(parts.drop_last()) + ", "@ + parts.last()
    }
}

/// The debug text of a value as `serde_json` prints it: `Null`,
/// `Bool(true)`, `Number(1)`, `String("a")`, `Array [..]`, `Object {..}`.
pub open spec fn value_debug(v: JVal) -> Seq<char>
    decreases v, 1int,
{
    match v {
        JVal::Null => "Null"@,
        JVal::Bool(b) => if b {
            "Bool(true)"@
        } else {
            "Bool(false)"@
        },
        JVal::Num(n) => "Number("@ + num_text(n) + ")"@,
        JVal::Str(s) => "String("@ + debug_str(s) + ")"@,
        JVal::Arr(a) => "Array ["@ + join_list(item_debugs(a)) + "]"@,
        JVal::Obj(fs) => "Object {"@ + join_list(member_debugs(fs)) + "}"@,
    }
}

pub open spec fn item_debugs(a: Seq<JVal>) -> Seq<Seq<char>>
    decreases a, 0int,
{
    if a.len() == 0 {
        Seq::empty()
    } else {
        item_debugs(a.drop_last()).push(value_debug(a.last()))
    }
}

pub open spec fn member_debugs(fs: Seq<(Seq<char>, JVal)>) -> Seq<Seq<char>>
    decreases fs, 0int,
{
    if fs.len() == 0 {
        Seq::empty()
    } else {
        member_debugs(fs.drop_last()).push(debug_str(fs.last().0) + ": "@ + value_debug(fs.last().1))
    }
}

/// The debug text of a list of values: `[a, b]`.
pub open spec fn list_debug(a: Seq<JVal>) -> Seq<char> {
    "["@ + join_list(item_debugs(a)) + "]"@
}

/// The debug text of an optional value: `None` or `Some(..)`.
pub open spec fn opt_debug(o: Option<JVal>) -> Seq<char> {
    match o {
        Some(v) => "Some("@ + value_debug(v) + ")"@,
        None => "None"@,
    }
}

// ---- the checks ----

/// Both lists of violations in order, or `None` when either check could
/// not run.
pub open spec fn errs_cat(a: Option<Seq<Seq<char>>>, b: Option<Seq<Seq<char>>>) -> Option<Seq<Seq<char>>> {
    match (a, b) {
        (Some(x), Some(y)) => Some(x + y),
        _ => None,
    }
}

pub open spec fn one_if(c: bool, m: Seq<char>) -> Seq<Seq<char>> {
    if c {
        seq![m]
    } else {
        Seq::empty()
    }
}

/// The violation that ends the check of a node at once: a `const`
/// mismatch, a value outside `enum`, or a wrong `type`, in that order.
pub open spec fn early_error(s: JVal, d: JVal, path: Seq<char>) -> Option<Seq<char>> {
    match member(s, "const"@) {
        Some(c) if c != d => Some(path + ": const 期望 "@ + json_text(c) + " 实际 "@ + json_text(d)),
        _ => match member(s, "enum"@) {
            Some(JVal::Arr(en)) if !en.contains(d) => Some(path + ": enum "@ + list_debug(en) + " 不含 "@ + json_text(d)),
            _ => match member(s, "type"@) {
                Some(t) if !type_check(t, d) => Some(path + ": type 期望 "@ + json_text(t) + " 实际 "@ + kind_name(d)),
                _ => None,
            },
        },
    }
}

/// The integer bounds `minimum`, `maximum` and `exclusiveMinimum`.
pub open spec fn bound_errs(s: JVal, d: JVal, path: Seq<char>) -> Seq<Seq<char>> {
    let v = int_of(Some(d));
    let lo = int_of(member(s, "minimum"@));
    let hi = int_of(member(s, "maximum"@));
    let ex = int_of(member(s, "exclusiveMinimum"@));
    one_if(
        lo is Some && v is Some && v->0 < lo->0,
        path + ": minimum "@ + int_text(lo->0) + " 实际 "@ + int_text(v->0),
    ) + one_if(
        hi is Some && v is Some && v->0 > hi->0,
        path + ": maximum "@ + int_text(hi->0) + " 实际 "@ + int_text(v->0),
    ) + one_if(
        ex is Some && v is Some && v->0 <= ex->0,
        path + ": exclusiveMinimum "@ + int_text(ex->0) + " 实际 "@ + int_text(v->0),
    )
}

/// `minLength`, `maxLength` and `pattern` on a string (`None` when the
/// pattern does not compile).
pub open spec fn string_errs(s: JVal, d: JVal, path: Seq<char>) -> Option<Seq<Seq<char>>> {
    match d {
        JVal::Str(t) => {
            let lo = u64_of(member(s, "minLength"@));
            let hi = u64_of(member(s, "maxLength"@));
            let lens = one_if(
                lo is Some && t.len() < lo->0,
                path + ": minLength "@ + dec(lo->0 as nat) + " 实际长度 "@ + dec(t.len()),
            ) + one_if(
                hi is Some && t.len() > hi->0,
                path + ": maxLength "@ + dec(hi->0 as nat) + " 实际长度 "@ + dec(t.len()),
            );
            match str_of(member(s, "pattern"@)) {
                Some(p) => match regex_match(p, t) {
                    Some(m) => Some(lens + one_if(!m, path + ": pattern "@ + debug_str(p) + " 不匹配 "@ + debug_str(t))),
                    None => None,
                },
                None => Some(lens),
            }
        },
        _ => Some(Seq::empty()),
    }
}

/// `minItems` and `maxItems` on an array.
pub open spec fn count_errs(s: JVal, a: Seq<JVal>, path: Seq<char>) -> Seq<Seq<char>> {
    let lo = u64_of(member(s, "minItems"@));
    let hi = u64_of(member(s, "maxItems"@));
    one_if(lo is Some && a.len() < lo->0, path + ": minItems "@ + dec(lo->0 as nat) + " 实际 "@ + dec(a.len()))
        + one_if(hi is Some && a.len() > hi->0, path + ": maxItems "@ + dec(hi->0 as nat) + " 实际 "@ + dec(a.len()))
}

/// The `required` keys an object lacks, among the first `n` items of the
/// list (items that are not strings are skipped).
pub open spec fn required_errs(req: Seq<JVal>, fs: Seq<(Seq<char>, JVal)>, path: Seq<char>, n: int) -> Seq<Seq<char>>
    decreases if n > 0 { n } else { 0 },
{
    if n <= 0 || n > req.len() {
        Seq::empty()
    } else {
        required_errs(req, fs, path, n - 1) + match req[n - 1] {
            JVal::Str(r) => one_if(lookup(fs, r) is None, path + ": 缺必填键 '"@ + r + "'"@),
            _ => Seq::empty(),
        }
    }
}

/// The check of `x-removeRequiresGuardOk`: a `remove` must carry a
/// guard that passed and did not clip a word.
pub open spec fn guard_errs(s: JVal, d: JVal, path: Seq<char>) -> Seq<Seq<char>> {
    if member(s, "x-removeRequiresGuardOk"@) == Some(JVal::Bool(true)) && str_of(member(d, "action"@)) == Some("remove"@) {
        match member(d, "guard"@) {
            Some(JVal::Obj(g)) if g.len() > 0 => {
                let ok = match lookup(g, "okByReason"@) {
                    Some(v) => Some(v),
                    None => lookup(g, "ok"@),
                };
                one_if(ok != Some(JVal::Bool(true)), path + ": action=remove 但 guard 判定 ok="@ + opt_debug(ok))
                    + one_if(
                    lookup(g, "wordClipped"@) == Some(JVal::Bool(true)),
                    path + ": action=remove 但 wordClipped=true(任何 reason 下硬失败)"@,
                )
            },
            _ => seq![path + ": action=remove 但 guard 为空(guard_passed 视为未过)"@],
        }
    } else {
        Seq::empty()
    }
}

/// Where the first `n` keep spans end, when each is a pair `[a, b]` of
/// integers with `a` at or after the previous end and `b >= a`.
pub open spec fn keep_end(keep: Seq<JVal>, n: int) -> Option<i64>
    decreases if n > 0 { n } else { 0 },
{
    if n <= 0 || n > keep.len() {
        Some(0)
    } else {
        match keep_end(keep, n - 1) {
            None => None,
            Some(cur) => match keep[n - 1] {
                JVal::Arr(p) => {
                    let a = if p.len() > 0 { i64_of(Some(p[0])) } else { None };
                    let b = if p.len() > 1 { i64_of(Some(p[1])) } else { None };
                    if p.len() == 2 && a is Some && b is Some && a->0 >= cur && b->0 >= a->0 {
                        Some(b->0)
                    } else {
                        None
                    }
                },
                _ => None,
            },
        }
    }
}

/// The check of `x-keepCoversTimeline`: the keep spans are ordered, do
/// not overlap, and end at `srcTotalMs`.
pub open spec fn keep_errs(s: JVal, d: JVal, path: Seq<char>) -> Seq<Seq<char>> {
    if member(s, "x-keepCoversTimeline"@) == Some(JVal::Bool(true)) && d is Obj {
        match (member(d, "keep"@), i64_of(member(d, "srcTotalMs"@))) {
            (Some(JVal::Arr(keep)), Some(total)) => match keep_end(keep, keep.len() as int) {
                None => seq![path + ": keep 区间无序/重叠/非法"@],
                Some(cur) => one_if(
                    cur != total,
                    path + ": keep 覆盖到 "@ + int_text(cur as int) + " ≠ srcTotalMs "@ + int_text(total as int),
                ),
            },
            _ => Seq::empty(),
        }
    } else {
        Seq::empty()
    }
}

/// The violations of `data` against `schema` (resolved in `root`), found
/// at `path`; `None` when a `$ref` cannot be resolved or a `pattern` does
/// not compile.
pub open spec fn validate_spec(schema: JVal, root: JVal, data: JVal, path: Seq<char>) -> Option<Seq<Seq<char>>>
    decreases data, 2int,
{
    match resolve_spec(schema, root, REF_HOPS as nat) {
        None => None,
        Some(s) => match early_error(s, data, path) {
            Some(e) => Some(seq![e]),
            None => errs_cat(
                errs_cat(Some(bound_errs(s, data, path)), string_errs(s, data, path)),
                errs_cat(
                    errs_cat(array_errs(s, root, data, path), object_errs(s, root, data, path)),
                    Some(guard_errs(s, data, path) + keep_errs(s, data, path)),
                ),
            ),
        },
    }
}

/// The array part: item counts, then each item against `items`.
pub open spec fn array_errs(s: JVal, root: JVal, data: JVal, path: Seq<char>) -> Option<Seq<Seq<char>>>
    decreases data, 1int,
{
    match data {
        JVal::Arr(a) => errs_cat(
            Some(count_errs(s, a, path)),
            match member(s, "items"@) {
                Some(JVal::Obj(f)) => items_spec(JVal::Obj(f), root, a, path, a.len() as int),
                _ => Some(Seq::empty()),
            },
        ),
        _ => Some(Seq::empty()),
    }
}

/// The first `n` items, each at `path[i]`.
pub open spec fn items_spec(item: JVal, root: JVal, a: Seq<JVal>, path: Seq<char>, n: int) -> Option<Seq<Seq<char>>>
    decreases a, if n > 0 { n } else { 0 },
{
    if n <= 0 || n > a.len() {
        Some(Seq::empty())
    } else {
        errs_cat(
            items_spec(item, root, a, path, n - 1),
            validate_spec(item, root, a[n - 1], path + "["@ + dec((n - 1) as nat) + "]"@),
        )
    }
}

/// The object part: the missing `required` keys, then each member against
/// its `properties` entry (or refused when `additionalProperties` is
/// `false`).
pub open spec fn object_errs(s: JVal, root: JVal, data: JVal, path: Seq<char>) -> Option<Seq<Seq<char>>>
    decreases data, 1int,
{
    match data {
        JVal::Obj(fs) => errs_cat(
            Some(match member(s, "required"@) {
                Some(JVal::Arr(req)) => required_errs(req, fs, path, req.len() as int),
                _ => Seq::empty(),
            }),
            match member(s, "properties"@) {
                Some(JVal::Obj(ps)) => props_spec(s, ps, root, fs, path, fs.len() as int),
                _ => Some(Seq::empty()),
            },
        ),
        _ => Some(Seq::empty()),
    }
}

/// The first `n` members of an object against the `properties` map `ps`.
pub open spec fn props_spec(
    s: JVal,
    ps: Seq<(Seq<char>, JVal)>,
    root: JVal,
    fs: Seq<(Seq<char>, JVal)>,
    path: Seq<char>,
    n: int,
) -> Option<Seq<Seq<char>>>
    decreases fs, if n > 0 { n } else { 0 },
{
    if n <= 0 || n > fs.len() {
        Some(Seq::empty())
    } else {
        let k = fs[n - 1].0;
        errs_cat(
            props_spec(s, ps, root, fs, path, n - 1),
            match lookup(ps, k) {
                Some(sub) => validate_spec(sub, root, fs[n - 1].1, path + "."@ + k),
                None => Some(
                    one_if(
                        member(s, "additionalProperties"@) == Some(JVal::Bool(false)),
                        path + ": additionalProperties=false 拒绝多余键 '"@ + k + "'"@,
                    ),
                ),
            },
        )
    }
}

} // verus!

verus! {

pub open spec fn ref_view(o: Option<&Json>) -> Option<JVal> {
    match o {
        Some(j) => Some(j@),
        None => None,
    }
}

/// The member `k` of an object value.
fn member_ref<'a>(v: &'a Json, k: &str) -> (r: Option<&'a Json>)
    ensures
        ref_view(r) == member(v@, k@),
{
    match v {
        Json::Obj(fs) => {
            proof {
                lemma_fields_view(*fs);
            }
            get_field(fs, k)
        },
        _ => None,
    }
}

fn replace_pair_exec(s: &str, a: char, b: char, w: &str) -> (r: String)
    requires
        w@.len() == 1,
    ensures
        r@ == replace_pair(s@, a, b, w@[0]),
{
    let n = s.unicode_len();
    let ghost wc = w@[0];
    let mut out = String::new();
    let mut i: usize = 0;
    assert(s@.skip(0) =~= s@);
    while i < n
        invariant
            n == s@.len(),
            i <= n,
            w@ == seq![wc],
            replace_pair(s@, a, b, wc) == out@ + replace_pair(s@.skip(i as int), a, b, wc),
        decreases n - i,
    {
        let ghost t = s@.skip(i as int);
        let ghost o = out@;
        if i + 1 < n && s.get_char(i) == a && s.get_char(i + 1) == b {
            out.append(w);
            assert(t.skip(2) =~= s@.skip(i + 2));
            assert(o + replace_pair(t, a, b, wc) =~= out@ + replace_pair(s@.skip(i + 2), a, b, wc));
            i += 2;
        } else {
            let one = s.substring_char(i, i + 1);
            assert(one@ =~= seq![t[0]]);
            out.append(one);
            assert(t.drop_first() =~= s@.skip(i + 1));
            proof {
                if t.len() < 2 {
                    assert(t.drop_first().len() == 0);
                    assert(t =~= seq![t[0]] + t.drop_first());
                }
            }
            assert(o + replace_pair(t, a, b, wc) =~= out@ + replace_pair(s@.skip(i + 1), a, b, wc));
            i += 1;
        }
    }
    assert(s@.skip(n as int) =~= Seq::<char>::empty());
    assert(out@ + replace_pair(s@.skip(n as int), a, b, wc) =~= out@);
    out
}

fn unescape_exec(p: &str) -> (r: String)
    ensures
        r@ == unescape(p@),
{
    proof {
        reveal_strlit("/");
        reveal_strlit("~");
    }
    let t = replace_pair_exec(p, '~', '1', "/");
    replace_pair_exec(t.as_str(), '~', '0', "~")
}

fn split_parts(s: &str) -> (r: Vec<String>)
    ensures
        crate::oplog::strings_view(r@) == split_slash(s@, Seq::empty(), Seq::empty()),
{
    let n = s.unicode_len();
    let mut acc: Vec<String> = Vec::new();
    let mut cur = String::new();
    let mut i: usize = 0;
    assert(s@.skip(0) =~= s@);
    assert(crate::oplog::strings_view(acc@) =~= Seq::<Seq<char>>::empty());
    assert(cur@ =~= Seq::<char>::empty());
    while i < n
        invariant
            n == s@.len(),
            i <= n,
            split_slash(s@, Seq::empty(), Seq::empty()) == split_slash(
                s@.skip(i as int),
                cur@,
                crate::oplog::strings_view(acc@),
            ),
        decreases n - i,
    {
        let ghost t = s@.skip(i as int);
        assert(t.drop_first() =~= s@.skip(i + 1));
        let c = s.get_char(i);
        if c == '/' {
            let ghost av = crate::oplog::strings_view(acc@);
            let ghost cv = cur@;
            acc.push(cur);
            cur = String::new();
            assert(crate::oplog::strings_view(acc@) =~= av.push(cv));
            assert(cur@ =~= Seq::<char>::empty());
        } else {
            let ghost cv = cur@;
            let one = s.substring_char(i, i + 1);
            assert(one@ =~= seq![c]);
            cur.append(one);
            assert(cur@ =~= cv.push(c));
        }
        i += 1;
    }
    let ghost av = crate::oplog::strings_view(acc@);
    let ghost cv = cur@;
    assert(s@.skip(n as int) =~= Seq::<char>::empty());
    acc.push(cur);
    assert(crate::oplog::strings_view(acc@) =~= av.push(cv));
    acc
}

/// The node a `#/...` reference names in `root`.
fn ref_target_exec<'a>(root: &'a Json, r: &str) -> (t: Option<&'a Json>)
    ensures
        ref_view(t) == ref_target(root@, r@),
{
    let n = r.unicode_len();
    if n < 2 || r.get_char(0) != '#' || r.get_char(1) != '/' {
        return None;
    }
    let body = r.substring_char(2, n);
    assert(body@ =~= r@.skip(2));
    let parts = split_parts(body);
    let ghost pv = crate::oplog::strings_view(parts@);
    let mut node: &Json = root;
    let mut i: usize = 0;
    assert(pv.skip(0) =~= pv);
    while i < parts.len()
        invariant
            i <= parts.len(),
            pv == crate::oplog::strings_view(parts@),
            pv.len() == parts@.len(),
            ref_target(root@, r@) == walk(node@, pv.skip(i as int)),
        decreases parts.len() - i,
    {
        let ghost q = pv.skip(i as int);
        assert(q[0] == parts@[i as int]@);
        assert(q.drop_first() =~= pv.skip(i + 1));
        let key = unescape_exec(parts[i].as_str());
        match member_ref(node, key.as_str()) {
            Some(nx) => {
                node = nx;
            },
            None => {
                return None;
            },
        }
        i += 1;
    }
    assert(pv.skip(parts.len() as int) =~= Seq::<Seq<char>>::empty());
    Some(node)
}

/// `schema` with its `$ref` chain followed in `root`.
fn resolve<'a>(schema: &'a Json, root: &'a Json) -> (r: Option<&'a Json>)
    ensures
        ref_view(r) == resolve_spec(schema@, root@, REF_HOPS as nat),
{
    let mut cur: &Json = schema;
    let mut fuel: u64 = REF_HOPS;
    loop
        invariant
            resolve_spec(schema@, root@, REF_HOPS as nat) == resolve_spec(cur@, root@, fuel as nat),
        decreases fuel,
    {
        match member_ref(cur, "$ref") {
            Some(Json::Str(r)) => {
                if fuel == 0 {
                    return None;
                }
                match ref_target_exec(root, r.as_str()) {
                    Some(t) => {
                        cur = t;
                        fuel -= 1;
                    },
                    None => {
                        return None;
                    },
                }
            },
            _ => {
                return Some(cur);
            },
        }
    }
}

} // verus!

verus! {

fn push_num(out: &mut String, n: &JNum)
    ensures
        final(out)@ == old(out)@ + num_text(n@),
{
    proof {
        reveal_strlit("-");
    }
    match n {
        JNum::PosInt(u) => {
            push_dec(out, *u);
        },
        JNum::NegInt(i) => {
            if *i < 0 {
                let ghost o = out@;
                out.append("-");
                let u: u64 = if *i == i64::MIN {
                    9223372036854775808u64
                } else {
                    (-*i) as u64
                };
                push_dec(out, u);
                assert(out@ =~= o + num_text(n@));
            } else {
                push_dec(out, *i as u64);
            }
        },
        JNum::Float(t) => {
            out.append(t.as_str());
        },
    }
}

/// Appends the debug text of a value.
fn push_value_debug(v: &Json, out: &mut String)
    ensures
        final(out)@ == old(out)@ + value_debug(v@),
    decreases v,
{
    let ghost o0 = out@;
    match v {
        Json::Null => {
            out.append("Null");
        },
        Json::Bool(b) => {
            if *b {
                out.append("Bool(true)");
            } else {
                out.append("Bool(false)");
            }
        },
        Json::Num(n) => {
            out.append("Number(");
            push_num(out, n);
            out.append(")");
            assert(out@ =~= o0 + value_debug(v@));
        },
        Json::Str(s) => {
            out.append("String(");
            let q = crate::dispatch::debug_quote(s.as_str());
            out.append(q.as_str());
            out.append(")");
            assert(out@ =~= o0 + value_debug(v@));
        },
        Json::Arr(x) => {
            let ghost av = arr_view(x@);
            proof {
                lemma_arr_view(*x);
            }
            out.append("Array [");
            let mut i: usize = 0;
            while i < x.len()
                invariant
                    i <= x.len(),
                    *v == Json::Arr(*x),
                    av == arr_view(x@),
                    out@ == o0 + "Array ["@ + join_list(item_debugs(av.take(i as int))),
                decreases x.len() - i,
            {
                proof {
                    assert(decreases_to!(*v => (*v)->Arr_0));
                    assert(decreases_to!(*v => x@[i as int]));
                }
                let ghost pi = item_debugs(av.take(i + 1));
                assert(av.take(i + 1).drop_last() =~= av.take(i as int));
                assert(av.take(i + 1).last() == x@[i as int]@);
                assert(pi == item_debugs(av.take(i as int)).push(value_debug(x@[i as int]@)));
                if i > 0 {
                    out.append(", ");
                }
                push_value_debug(&x[i], out);
                if i == 0 {
                    assert(item_debugs(av.take(0)) =~= Seq::<Seq<char>>::empty());
                    assert(join_list(pi) == pi[0]);
                    assert(out@ =~= o0 + "Array ["@ + join_list(pi));
                } else {
                    assert(pi.drop_last() =~= item_debugs(av.take(i as int)));
                    assert(join_list(pi) == join_list(item_debugs(av.take(i as int))) + ", "@ + pi.last());
                    assert(out@ =~= o0 + "Array ["@ + join_list(pi));
                }
                i += 1;
            }
            assert(av.take(x.len() as int) =~= av);
            out.append("]");
            assert(out@ =~= o0 + value_debug(v@));
        },
        Json::Obj(x) => {
            let ghost fv = fields_view(x@);
            proof {
                lemma_fields_view(*x);
            }
            out.append("Object {");
            let mut i: usize = 0;
            while i < x.len()
                invariant
                    i <= x.len(),
                    *v == Json::Obj(*x),
                    fv == fields_view(x@),
                    out@ == o0 + "Object {"@ + join_list(member_debugs(fv.take(i as int))),
                decreases x.len() - i,
            {
                proof {
                    assert(decreases_to!(*v => (*v)->Obj_0));
                    assert(decreases_to!(*v => x@[i as int].1));
                }
                let ghost pi = member_debugs(fv.take(i + 1));
                assert(fv.take(i + 1).drop_last() =~= fv.take(i as int));
                assert(fv.take(i + 1).last() == (x@[i as int].0@, x@[i as int].1@));
                assert(pi == member_debugs(fv.take(i as int)).push(
                    debug_str(x@[i as int].0@) + ": "@ + value_debug(x@[i as int].1@),
                ));
                if i > 0 {
                    out.append(", ");
                }
                let ghost mid = out@;
                let q = crate::dispatch::debug_quote(x[i].0.as_str());
                out.append(q.as_str());
                out.append(": ");
                push_value_debug(&x[i].1, out);
                assert(out@ =~= mid + pi.last());
                if i == 0 {
                    assert(member_debugs(fv.take(0)) =~= Seq::<Seq<char>>::empty());
                    assert(join_list(pi) == pi[0]);
                    assert(out@ =~= o0 + "Object {"@ + join_list(pi));
                } else {
                    assert(pi.drop_last() =~= member_debugs(fv.take(i as int)));
                    assert(join_list(pi) == join_list(member_debugs(fv.take(i as int))) + ", "@ + pi.last());
                    assert(out@ =~= o0 + "Object {"@ + join_list(pi));
                }
                i += 1;
            }
            assert(fv.take(x.len() as int) =~= fv);
            out.append("}");
            assert(out@ =~= o0 + value_debug(v@));
        },
    }
}

/// The debug text of a list of values.
fn list_debug_exec(a: &Vec<Json>) -> (r: String)
    ensures
        r@ == list_debug(arr_view(a@)),
{
    let ghost av = arr_view(a@);
    proof {
        lemma_arr_view(*a);
    }
    let mut out = String::new();
    out.append("[");
    let mut i: usize = 0;
    while i < a.len()
        invariant
            i <= a.len(),
            av == arr_view(a@),
            out@ == "["@ + join_list(item_debugs(av.take(i as int))),
        decreases a.len() - i,
    {
        let ghost pi = item_debugs(av.take(i + 1));
        assert(av.take(i + 1).drop_last() =~= av.take(i as int));
        assert(av.take(i + 1).last() == a@[i as int]@);
        assert(pi == item_debugs(av.take(i as int)).push(value_debug(a@[i as int]@)));
        if i > 0 {
            out.append(", ");
        }
        push_value_debug(&a[i], &mut out);
        if i == 0 {
            assert(item_debugs(av.take(0)) =~= Seq::<Seq<char>>::empty());
            assert(join_list(pi) == pi[0]);
            assert(out@ =~= "["@ + join_list(pi));
        } else {
            assert(pi.drop_last() =~= item_debugs(av.take(i as int)));
            assert(join_list(pi) == join_list(item_debugs(av.take(i as int))) + ", "@ + pi.last());
            assert(out@ =~= "["@ + join_list(pi));
        }
        i += 1;
    }
    assert(av.take(a.len() as int) =~= av);
    out.append("]");
    assert(out@ =~= list_debug(av));
    out
}

} // verus!

verus! {

fn type_ok_exec(name: &str, d: &Json) -> (r: bool)
    ensures
        r == type_ok(name@, d@),
{
    if str_eq(name, "integer") {
        match d {
            Json::Num(JNum::Float(_)) => false,
            Json::Num(_) => true,
            _ => false,
        }
    } else if str_eq(name, "number") {
        matches!(d, Json::Num(_))
    } else if str_eq(name, "string") {
        matches!(d, Json::Str(_))
    } else if str_eq(name, "boolean") {
        matches!(d, Json::Bool(_))
    } else if str_eq(name, "object") {
        matches!(d, Json::Obj(_))
    } else if str_eq(name, "array") {
        matches!(d, Json::Arr(_))
    } else if str_eq(name, "null") {
        matches!(d, Json::Null)
    } else {
        false
    }
}

fn type_check_exec(t: &Json, d: &Json) -> (r: bool)
    ensures
        r == type_check(t@, d@),
{
    match t {
        Json::Str(name) => type_ok_exec(name.as_str(), d),
        Json::Arr(a) => {
            let ghost av = arr_view(a@);
            proof {
                lemma_arr_view(*a);
            }
            let mut i: usize = 0;
            while i < a.len()
                invariant
                    i <= a.len(),
                    av == arr_view(a@),
                    t@ == JVal::Arr(av),
                    forall|j: int| 0 <= j < i ==> !(#[trigger] av[j] matches JVal::Str(name) && type_ok(name, d@)),
                decreases a.len() - i,
            {
                match &a[i] {
                    Json::Str(name) => {
                        if type_ok_exec(name.as_str(), d) {
                            assert(av[i as int] matches JVal::Str(nm) && type_ok(nm, d@));
                            return true;
                        }
                    },
                    _ => {},
                }
                i += 1;
            }
            false
        },
        _ => true,
    }
}

fn kind_name_exec(d: &Json) -> (r: &'static str)
    ensures
        r@ == kind_name(d@),
{
    match d {
        Json::Null => "null",
        Json::Bool(_) => "boolean",
        Json::Num(JNum::Float(_)) => "number",
        Json::Num(_) => "integer",
        Json::Str(_) => "string",
        Json::Arr(_) => "array",
        Json::Obj(_) => "object",
    }
}

fn arr_contains(a: &Vec<Json>, d: &Json) -> (r: bool)
    ensures
        r == arr_view(a@).contains(d@),
{
    let ghost av = arr_view(a@);
    proof {
        lemma_arr_view(*a);
    }
    let mut i: usize = 0;
    while i < a.len()
        invariant
            i <= a.len(),
            av == arr_view(a@),
            forall|j: int| 0 <= j < i ==> av[j] != d@,
        decreases a.len() - i,
    {
        if json_eq(&a[i], d) {
            assert(av[i as int] == d@);
            return true;
        }
        i += 1;
    }
    false
}

/// The violation that ends the check of a node at once, if any.
fn early_error_exec(s: &Json, d: &Json, path: &String) -> (r: Option<String>)
    ensures
        crate::merge::opt_str(r) == early_error(s@, d@, path@),
{
    match member_ref(s, "const") {
        Some(c) => {
            if !json_eq(c, d) {
                let mut m = path.clone();
                m.append(": const 期望 ");
                m.append(json_to_text(c).as_str());
                m.append(" 实际 ");
                m.append(json_to_text(d).as_str());
                assert(m@ =~= path@ + ": const 期望 "@ + json_text(c@) + " 实际 "@ + json_text(d@));
                return Some(m);
            }
        },
        None => {},
    }
    match member_ref(s, "enum") {
        Some(Json::Arr(en)) => {
            proof {
                lemma_arr_view(*en);
            }
            assert(member(s@, "enum"@) == Some(JVal::Arr(arr_view(en@))));
            if !arr_contains(en, d) {
                let mut m = path.clone();
                m.append(": enum ");
                m.append(list_debug_exec(en).as_str());
                m.append(" 不含 ");
                m.append(json_to_text(d).as_str());
                assert(m@ =~= path@ + ": enum "@ + list_debug(arr_view(en@)) + " 不含 "@ + json_text(d@));
                return Some(m);
            }
        },
        _ => {},
    }
    match member_ref(s, "type") {
        Some(t) => {
            if !type_check_exec(t, d) {
                let mut m = path.clone();
                m.append(": type 期望 ");
                m.append(json_to_text(t).as_str());
                m.append(" 实际 ");
                m.append(kind_name_exec(d));
                assert(m@ =~= path@ + ": type 期望 "@ + json_text(t@) + " 实际 "@ + kind_name(d@));
                return Some(m);
            }
        },
        None => {},
    }
    None
}

fn int_of_exec(o: Option<&Json>) -> (r: Option<i128>)
    ensures
        match r {
            Some(x) => int_of(ref_view(o)) == Some(x as int),
            None => int_of(ref_view(o)) is None,
        },
{
    match o {
        Some(Json::Num(JNum::PosInt(n))) => Some(*n as i128),
        Some(Json::Num(JNum::NegInt(n))) => Some(*n as i128),
        _ => None,
    }
}

/// Appends the decimal text of an integer that fits in 65 bits.
fn push_int(out: &mut String, x: i128)
    requires
        -18446744073709551615 <= x <= 18446744073709551615,
    ensures
        final(out)@ == old(out)@ + int_text(x as int),
{
    proof {
        reveal_strlit("-");
    }
    if x < 0 {
        let ghost o = out@;
        out.append("-");
        push_dec(out, (-x) as u64);
        assert(out@ =~= o + int_text(x as int));
    } else {
        push_dec(out, x as u64);
    }
}

fn bound_msg(path: &String, key: &str, limit: i128, v: i128) -> (r: String)
    requires
        -18446744073709551615 <= limit <= 18446744073709551615,
        -18446744073709551615 <= v <= 18446744073709551615,
    ensures
        r@ == path@ + ": "@ + key@ + " "@ + int_text(limit as int) + " 实际 "@ + int_text(v as int),
{
    let mut m = path.clone();
    m.append(": ");
    m.append(key);
    m.append(" ");
    push_int(&mut m, limit);
    m.append(" 实际 ");
    push_int(&mut m, v);
    m
}

fn bound_errs_exec(s: &Json, d: &Json, path: &String) -> (r: Vec<String>)
    ensures
        crate::oplog::strings_view(r@) == bound_errs(s@, d@, path@),
{
    proof {
        reveal_strlit("minimum");
        reveal_strlit("maximum");
        reveal_strlit("exclusiveMinimum");
        reveal_strlit(": ");
        reveal_strlit(" ");
        reveal_strlit(": minimum ");
        reveal_strlit(": maximum ");
        reveal_strlit(": exclusiveMinimum ");
    }
    let mut out: Vec<String> = Vec::new();
    let v = int_of_exec(Some(d));
    let lo = int_of_exec(member_ref(s, "minimum"));
    let hi = int_of_exec(member_ref(s, "maximum"));
    let ex = int_of_exec(member_ref(s, "exclusiveMinimum"));
    let ghost (sv, dv, pv) = (s@, d@, path@);
    let ghost e1 = one_if(
        int_of(member(sv, "minimum"@)) is Some && int_of(Some(dv)) is Some && int_of(Some(dv))->0 < int_of(member(sv, "minimum"@))->0,
        pv + ": minimum "@ + int_text(int_of(member(sv, "minimum"@))->0) + " 实际 "@ + int_text(int_of(Some(dv))->0),
    );
    let ghost e2 = one_if(
        int_of(member(sv, "maximum"@)) is Some && int_of(Some(dv)) is Some && int_of(Some(dv))->0 > int_of(member(sv, "maximum"@))->0,
        pv + ": maximum "@ + int_text(int_of(member(sv, "maximum"@))->0) + " 实际 "@ + int_text(int_of(Some(dv))->0),
    );
    let ghost e3 = one_if(
        int_of(member(sv, "exclusiveMinimum"@)) is Some && int_of(Some(dv)) is Some && int_of(Some(dv))->0 <= int_of(
            member(sv, "exclusiveMinimum"@),
        )->0,
        pv + ": exclusiveMinimum "@ + int_text(int_of(member(sv, "exclusiveMinimum"@))->0) + " 实际 "@ + int_text(
            int_of(Some(dv))->0,
        ),
    );
    assert(bound_errs(sv, dv, pv) == e1 + e2 + e3);
    match v {
        Some(x) => {
            match lo {
                Some(l) => {
                    if x < l {
                        let m = bound_msg(path, "minimum", l, x);
                        assert(m@ =~= pv + ": minimum "@ + int_text(l as int) + " 实际 "@ + int_text(x as int));
                        out.push(m);
                    }
                },
                None => {},
            }
            assert(crate::oplog::strings_view(out@) =~= e1);
            match hi {
                Some(h) => {
                    if x > h {
                        let m = bound_msg(path, "maximum", h, x);
                        assert(m@ =~= pv + ": maximum "@ + int_text(h as int) + " 实际 "@ + int_text(x as int));
                        out.push(m);
                    }
                },
                None => {},
            }
            assert(crate::oplog::strings_view(out@) =~= e1 + e2);
            match ex {
                Some(l) => {
                    if x <= l {
                        let m = bound_msg(path, "exclusiveMinimum", l, x);
                        assert(m@ =~= pv + ": exclusiveMinimum "@ + int_text(l as int) + " 实际 "@ + int_text(x as int));
                        out.push(m);
                    }
                },
                None => {},
            }
            assert(crate::oplog::strings_view(out@) =~= e1 + e2 + e3);
        },
        None => {
            assert(crate::oplog::strings_view(out@) =~= e1 + e2 + e3);
        },
    }
    out
}

} // verus!

verus! {

fn u64_of_exec(o: Option<&Json>) -> (r: Option<u64>)
    ensures
        r == u64_of(ref_view(o)),
{
    match o {
        Some(Json::Num(JNum::PosInt(n))) => Some(*n),
        _ => None,
    }
}

fn i64_of_exec(o: Option<&Json>) -> (r: Option<i64>)
    ensures
        r == i64_of(ref_view(o)),
{
    match o {
        Some(Json::Num(JNum::PosInt(n))) => if *n <= 9223372036854775807u64 {
            Some(*n as i64)
        } else {
            None
        },
        Some(Json::Num(JNum::NegInt(n))) => Some(*n),
        _ => None,
    }
}

fn count_msg(path: &String, head: &str, limit: u64, mid: &str, n: u64) -> (r: String)
    ensures
        r@ == path@ + head@ + dec(limit as nat) + mid@ + dec(n as nat),
{
    let mut m = path.clone();
    m.append(head);
    push_dec(&mut m, limit);
    m.append(mid);
    push_dec(&mut m, n);
    m
}

/// `minLength`, `maxLength` and `pattern` on a string.
fn string_errs_exec(s: &Json, d: &Json, path: &String) -> (r: Option<Vec<String>>)
    ensures
        match r {
            Some(v) => string_errs(s@, d@, path@) == Some(crate::oplog::strings_view(v@)),
            None => string_errs(s@, d@, path@) is None,
        },
{
    match d {
        Json::Str(t) => {
            let len = t.as_str().unicode_len() as u64;
            let ghost (sv, tv, pv) = (s@, t@, path@);
            let lo = u64_of_exec(member_ref(s, "minLength"));
            let hi = u64_of_exec(member_ref(s, "maxLength"));
            let mut out: Vec<String> = Vec::new();
            match lo {
                Some(l) => {
                    if len < l {
                        out.push(count_msg(path, ": minLength ", l, " 实际长度 ", len));
                    }
                },
                None => {},
            }
            match hi {
                Some(h) => {
                    if len > h {
                        out.push(count_msg(path, ": maxLength ", h, " 实际长度 ", len));
                    }
                },
                None => {},
            }
            let ghost lens = one_if(
                lo is Some && tv.len() < lo->0,
                pv + ": minLength "@ + dec(lo->0 as nat) + " 实际长度 "@ + dec(tv.len()),
            ) + one_if(
                hi is Some && tv.len() > hi->0,
                pv + ": maxLength "@ + dec(hi->0 as nat) + " 实际长度 "@ + dec(tv.len()),
            );
            assert(crate::oplog::strings_view(out@) =~= lens);
            match member_ref(s, "pattern") {
                Some(Json::Str(p)) => match regex_is_match(p.as_str(), t.as_str()) {
                    Some(m) => {
                        let ghost before = crate::oplog::strings_view(out@);
                        if !m {
                            let mut msg = path.clone();
                            msg.append(": pattern ");
                            msg.append(crate::dispatch::debug_quote(p.as_str()).as_str());
                            msg.append(" 不匹配 ");
                            msg.append(crate::dispatch::debug_quote(t.as_str()).as_str());
                            out.push(msg);
                        }
                        assert(crate::oplog::strings_view(out@) =~= before + one_if(
                            !m,
                            pv + ": pattern "@ + debug_str(p@) + " 不匹配 "@ + debug_str(tv),
                        ));
                        Some(out)
                    },
                    None => None,
                },
                _ => Some(out),
            }
        },
        _ => {
            let out: Vec<String> = Vec::new();
            assert(crate::oplog::strings_view(out@) =~= Seq::<Seq<char>>::empty());
            Some(out)
        },
    }
}

fn count_errs_exec(s: &Json, a: &Vec<Json>, path: &String) -> (r: Vec<String>)
    ensures
        crate::oplog::strings_view(r@) == count_errs(s@, arr_view(a@), path@),
{
    let n = a.len() as u64;
    let ghost av = arr_view(a@);
    let lo = u64_of_exec(member_ref(s, "minItems"));
    let hi = u64_of_exec(member_ref(s, "maxItems"));
    let mut out: Vec<String> = Vec::new();
    match lo {
        Some(l) => {
            if n < l {
                out.push(count_msg(path, ": minItems ", l, " 实际 ", n));
            }
        },
        None => {},
    }
    match hi {
        Some(h) => {
            if n > h {
                out.push(count_msg(path, ": maxItems ", h, " 实际 ", n));
            }
        },
        None => {},
    }
    assert(crate::oplog::strings_view(out@) =~= count_errs(s@, av, path@));
    out
}

fn required_errs_exec(req: &Vec<Json>, fs: &Vec<(String, Json)>, path: &String) -> (r: Vec<String>)
    ensures
        crate::oplog::strings_view(r@) == required_errs(arr_view(req@), fields_view(fs@), path@, req@.len() as int),
{
    let ghost rv = arr_view(req@);
    let ghost fv = fields_view(fs@);
    proof {
        lemma_arr_view(*req);
        lemma_fields_view(*fs);
    }
    let mut out: Vec<String> = Vec::new();
    let mut i: usize = 0;
    assert(crate::oplog::strings_view(out@) =~= Seq::<Seq<char>>::empty());
    while i < req.len()
        invariant
            i <= req.len(),
            rv == arr_view(req@),
            fv == fields_view(fs@),
            rv.len() == req@.len(),
            crate::oplog::strings_view(out@) == required_errs(rv, fv, path@, i as int),
        decreases req.len() - i,
    {
        let ghost before = crate::oplog::strings_view(out@);
        match &req[i] {
            Json::Str(r) => {
                if get_field(fs, r.as_str()).is_none() {
                    let mut m = path.clone();
                    m.append(": 缺必填键 '");
                    m.append(r.as_str());
                    m.append("'");
                    out.push(m);
                }
            },
            _ => {},
        }
        assert(crate::oplog::strings_view(out@) =~= required_errs(rv, fv, path@, i + 1));
        i += 1;
    }
    out
}

fn opt_debug_exec(o: Option<&Json>) -> (r: String)
    ensures
        r@ == opt_debug(ref_view(o)),
{
    let mut out = String::new();
    match o {
        Some(v) => {
            out.append("Some(");
            push_value_debug(v, &mut out);
            out.append(")");
        },
        None => {
            out.append("None");
        },
    }
    out
}

fn is_true(o: Option<&Json>) -> (r: bool)
    ensures
        r == (ref_view(o) == Some(JVal::Bool(true))),
{
    match o {
        Some(Json::Bool(b)) => *b,
        _ => false,
    }
}

fn is_false(o: Option<&Json>) -> (r: bool)
    ensures
        r == (ref_view(o) == Some(JVal::Bool(false))),
{
    match o {
        Some(Json::Bool(b)) => !*b,
        _ => false,
    }
}

fn guard_errs_exec(s: &Json, d: &Json, path: &String) -> (r: Vec<String>)
    ensures
        crate::oplog::strings_view(r@) == guard_errs(s@, d@, path@),
{
    let mut out: Vec<String> = Vec::new();
    let on = is_true(member_ref(s, "x-removeRequiresGuardOk"));
    let is_remove = match member_ref(d, "action") {
        Some(Json::Str(a)) => str_eq(a.as_str(), "remove"),
        _ => false,
    };
    if !on || !is_remove {
        assert(crate::oplog::strings_view(out@) =~= guard_errs(s@, d@, path@));
        return out;
    }
    match member_ref(d, "guard") {
        Some(Json::Obj(g)) if g.len() > 0 => {
            proof {
                lemma_fields_view(*g);
            }
            let ok = match get_field(g, "okByReason") {
                Some(v) => Some(v),
                None => get_field(g, "ok"),
            };
            if !is_true(ok) {
                let mut m = path.clone();
                m.append(": action=remove 但 guard 判定 ok=");
                m.append(opt_debug_exec(ok).as_str());
                out.push(m);
            }
            if is_true(get_field(g, "wordClipped")) {
                let mut m = path.clone();
                m.append(": action=remove 但 wordClipped=true(任何 reason 下硬失败)");
                out.push(m);
            }
        },
        _ => {
            let mut m = path.clone();
            m.append(": action=remove 但 guard 为空(guard_passed 视为未过)");
            out.push(m);
        },
    }
    assert(crate::oplog::strings_view(out@) =~= guard_errs(s@, d@, path@));
    out
}

proof fn lemma_keep_end_none(keep: Seq<JVal>, i: int, n: int)
    requires
        0 <= i <= n <= keep.len(),
        keep_end(keep, i) is None,
    ensures
        keep_end(keep, n) is None,
    decreases n - i,
{
    if i < n {
        lemma_keep_end_none(keep, i, n - 1);
    }
}

fn keep_end_exec(keep: &Vec<Json>) -> (r: Option<i64>)
    ensures
        r == keep_end(arr_view(keep@), keep@.len() as int),
{
    let ghost kv = arr_view(keep@);
    proof {
        lemma_arr_view(*keep);
    }
    let mut cur: i64 = 0;
    let mut i: usize = 0;
    while i < keep.len()
        invariant
            i <= keep.len(),
            kv == arr_view(keep@),
            kv.len() == keep@.len(),
            keep_end(kv, i as int) == Some(cur),
        decreases keep.len() - i,
    {
        match &keep[i] {
            Json::Arr(p) => {
                proof {
                    lemma_arr_view(*p);
                }
                let a = if p.len() > 0 { i64_of_exec(Some(&p[0])) } else { None };
                let b = if p.len() > 1 { i64_of_exec(Some(&p[1])) } else { None };
                match (a, b) {
                    (Some(x), Some(y)) => {
                        if p.len() == 2 && x >= cur && y >= x {
                            cur = y;
                        } else {
                            proof {
                                lemma_keep_end_none(kv, i + 1, kv.len() as int);
                            }
                            return None;
                        }
                    },
                    _ => {
                        proof {
                            lemma_keep_end_none(kv, i + 1, kv.len() as int);
                        }
                        return None;
                    },
                }
            },
            _ => {
                proof {
                    lemma_keep_end_none(kv, i + 1, kv.len() as int);
                }
                return None;
            },
        }
        i += 1;
    }
    Some(cur)
}

fn keep_errs_exec(s: &Json, d: &Json, path: &String) -> (r: Vec<String>)
    ensures
        crate::oplog::strings_view(r@) == keep_errs(s@, d@, path@),
{
    let mut out: Vec<String> = Vec::new();
    let on = is_true(member_ref(s, "x-keepCoversTimeline"));
    if !on || !matches!(d, Json::Obj(_)) {
        assert(crate::oplog::strings_view(out@) =~= keep_errs(s@, d@, path@));
        return out;
    }
    match (member_ref(d, "keep"), i64_of_exec(member_ref(d, "srcTotalMs"))) {
        (Some(Json::Arr(keep)), Some(total)) => {
            proof {
                lemma_arr_view(*keep);
            }
            match keep_end_exec(keep) {
                None => {
                    let mut m = path.clone();
                    m.append(": keep 区间无序/重叠/非法");
                    out.push(m);
                },
                Some(cur) => {
                    if cur != total {
                        let mut m = path.clone();
                        m.append(": keep 覆盖到 ");
                        push_int(&mut m, cur as i128);
                        m.append(" ≠ srcTotalMs ");
                        push_int(&mut m, total as i128);
                        out.push(m);
                    }
                },
            }
        },
        _ => {},
    }
    assert(crate::oplog::strings_view(out@) =~= keep_errs(s@, d@, path@));
    out
}

} // verus!

verus! {

pub open spec fn opt_strings(o: Option<Vec<String>>) -> Option<Seq<Seq<char>>> {
    match o {
        Some(v) => Some(crate::oplog::strings_view(v@)),
        None => None,
    }
}

proof fn lemma_items_none(item: JVal, root: JVal, a: Seq<JVal>, path: Seq<char>, i: int, n: int)
    requires
        0 <= i <= n <= a.len(),
        items_spec(item, root, a, path, i) is None,
    ensures
        items_spec(item, root, a, path, n) is None,
    decreases n - i,
{
    if i < n {
        lemma_items_none(item, root, a, path, i, n - 1);
    }
}

proof fn lemma_props_none(s: JVal, ps: Seq<(Seq<char>, JVal)>, root: JVal, fs: Seq<(Seq<char>, JVal)>, path: Seq<char>, i: int, n: int)
    requires
        0 <= i <= n <= fs.len(),
        props_spec(s, ps, root, fs, path, i) is None,
    ensures
        props_spec(s, ps, root, fs, path, n) is None,
    decreases n - i,
{
    if i < n {
        lemma_props_none(s, ps, root, fs, path, i, n - 1);
    }
}

/// Appends `b` to `a`, or gives up when either is missing.
fn cat_errs(a: Option<Vec<String>>, b: Option<Vec<String>>) -> (r: Option<Vec<String>>)
    ensures
        opt_strings(r) == errs_cat(opt_strings(a), opt_strings(b)),
{
    match (a, b) {
        (Some(mut x), Some(mut y)) => {
            let ghost (xv, yv) = (crate::oplog::strings_view(x@), crate::oplog::strings_view(y@));
            x.append(&mut y);
            assert(crate::oplog::strings_view(x@) =~= xv + yv);
            Some(x)
        },
        _ => None,
    }
}

/// The array part of a node's check.
fn array_part(s: &Json, root: &Json, data: &Json, path: &String) -> (r: Option<Vec<String>>)
    ensures
        opt_strings(r) == array_errs(s@, root@, data@, path@),
    decreases data, 1int,
{
    match data {
        Json::Arr(a) => {
            let ghost av = arr_view(a@);
            proof {
                lemma_arr_view(*a);
            }
            let counts = count_errs_exec(s, a, path);
            let items = match member_ref(s, "items") {
                Some(item) => {
                    if matches!(item, Json::Obj(_)) {
                        let mut acc: Vec<String> = Vec::new();
                        let mut i: usize = 0;
                        assert(crate::oplog::strings_view(acc@) =~= Seq::<Seq<char>>::empty());
                        while i < a.len()
                            invariant
                                i <= a.len(),
                                *data == Json::Arr(*a),
                                av == arr_view(a@),
                                av.len() == a@.len(),
                                item@ is Obj,
                                data@ == JVal::Arr(av),
                                member(s@, "items"@) == Some(item@),
                                items_spec(item@, root@, av, path@, i as int) == Some(
                                    crate::oplog::strings_view(acc@),
                                ),
                            decreases a.len() - i,
                        {
                            proof {
                                assert(decreases_to!(*data => (*data)->Arr_0));
                                assert(decreases_to!(*data => a@[i as int]));
                            }
                            let mut sub = path.clone();
                            sub.append("[");
                            push_dec(&mut sub, i as u64);
                            sub.append("]");
                            assert(sub@ =~= path@ + "["@ + dec(i as nat) + "]"@);
                            match validate_rec(item, root, &a[i], &sub) {
                                Some(mut e) => {
                                    let ghost (xv, ev) = (crate::oplog::strings_view(acc@), crate::oplog::strings_view(e@));
                                    acc.append(&mut e);
                                    assert(crate::oplog::strings_view(acc@) =~= xv + ev);
                                },
                                None => {
                                    proof {
                                        assert(av[i as int] == a@[i as int]@);
                                        assert(items_spec(item@, root@, av, path@, i + 1) is None);
                                        lemma_items_none(item@, root@, av, path@, i + 1, av.len() as int);
                                        assert(data@ == JVal::Arr(av));
                                        assert(array_errs(s@, root@, data@, path@) is None);
                                    }
                                    return None;
                                },
                            }
                            i += 1;
                        }
                        Some(acc)
                    } else {
                        let e: Vec<String> = Vec::new();
                        assert(crate::oplog::strings_view(e@) =~= Seq::<Seq<char>>::empty());
                        Some(e)
                    }
                },
                None => {
                    let e: Vec<String> = Vec::new();
                    assert(crate::oplog::strings_view(e@) =~= Seq::<Seq<char>>::empty());
                    Some(e)
                },
            };
            cat_errs(Some(counts), items)
        },
        _ => {
            let e: Vec<String> = Vec::new();
            assert(crate::oplog::strings_view(e@) =~= Seq::<Seq<char>>::empty());
            Some(e)
        },
    }
}

/// The object part of a node's check.
fn object_part(s: &Json, root: &Json, data: &Json, path: &String) -> (r: Option<Vec<String>>)
    ensures
        opt_strings(r) == object_errs(s@, root@, data@, path@),
    decreases data, 1int,
{
    match data {
        Json::Obj(fs) => {
            let ghost fv = fields_view(fs@);
            proof {
                lemma_fields_view(*fs);
            }
            let req = match member_ref(s, "required") {
                Some(Json::Arr(rq)) => {
                    proof {
                        lemma_arr_view(*rq);
                    }
                    required_errs_exec(rq, fs, path)
                },
                _ => {
                    let e: Vec<String> = Vec::new();
                    assert(crate::oplog::strings_view(e@) =~= Seq::<Seq<char>>::empty());
                    e
                },
            };
            let props = match member_ref(s, "properties") {
                Some(Json::Obj(ps)) => {
                    proof {
                        lemma_fields_view(*ps);
                    }
                    let ghost psv = fields_view(ps@);
                    let addl_false = is_false(member_ref(s, "additionalProperties"));
                    let mut acc: Vec<String> = Vec::new();
                    let mut i: usize = 0;
                    assert(crate::oplog::strings_view(acc@) =~= Seq::<Seq<char>>::empty());
                    while i < fs.len()
                        invariant
                            i <= fs.len(),
                            *data == Json::Obj(*fs),
                            fv == fields_view(fs@),
                            fv.len() == fs@.len(),
                            psv == fields_view(ps@),
                            data@ == JVal::Obj(fv),
                            member(s@, "properties"@) == Some(JVal::Obj(psv)),
                            addl_false == (member(s@, "additionalProperties"@) == Some(JVal::Bool(false))),
                            props_spec(s@, psv, root@, fv, path@, i as int) == Some(
                                crate::oplog::strings_view(acc@),
                            ),
                        decreases fs.len() - i,
                    {
                        proof {
                            assert(decreases_to!(*data => (*data)->Obj_0));
                            assert(decreases_to!(*data => fs@[i as int].1));
                        }
                        let k = &fs[i].0;
                        assert(fv[i as int] == (k@, fs@[i as int].1@));
                        let ghost xv = crate::oplog::strings_view(acc@);
                        match get_field(ps, k.as_str()) {
                            Some(sub_schema) => {
                                let mut sub = path.clone();
                                sub.append(".");
                                sub.append(k.as_str());
                                match validate_rec(sub_schema, root, &fs[i].1, &sub) {
                                    Some(mut e) => {
                                        let ghost ev = crate::oplog::strings_view(e@);
                                        acc.append(&mut e);
                                        assert(crate::oplog::strings_view(acc@) =~= xv + ev);
                                    },
                                    None => {
                                        proof {
                                            assert(lookup(psv, k@) == Some(sub_schema@));
                                            assert(sub@ == path@ + "."@ + k@);
                                            assert(props_spec(s@, psv, root@, fv, path@, i + 1) is None);
                                            lemma_props_none(s@, psv, root@, fv, path@, i + 1, fv.len() as int);
                                            assert(data@ == JVal::Obj(fv));
                                            assert(object_errs(s@, root@, data@, path@) is None);
                                        }
                                        return None;
                                    },
                                }
                            },
                            None => {
                                if addl_false {
                                    let mut m = path.clone();
                                    m.append(": additionalProperties=false 拒绝多余键 '");
                                    m.append(k.as_str());
                                    m.append("'");
                                    acc.push(m);
                                }
                                assert(crate::oplog::strings_view(acc@) =~= xv + one_if(
                                    addl_false,
                                    path@ + ": additionalProperties=false 拒绝多余键 '"@ + k@ + "'"@,
                                ));
                            },
                        }
                        i += 1;
                    }
                    Some(acc)
                },
                _ => {
                    let e: Vec<String> = Vec::new();
                    assert(crate::oplog::strings_view(e@) =~= Seq::<Seq<char>>::empty());
                    Some(e)
                },
            };
            cat_errs(Some(req), props)
        },
        _ => {
            let e: Vec<String> = Vec::new();
            assert(crate::oplog::strings_view(e@) =~= Seq::<Seq<char>>::empty());
            Some(e)
        },
    }
}

/// The check of one node.
fn validate_rec(schema: &Json, root: &Json, data: &Json, path: &String) -> (r: Option<Vec<String>>)
    ensures
        opt_strings(r) == validate_spec(schema@, root@, data@, path@),
    decreases data, 2int,
{
    let s = match resolve(schema, root) {
        Some(s) => s,
        None => {
            return None;
        },
    };
    match early_error_exec(s, data, path) {
        Some(e) => {
            let v = vec![e];
            assert(crate::oplog::strings_view(v@) =~= seq![e@]);
            return Some(v);
        },
        None => {},
    }
    let b = bound_errs_exec(s, data, path);
    let st = string_errs_exec(s, data, path);
    let ar = array_part(s, root, data, path);
    let ob = object_part(s, root, data, path);
    let mut g = guard_errs_exec(s, data, path);
    let ghost gv = crate::oplog::strings_view(g@);
    let mut k = keep_errs_exec(s, data, path);
    let ghost kv = crate::oplog::strings_view(k@);
    g.append(&mut k);
    assert(crate::oplog::strings_view(g@) =~= gv + kv);
    let first = cat_errs(Some(b), st);
    let second = cat_errs(cat_errs(ar, ob), Some(g));
    cat_errs(first, second)
}

/// The violations of `data` against `schema`, whose `$ref`s point into
/// `root`, found at `path`; `None` when a reference cannot be resolved
/// (it is not local, names no node, or its chain is longer than
/// `REF_HOPS`) or a `pattern` does not compile.
pub fn try_validate_node(schema: &Json, root: &Json, data: &Json, path: &str) -> (r: Option<Vec<String>>)
    ensures
        opt_strings(r) == validate_spec(schema@, root@, data@, path@),
{
    let p = path.to_string();
    validate_rec(schema, root, data, &p)
}

/// The violations of `data` against `schema`, whose `$ref`s point into
/// `root`, each message starting with the path where it was found (`path`
/// for `data` itself, `path.key` for a member and `path[i]` for an item).
pub fn validate_node(schema: &Json, root: &Json, data: &Json, path: &str) -> (r: Vec<String>)
    requires
        validate_spec(schema@, root@, data@, path@) is Some,
    ensures
        crate::oplog::strings_view(r@) == validate_spec(schema@, root@, data@, path@)->0,
{
    match try_validate_node(schema, root, data, path) {
        Some(v) => v,
        None => Vec::new(),
    }
}

} // verus!

verus! {

/// Every JSON number is a `number`, whether it is written as an integer or
/// with a fraction: a node whose type is `number` (with no `const` or
/// `enum`) never stops the check of a number, and what a type list accepts
/// as an `integer` it accepts as a `number` too.
pub proof fn law_integers_are_numbers(s: JVal, d: JVal, path: Seq<char>, n: NumV)
    ensures
        member(s, "const"@) is None && member(s, "enum"@) is None && member(s, "type"@) == Some(
            JVal::Str("number"@),
        ) ==> early_error(s, JVal::Num(n), path) is None,
        type_check(JVal::Str("number"@), JVal::Num(n)),
        type_check(JVal::Str("integer"@), d) ==> type_check(JVal::Str("number"@), d),
{
    reveal_strlit("number");
    reveal_strlit("integer");
    assert("number"@ != "integer"@) by {
        assert("number"@[0] != "integer"@[0]);
    }
}

} // verus!
