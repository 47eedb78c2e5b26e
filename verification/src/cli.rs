//! The command-line front end's own rules: how arguments are read, who an
//! operation is recorded as, which exit code an outcome maps to, and which
//! fields the patch type declares.

use vstd::prelude::*;
use crate::json::str_eq;
use crate::notes::{is_ws, is_ws_exec};
use crate::oplog::{Actor, ActorV, ActorKind, strings_view};
use crate::scaffold::split_on;
use crate::text::{parse_u64, parse_u64_spec};
use crate::anchor::{Anchor, AnchorV, AnchorKind};
use crate::notes::{NoteAuthor, NoteState};
use crate::dispatch::{NotesCall, NotesCallV, note_state_spec};
use vstd::string::StrSliceExecFns;

verus! {

/// Position of the first `c` in `s` at or after `i`.
pub open spec fn first_index(s: Seq<char>, c: char, i: int) -> Option<int>
    decreases s.len() - i,
{
    if i < 0 || i >= s.len() {
        None
    } else if s[i] == c {
        Some(i)
    } else {
        first_index(s, c, i + 1)
    }
}

pub(crate) fn find_char(s: &str, c: char, from: usize) -> (r: Option<usize>)
    ensures
        r matches Some(p) ==> first_index(s@, c, from as int) == Some(p as int) && p < s@.len(),
        r is None ==> first_index(s@, c, from as int) is None,
{
    let n = s.unicode_len();
    let mut i = from;
    if i >= n {
        return None;
    }
    while i < n
        invariant
            n == s@.len(),
            from <= i <= n,
            first_index(s@, c, from as int) == first_index(s@, c, i as int),
        decreases n - i,
    {
        if s.get_char(i) == c {
            return Some(i);
        }
        i += 1;
    }
    None
}

pub open spec fn is_flag(a: Seq<char>) -> bool {
    a.len() >= 2 && a[0] == '-' && a[1] == '-'
}

/// The arguments as read: positional words, flags (a later flag of the
/// same name wins) and whether JSON output was asked for.
pub struct ArgsV {
    pub positional: Seq<Seq<char>>,
    pub flags: Map<Seq<char>, Seq<char>>,
    pub json: bool,
}

/// Reads `args[i..]` on top of what `acc` already holds. `--json` sets the
/// switch; `--k=v` sets flag `k`; `--k v` takes the next word as the value
/// unless that word is itself a flag, in which case (and at the end) the
/// value is empty; other words are positional.
pub open spec fn parse_from(args: Seq<Seq<char>>, i: int, acc: ArgsV) -> ArgsV
    decreases args.len() - i,
{
    if i < 0 || i >= args.len() {
        acc
    } else {
        let a = args[i];
        if a == "--json"@ {
            parse_from(args, i + 1, ArgsV { positional: acc.positional, flags: acc.flags, json: true })
        } else if is_flag(a) {
            let rest = a.skip(2);
            match first_index(rest, '=', 0) {
                Some(eq) => parse_from(
                    args,
                    i + 1,
                    ArgsV {
                        positional: acc.positional,
                        flags: acc.flags.insert(rest.take(eq), rest.skip(eq + 1)),
                        json: acc.json,
                    },
                ),
                None => if i + 1 < args.len() && !is_flag(args[i + 1]) {
                    parse_from(
                        args,
                        i + 2,
                        ArgsV { positional: acc.positional, flags: acc.flags.insert(rest, args[i + 1]), json: acc.json },
                    )
                } else {
                    parse_from(
                        args,
                        i + 1,
                        ArgsV { positional: acc.positional, flags: acc.flags.insert(rest, Seq::empty()), json: acc.json },
                    )
                },
            }
        } else {
            parse_from(
                args,
                i + 1,
                ArgsV { positional: acc.positional.push(a), flags: acc.flags, json: acc.json },
            )
        }
    }
}

pub open spec fn parse_spec(args: Seq<Seq<char>>) -> ArgsV {
    parse_from(args, 0, ArgsV { positional: Seq::empty(), flags: Map::empty(), json: false })
}

/// Flags in the order they were given; a later entry overrides an earlier
/// one of the same name.
pub open spec fn flags_map(f: Seq<(String, String)>) -> Map<Seq<char>, Seq<char>>
    decreases f.len(),
{
    if f.len() == 0 {
        Map::empty()
    } else {
        flags_map(f.drop_last()).insert(f.last().0@, f.last().1@)
    }
}

/// Command-line arguments, read.
#[derive(Debug)]
pub struct Args {
    pub positional: Vec<String>,
    pub flags: Vec<(String, String)>,
    pub json: bool,
}

impl View for Args {
    type V = ArgsV;
    open spec fn view(&self) -> ArgsV {
        ArgsV { positional: strings_view(self.positional@), flags: flags_map(self.flags@), json: self.json }
    }
}

proof fn lemma_flags_last(f: Seq<(String, String)>, k: Seq<char>, i: int)
    requires
        0 <= i < f.len(),
        f[i].0@ == k,
        forall|q: int| i < q < f.len() ==> (#[trigger] f[q]).0@ != k,
    ensures
        flags_map(f).contains_key(k),
        flags_map(f)[k] == f[i].1@,
    decreases f.len(),
{
    if i < f.len() - 1 {
        lemma_flags_last(f.drop_last(), k, i);
        assert(f.drop_last()[i] == f[i]);
    }
}

proof fn lemma_flags_absent(f: Seq<(String, String)>, k: Seq<char>)
    requires
        forall|q: int| 0 <= q < f.len() ==> (#[trigger] f[q]).0@ != k,
    ensures
        !flags_map(f).contains_key(k),
    decreases f.len(),
{
    if f.len() > 0 {
        assert forall|q: int| 0 <= q < f.drop_last().len() implies (#[trigger] f.drop_last()[q]).0@ != k by {
            assert(f.drop_last()[q] == f[q]);
        }
        lemma_flags_absent(f.drop_last(), k);
    }
}

impl Args {
    /// The value of flag `name`, if given.
    pub fn flag(&self, name: &str) -> (r: Option<&String>)
        ensures
            r matches Some(v) ==> self@.flags.contains_key(name@) && self@.flags[name@] == v@,
            r is None ==> !self@.flags.contains_key(name@),
    {
        let mut i = self.flags.len();
        while i > 0
            invariant
                i <= self.flags.len(),
                forall|q: int| i <= q < self.flags.len() ==> (#[trigger] self.flags@[q]).0@ != name@,
            decreases i,
        {
            i -= 1;
            if str_eq(self.flags[i].0.as_str(), name) {
                proof {
                    lemma_flags_last(self.flags@, name@, i as int);
                }
                return Some(&self.flags[i].1);
            }
        }
        proof {
            lemma_flags_absent(self.flags@, name@);
        }
        None
    }
}

/// Reads the command-line words after the subcommand.
pub fn parse_args(args: &[String]) -> (r: Args)
    ensures
        r@ == parse_spec(args@.map_values(|s: String| s@)),
{
    let ghost av = args@.map_values(|s: String| s@);
    let mut out = Args { positional: Vec::new(), flags: Vec::new(), json: false };
    let mut i: usize = 0;
    proof {
        reveal_strlit("--json");
        assert(strings_view(out.positional@) =~= Seq::<Seq<char>>::empty());
        assert(flags_map(out.flags@) == Map::<Seq<char>, Seq<char>>::empty());
        assert(out@ == (ArgsV { positional: Seq::empty(), flags: Map::empty(), json: false }));
    }
    while i < args.len()
        invariant
            i <= args.len(),
            av == args@.map_values(|s: String| s@),
            parse_spec(av) == parse_from(av, i as int, out@),
        decreases args.len() - i,
    {
        let a = args[i].as_str();
        assert(av[i as int] == a@);
        if str_eq(a, "--json") {
            out.json = true;
        } else if a.unicode_len() >= 2 && a.get_char(0) == '-' && a.get_char(1) == '-' {
            let n = a.unicode_len();
            let rest = a.substring_char(2, n);
            assert(rest@ =~= a@.skip(2));
            let ghost before = out.flags@;
            match find_char(rest, '=', 0) {
                Some(eq) => {
                    let k = rest.substring_char(0, eq);
                    let v = rest.substring_char(eq + 1, rest.unicode_len());
                    assert(k@ =~= rest@.take(eq as int));
                    assert(v@ =~= rest@.skip(eq + 1));
                    out.flags.push((k.to_string(), v.to_string()));
                    assert(out.flags@.drop_last() =~= before);
                },
                None => {
                    let next_is_value = i + 1 < args.len() && {
                        let b = args[i + 1].as_str();
                        !(b.unicode_len() >= 2 && b.get_char(0) == '-' && b.get_char(1) == '-')
                    };
                    if next_is_value {
                        assert(av[i + 1] == args@[i + 1]@);
                        out.flags.push((rest.to_string(), args[i + 1].clone()));
                        assert(out.flags@.drop_last() =~= before);
                        i += 1;
                    } else {
                        out.flags.push((rest.to_string(), String::new()));
                        assert(out.flags@.drop_last() =~= before);
                    }
                },
            }
        } else {
            let ghost before = out.positional@;
            out.positional.push(args[i].clone());
            assert(strings_view(out.positional@) =~= strings_view(before).push(a@));
        }
        i += 1;
    }
    out
}

/// Who a command-line operation is recorded as: `kind:id` for the kinds
/// user, script and agent (split at the first colon), else the user "cli".
pub open spec fn actor_spec(flag: Option<Seq<char>>) -> ActorV {
    let fallback = ActorV { kind: ActorKind::User, id: "cli"@ };
    match flag {
        Some(s) => match first_index(s, ':', 0) {
            Some(p) => {
                let head = s.take(p);
                let id = s.skip(p + 1);
                if head == "user"@ {
                    ActorV { kind: ActorKind::User, id }
                } else if head == "script"@ {
                    ActorV { kind: ActorKind::Script, id }
                } else if head == "agent"@ {
                    ActorV { kind: ActorKind::Agent, id }
                } else {
                    fallback
                }
            },
            None => fallback,
        },
        None => fallback,
    }
}

/// The actor named by the `--actor` flag.
pub fn actor_from(flag: Option<&String>) -> (r: Actor)
    ensures
        r@ == actor_spec(
            match flag {
                Some(s) => Some(s@),
                None => None,
            },
        ),
{
    match flag {
        Some(s) => {
            let s = s.as_str();
            let n = s.unicode_len();
            match find_char(s, ':', 0) {
                Some(p) => {
                    let head = s.substring_char(0, p);
                    let id = s.substring_char(p + 1, n);
                    assert(head@ =~= s@.take(p as int));
                    assert(id@ =~= s@.skip(p + 1));
                    if str_eq(head, "user") {
                        Actor::user(id)
                    } else if str_eq(head, "script") {
                        Actor::script(id)
                    } else if str_eq(head, "agent") {
                        Actor::agent(id)
                    } else {
                        Actor::user("cli")
                    }
                },
                None => Actor::user("cli"),
            }
        },
        None => Actor::user("cli"),
    }
}

/// The process exit code for a result code: 0 for "OK", 3 for the
/// environment codes "NO_CONFIG" and "DEP_MISSING", 2 for any other.
pub open spec fn exit_code_spec(code: Seq<char>) -> i32 {
    if code == "OK"@ {
        0
    } else if code == "NO_CONFIG"@ || code == "DEP_MISSING"@ {
        3
    } else {
        2
    }
}

pub fn exit_code(code: &str) -> (r: i32)
    ensures
        r == exit_code_spec(code@),
{
    if str_eq(code, "OK") {
        0
    } else if str_eq(code, "NO_CONFIG") || str_eq(code, "DEP_MISSING") {
        3
    } else {
        2
    }
}

pub open spec fn trim_start(s: Seq<char>) -> Seq<char>
    decreases s.len(),
{
    if s.len() > 0 && is_ws(s[0]) {
        trim_start(s.drop_first())
    } else {
        s
    }
}

pub open spec fn trim_end(s: Seq<char>) -> Seq<char>
    decreases s.len(),
{
    if s.len() > 0 && is_ws(s.last()) {
        trim_end(s.drop_last())
    } else {
        s
    }
}

/// `s` without leading and trailing white space.
pub open spec fn trim(s: Seq<char>) -> Seq<char> {
    trim_end(trim_start(s))
}

proof fn lemma_trim_start_skip(s: Seq<char>, i: int)
    requires
        0 <= i <= s.len(),
        forall|k: int| 0 <= k < i ==> is_ws(#[trigger] s[k]),
    ensures
        trim_start(s) == trim_start(s.skip(i)),
    decreases i,
{
    if i > 0 {
        assert(s.skip(1) =~= s.drop_first());
        assert forall|k: int| 0 <= k < i - 1 implies is_ws(#[trigger] s.drop_first()[k]) by {
            assert(s.drop_first()[k] == s[k + 1]);
        }
        lemma_trim_start_skip(s.drop_first(), i - 1);
        assert(s.drop_first().skip(i - 1) =~= s.skip(i));
    } else {
        assert(s.skip(0) =~= s);
    }
}

proof fn lemma_trim_end_take(s: Seq<char>, j: int)
    requires
        0 <= j <= s.len(),
        forall|k: int| j <= k < s.len() ==> is_ws(#[trigger] s[k]),
    ensures
        trim_end(s) == trim_end(s.take(j)),
    decreases s.len() - j,
{
    if j < s.len() {
        assert(s.take(s.len() - 1) =~= s.drop_last());
        assert forall|k: int| j <= k < s.drop_last().len() implies is_ws(#[trigger] s.drop_last()[k]) by {
            assert(s.drop_last()[k] == s[k]);
        }
        lemma_trim_end_take(s.drop_last(), j);
        assert(s.drop_last().take(j) =~= s.take(j));
    } else {
        assert(s.take(j) =~= s);
    }
}

pub fn trim_exec(s: &str) -> (r: &str)
    ensures
        r@ == trim(s@),
{
    let n = s.unicode_len();
    let mut i: usize = 0;
    while i < n && is_ws_exec(s.get_char(i))
        invariant
            n == s@.len(),
            i <= n,
            forall|k: int| 0 <= k < i ==> is_ws(#[trigger] s@[k]),
        decreases n - i,
    {
        i += 1;
    }
    proof {
        lemma_trim_start_skip(s@, i as int);
    }
    let t = s.substring_char(i, n);
    assert(t@ =~= s@.skip(i as int));
    assert(trim_start(t@) == t@);
    let m = t.unicode_len();
    let mut j: usize = m;
    while j > 0 && is_ws_exec(t.get_char(j - 1))
        invariant
            m == t@.len(),
            j <= m,
            forall|k: int| j <= k < m ==> is_ws(#[trigger] t@[k]),
        decreases j,
    {
        j -= 1;
    }
    proof {
        lemma_trim_end_take(t@, j as int);
    }
    let r = t.substring_char(0, j);
    assert(r@ =~= t@.take(j as int));
    r
}

/// Position of the first occurrence of `p` in `s` at or after `i`.
pub open spec fn first_sub(s: Seq<char>, p: Seq<char>, i: int) -> Option<int>
    decreases s.len() + 1 - i,
{
    if i < 0 || i + p.len() > s.len() {
        None
    } else if s.subrange(i, i + p.len()) == p {
        Some(i)
    } else {
        first_sub(s, p, i + 1)
    }
}

pub fn find_sub(s: &str, p: &str) -> (r: Option<usize>)
    ensures
        r matches Some(i) ==> first_sub(s@, p@, 0) == Some(i as int) && i + p@.len() <= s@.len(),
        r is None ==> first_sub(s@, p@, 0) is None,
{
    let n = s.unicode_len();
    let m = p.unicode_len();
    if m > n {
        return None;
    }
    if m == 0 {
        assert(s@.subrange(0, 0) =~= p@);
        return Some(0);
    }
    let mut i: usize = 0;
    while i <= n - m
        invariant
            n == s@.len(),
            m == p@.len(),
            1 <= m <= n,
            i <= n - m + 1,
            first_sub(s@, p@, 0) == first_sub(s@, p@, i as int),
        decreases n - i,
    {
        if str_eq(s.substring_char(i, i + m), p) {
            return Some(i);
        }
        i += 1;
    }
    None
}

/// Upper-case form of a character, as `char::to_uppercase` gives it.
pub uninterp spec fn char_upper(c: char) -> Seq<char>;

pub open spec fn is_ascii_lower(c: char) -> bool {
    'a' <= c && c <= 'z'
}

/// Calls `char::to_uppercase` and collects what it yields. Its
/// documentation gives, for ASCII, the capital of a lower-case letter and
/// the character itself otherwise; other characters follow the Unicode
/// tables, which the name stands for.
#[verifier::external_body]
fn to_upper(c: char) -> (r: String)
    ensures
        r@ == char_upper(c),
        is_ascii_lower(c) ==> r@ == seq![((c as u32) - 32) as char],
        (c as u32) < 128 && !is_ascii_lower(c) ==> r@ == seq![c],
{
    c.to_uppercase().collect()
}

/// snake_case to camelCase: each underscore is dropped and the character
/// after it upper-cased.
pub open spec fn camel_from(s: Seq<char>, i: int, up: bool) -> Seq<char>
    decreases s.len() - i,
{
    if i < 0 || i >= s.len() {
        Seq::empty()
    } else if s[i] == '_' {
        camel_from(s, i + 1, true)
    } else if up {
        char_upper(s[i]) + camel_from(s, i + 1, false)
    } else {
        seq![s[i]] + camel_from(s, i + 1, false)
    }
}

pub open spec fn camel(s: Seq<char>) -> Seq<char> {
    camel_from(s, 0, false)
}

fn camel_exec(s: &str) -> (r: String)
    ensures
        r@ == camel(s@),
{
    let n = s.unicode_len();
    let mut out = String::new();
    let mut up = false;
    let mut i: usize = 0;
    while i < n
        invariant
            n == s@.len(),
            i <= n,
            camel(s@) == out@ + camel_from(s@, i as int, up),
        decreases n - i,
    {
        let c = s.get_char(i);
        if c == '_' {
            up = true;
        } else if up {
            let u = to_upper(c);
            let ghost o = out@;
            out.append(u.as_str());
            assert(o + camel_from(s@, i as int, true) =~= out@ + camel_from(s@, i + 1, false));
            up = false;
        } else {
            let ghost o = out@;
            let one = s.substring_char(i, i + 1);
            assert(one@ =~= seq![c]);
            out.append(one);
            assert(o + camel_from(s@, i as int, false) =~= out@ + camel_from(s@, i + 1, false));
        }
        i += 1;
    }
    assert(out@ + camel_from(s@, i as int, up) =~= out@);
    out
}

/// What one source line declares: for `pub name: ...`, the camelCase name.
pub open spec fn line_field(line: Seq<char>) -> Seq<Seq<char>> {
    let t = trim(line);
    if t.len() >= 4 && t.take(4) == "pub "@ {
        let rest = t.skip(4);
        match first_index(rest, ':', 0) {
            Some(p) => seq![camel(trim(rest.take(p)))],
            None => Seq::empty(),
        }
    } else {
        Seq::empty()
    }
}

/// The fields declared by the lines of `s` from position `i` on.
pub open spec fn fields_from(s: Seq<char>, i: int) -> Seq<Seq<char>>
    decreases s.len() - i,
{
    if i < 0 || i > s.len() {
        Seq::empty()
    } else {
        match first_index(s, '\n', i) {
            Some(p) => if i <= p < s.len() {
                line_field(s.subrange(i, p)) + fields_from(s, p + 1)
            } else {
                Seq::empty()
            },
            None => line_field(s.skip(i)),
        }
    }
}

/// The field names, in camelCase, that the source text declares in its
/// `pub struct ClipPatch` block (up to the first closing brace after it).
pub open spec fn clippatch_fields_spec(src: Seq<char>) -> Seq<Seq<char>> {
    match first_sub(src, "pub struct ClipPatch"@, 0) {
        Some(start) => {
            let body = src.skip(start);
            match first_index(body, '}', 0) {
                Some(end) => fields_from(body.take(end), 0),
                None => Seq::empty(),
            }
        },
        None => Seq::empty(),
    }
}

pub proof fn lemma_first_index_range(s: Seq<char>, c: char, i: int)
    requires
        0 <= i,
    ensures
        first_index(s, c, i) matches Some(p) ==> i <= p < s.len() && s[p] == c,
    decreases s.len() - i,
{
    if i < s.len() && s[i] != c {
        lemma_first_index_range(s, c, i + 1);
    }
}

fn line_field_exec(line: &str) -> (r: Option<String>)
    ensures
        r matches Some(f) ==> line_field(line@) == seq![f@],
        r is None ==> line_field(line@) == Seq::<Seq<char>>::empty(),
{
    let t = trim_exec(line);
    proof {
        reveal_strlit("pub ");
        assert("pub "@.len() == 4);
    }
    let n = t.unicode_len();
    if n >= 4 && str_eq(t.substring_char(0, 4), "pub ") {
        let rest = t.substring_char(4, n);
        assert(rest@ =~= t@.skip(4));
        match find_char(rest, ':', 0) {
            Some(p) => {
                let name = rest.substring_char(0, p);
                assert(name@ =~= rest@.take(p as int));
                let nm = trim_exec(name);
                Some(camel_exec(nm))
            },
            None => None,
        }
    } else {
        None
    }
}

/// Reads the field names of the patch type from its source text.
pub fn clippatch_fields(src: &str) -> (r: Vec<String>)
    ensures
        strings_view(r@) == clippatch_fields_spec(src@),
{
    let mut out: Vec<String> = Vec::new();
    proof {
        reveal_strlit("pub struct ClipPatch");
    }
    let start = match find_sub(src, "pub struct ClipPatch") {
        Some(s) => s,
        None => {
            assert(strings_view(out@) =~= Seq::<Seq<char>>::empty());
            return out;
        },
    };
    let n = src.unicode_len();
    let body = src.substring_char(start, n);
    assert(body@ =~= src@.skip(start as int));
    let end = match find_char(body, '}', 0) {
        Some(e) => e,
        None => {
            assert(strings_view(out@) =~= Seq::<Seq<char>>::empty());
            return out;
        },
    };
    let region = body.substring_char(0, end);
    assert(region@ =~= body@.take(end as int));
    let len = region.unicode_len();
    let mut pos: usize = 0;
    assert(strings_view(out@) =~= Seq::<Seq<char>>::empty());
    loop
        invariant
            len == region@.len(),
            pos <= len,
            clippatch_fields_spec(src@) == strings_view(out@) + fields_from(region@, pos as int),
        decreases len - pos,
    {
        let ghost before = strings_view(out@);
        proof {
            lemma_first_index_range(region@, '\n', pos as int);
        }
        match find_char(region, '\n', pos) {
            Some(p) => {
                let line = region.substring_char(pos, p);
                match line_field_exec(line) {
                    Some(f) => {
                        out.push(f);
                    },
                    None => {},
                }
                assert(strings_view(out@) =~= before + line_field(region@.subrange(pos as int, p as int)));
                pos = p + 1;
            },
            None => {
                let line = region.substring_char(pos, len);
                assert(line@ =~= region@.skip(pos as int));
                match line_field_exec(line) {
                    Some(f) => {
                        out.push(f);
                    },
                    None => {},
                }
                assert(strings_view(out@) =~= before + line_field(region@.skip(pos as int)));
                assert(fields_from(region@, pos as int) == line_field(region@.skip(pos as int)));
                assert(strings_view(out@) =~= strings_view(out@) + Seq::<Seq<char>>::empty());
                return out;
            },
        }
    }
}

// ---- per-command flags ----

/// The non-blank pieces of a piece list, trimmed.
pub open spec fn nonblank_trimmed(ps: Seq<Seq<char>>) -> Seq<Seq<char>>
    decreases ps.len(),
{
    if ps.len() == 0 {
        seq![]
    } else {
        let r = nonblank_trimmed(ps.drop_last());
        let w = trim(ps.last());
        if w.len() == 0 {
            r
        } else {
            r.push(w)
        }
    }
}

/// A comma-separated list: its pieces trimmed, blank ones dropped.
pub open spec fn comma_list_spec(s: Seq<char>) -> Seq<Seq<char>> {
    nonblank_trimmed(split_on(s, ','))
}

/// The items of a comma-separated list.
pub fn comma_list(v: &str) -> (r: Vec<String>)
    ensures
        strings_view(r@) == comma_list_spec(v@),
{
    let n = v.unicode_len();
    let mut out: Vec<String> = Vec::new();
    let mut start: usize = 0;
    let mut i: usize = 0;
    proof {
        assert(v@.take(0) =~= Seq::<char>::empty());
        assert(split_on(v@.take(0), ',') == seq![Seq::<char>::empty()]);
        assert(split_on(v@.take(0), ',').drop_last() =~= Seq::<Seq<char>>::empty());
    }
    while i < n
        invariant
            n == v@.len(),
            start <= i <= n,
            split_on(v@.take(i as int), ',').len() >= 1,
            split_on(v@.take(i as int), ',').last() == v@.subrange(start as int, i as int),
            strings_view(out@) == nonblank_trimmed(split_on(v@.take(i as int), ',').drop_last()),
        decreases n - i,
    {
        let c = v.get_char(i);
        let ghost pre = v@.take(i as int);
        let ghost sp = split_on(pre, ',');
        assert(v@.take(i + 1).drop_last() =~= pre);
        assert(v@.take(i + 1).last() == c);
        if c == ',' {
            let piece = v.substring_char(start, i);
            let w = trim_exec(piece);
            let ghost before = out@;
            if w.unicode_len() > 0 {
                out.push(w.to_string());
                assert(strings_view(out@) =~= strings_view(before).push(w@));
            }
            proof {
                let sp2 = split_on(v@.take(i + 1), ',');
                assert(sp2 == sp.push(seq![]));
                assert(sp2.drop_last() =~= sp);
                assert(sp =~= sp.drop_last().push(sp.last()));
                assert(v@.subrange(i + 1, i + 1) =~= Seq::<char>::empty());
            }
            start = i + 1;
        } else {
            proof {
                let sp2 = split_on(v@.take(i + 1), ',');
                assert(sp2 == sp.update(sp.len() - 1, sp.last().push(c)));
                assert(sp2.drop_last() =~= sp.drop_last());
                assert(v@.subrange(start as int, i + 1) =~= v@.subrange(start as int, i as int).push(c));
                crate::scaffold::lemma_split_nonempty(v@.take(i + 1), ',');
            }
        }
        i += 1;
    }
    let piece = v.substring_char(start, n);
    let w = trim_exec(piece);
    let ghost before = out@;
    if w.unicode_len() > 0 {
        out.push(w.to_string());
        assert(strings_view(out@) =~= strings_view(before).push(w@));
    }
    proof {
        assert(v@.take(n as int) =~= v@);
        let sp = split_on(v@, ',');
        assert(sp =~= sp.drop_last().push(sp.last()));
    }
    out
}

/// The anchor kind a `--kind` value names.
pub open spec fn anchor_kind_flag(k: Seq<char>) -> Option<AnchorKind> {
    if k == "clip"@ {
        Some(AnchorKind::Clip)
    } else if k == "track"@ {
        Some(AnchorKind::Track)
    } else if k == "time"@ {
        Some(AnchorKind::Time)
    } else if k == "word"@ {
        Some(AnchorKind::Word)
    } else if k == "subtitleCard"@ || k == "subtitlecard"@ {
        Some(AnchorKind::SubtitleCard)
    } else {
        None
    }
}

pub open spec fn flag_or(a: ArgsV, k: Seq<char>, d: Seq<char>) -> Seq<char> {
    if a.flags.contains_key(k) {
        a.flags[k]
    } else {
        d
    }
}

/// What `notes-add` asks for: a body is required; the anchor is `--kind`
/// (clip by default), `--ref` where not empty and `--t-ms` (0 where absent
/// or no number); the author is an agent only for `--author agent`; one
/// `--tag` at most.
pub open spec fn notes_add_flags_spec(a: ArgsV) -> Result<NotesCallV, Seq<char>> {
    let body = flag_or(a, "body"@, seq![]);
    let kind = flag_or(a, "kind"@, "clip"@);
    if body.len() == 0 {
        Err("body 必填"@)
    } else {
        match anchor_kind_flag(kind) {
            None => Err("未知锚点类型: "@ + kind),
            Some(k) => Ok(
                NotesCallV::Add {
                    anchor: AnchorV {
                        kind: k,
                        ref_: if a.flags.contains_key("ref"@) && a.flags["ref"@].len() > 0 {
                            Some(a.flags["ref"@])
                        } else {
                            None
                        },
                        t_ms: if a.flags.contains_key("t-ms"@) {
                            match parse_u64_spec(a.flags["t-ms"@]) {
                                Some(n) => n,
                                None => 0,
                            }
                        } else {
                            0
                        },
                        span: None,
                    },
                    body: body,
                    author: if flag_or(a, "author"@, seq![]) == "agent"@ && a.flags.contains_key("author"@) {
                        NoteAuthor::Agent
                    } else {
                        NoteAuthor::User
                    },
                    tags: if a.flags.contains_key("tag"@) {
                        seq![a.flags["tag"@]]
                    } else {
                        seq![]
                    },
                    request_id: None,
                },
            ),
        }
    }
}

/// The note `notes-add` asks to add, or why it is refused.
pub fn notes_add_flags(a: &Args) -> (r: Result<NotesCall, String>)
    ensures
        match r {
            Ok(c) => notes_add_flags_spec(a@) == Ok::<NotesCallV, Seq<char>>(c@),
            Err(m) => notes_add_flags_spec(a@) == Err::<NotesCallV, Seq<char>>(m@),
        },
{
    let body = match a.flag("body") {
        Some(b) => b.clone(),
        None => String::new(),
    };
    let kind = match a.flag("kind") {
        Some(k) => k.clone(),
        None => String::from_str("clip"),
    };
    if body.unicode_len() == 0 {
        return Err(String::from_str("body 必填"));
    }
    let k = kind.as_str();
    let ak = if str_eq(k, "clip") {
        AnchorKind::Clip
    } else if str_eq(k, "track") {
        AnchorKind::Track
    } else if str_eq(k, "time") {
        AnchorKind::Time
    } else if str_eq(k, "word") {
        AnchorKind::Word
    } else if str_eq(k, "subtitleCard") || str_eq(k, "subtitlecard") {
        AnchorKind::SubtitleCard
    } else {
        let mut m = String::from_str("未知锚点类型: ");
        m.append(k);
        return Err(m);
    };
    let ref_ = match a.flag("ref") {
        Some(r) => if r.unicode_len() > 0 {
            Some(r.clone())
        } else {
            None
        },
        None => None,
    };
    let t_ms = match a.flag("t-ms") {
        Some(t) => match parse_u64(t.as_str()) {
            Some(n) => n,
            None => 0,
        },
        None => 0,
    };
    let author = match a.flag("author") {
        Some(x) => if str_eq(x.as_str(), "agent") {
            NoteAuthor::Agent
        } else {
            NoteAuthor::User
        },
        None => NoteAuthor::User,
    };
    let mut tags: Vec<String> = Vec::new();
    match a.flag("tag") {
        Some(t) => {
            tags.push(t.clone());
            assert(strings_view(tags@) =~= seq![t@]);
        },
        None => {
            assert(strings_view(tags@) =~= Seq::<Seq<char>>::empty());
        },
    }
    Ok(
        NotesCall::Add {
            anchor: Anchor { kind: ak, ref_: ref_, t_ms: t_ms, span: None },
            body: body,
            author: author,
            tags: tags,
            request_id: None,
        },
    )
}

/// The note state a flag value names, as the notes document writes it.
pub fn note_state_flag(v: &str) -> (r: Option<NoteState>)
    ensures
        r == note_state_spec(v@),
{
    if str_eq(v, "open") {
        Some(NoteState::Open)
    } else if str_eq(v, "resolved") {
        Some(NoteState::Resolved)
    } else if str_eq(v, "rejected") {
        Some(NoteState::Rejected)
    } else if str_eq(v, "orphan") {
        Some(NoteState::Orphan)
    } else {
        None
    }
}

/// The note author a flag value names: `user` or `agent`.
pub open spec fn note_author_spec(v: Seq<char>) -> Option<NoteAuthor> {
    if v == "user"@ {
        Some(NoteAuthor::User)
    } else if v == "agent"@ {
        Some(NoteAuthor::Agent)
    } else {
        None
    }
}

pub fn note_author_flag(v: &str) -> (r: Option<NoteAuthor>)
    ensures
        r == note_author_spec(v@),
{
    if str_eq(v, "user") {
        Some(NoteAuthor::User)
    } else if str_eq(v, "agent") {
        Some(NoteAuthor::Agent)
    } else {
        None
    }
}

/// The actor kind an `--actor` filter names: `agent`, `user` or `script`.
pub open spec fn actor_kind_flag_spec(v: Seq<char>) -> Option<ActorKind> {
    if v == "agent"@ {
        Some(ActorKind::Agent)
    } else if v == "user"@ {
        Some(ActorKind::User)
    } else if v == "script"@ {
        Some(ActorKind::Script)
    } else {
        None
    }
}

pub fn actor_kind_flag(v: &str) -> (r: Option<ActorKind>)
    ensures
        r == actor_kind_flag_spec(v@),
{
    if str_eq(v, "agent") {
        Some(ActorKind::Agent)
    } else if str_eq(v, "user") {
        Some(ActorKind::User)
    } else if str_eq(v, "script") {
        Some(ActorKind::Script)
    } else {
        None
    }
}

} // verus!
