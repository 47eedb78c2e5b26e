//! The request side of the workspace's HTTP channel: where a request's head
//! ends, how long its body is, what it asks for and whether it may, the
//! query parameters and the byte range it names. The socket is elsewhere.

use vstd::prelude::*;
use crate::cli::{first_index, find_char, lemma_first_index_range, trim, trim_exec, first_sub, find_sub};
use crate::text::{parse_u64, parse_u64_spec, dec, push_dec};
use crate::json::str_eq;
use crate::mcp::{from_utf8_lossy, utf8_lossy};
use vstd::string::StrSliceExecFns;

verus! {

// ---- lines ----

/// Where the line starting at `start` ends: at the next newline, or the end.
pub open spec fn line_end(s: Seq<char>, start: int) -> int {
    match first_index(s, '\n', start) {
        Some(j) => j,
        None => s.len() as int,
    }
}

/// A line without its trailing carriage return.
pub open spec fn strip_cr(l: Seq<char>) -> Seq<char> {
    if l.len() > 0 && l.last() == '\r' {
        l.drop_last()
    } else {
        l
    }
}

/// The line starting at `start`, as `str::lines` gives it.
pub open spec fn line_from(s: Seq<char>, start: int) -> Seq<char> {
    strip_cr(s.subrange(start, line_end(s, start)))
}

/// `c` equals the lower-case `d` up to ASCII case.
pub open spec fn ci_eq(c: char, d: char) -> bool {
    c == d || ('a' <= d <= 'z' && (c as u32) + 32 == (d as u32))
}

/// `l` starts with `p`, ASCII case ignored (`p` written in lower case).
pub open spec fn starts_ci(l: Seq<char>, p: Seq<char>) -> bool {
    l.len() >= p.len() && forall|i: int| 0 <= i < p.len() ==> ci_eq(#[trigger] l[i], p[i])
}

/// A `Content-Length` header line.
pub open spec fn is_length_line(l: Seq<char>) -> bool {
    starts_ci(l, "content-length:"@)
}

/// A `Range` header line with something after the colon.
pub open spec fn is_range_line(l: Seq<char>) -> bool {
    l.len() > 6 && starts_ci(l, "range:"@)
}

/// The first `Content-Length` line at or after `start`.
pub open spec fn length_line_from(s: Seq<char>, start: int) -> Option<Seq<char>>
    decreases s.len() + 1 - start,
{
    if start < 0 || start > s.len() {
        None
    } else if is_length_line(line_from(s, start)) {
        Some(line_from(s, start))
    } else {
        match first_index(s, '\n', start) {
            Some(j) => if start <= j < s.len() {
                length_line_from(s, j + 1)
            } else {
                None
            },
            None => None,
        }
    }
}

/// The first `Range` line at or after `start`.
pub open spec fn range_line_from(s: Seq<char>, start: int) -> Option<Seq<char>>
    decreases s.len() + 1 - start,
{
    if start < 0 || start > s.len() {
        None
    } else if is_range_line(line_from(s, start)) {
        Some(line_from(s, start))
    } else {
        match first_index(s, '\n', start) {
            Some(j) => if start <= j < s.len() {
                range_line_from(s, j + 1)
            } else {
                None
            },
            None => None,
        }
    }
}

/// `s` up to its first `c` (all of it where there is none).
pub open spec fn before_char(s: Seq<char>, c: char) -> Seq<char> {
    match first_index(s, c, 0) {
        Some(i) => s.take(i),
        None => s,
    }
}

/// The value of a `Content-Length` line: what follows the colon, up to any
/// further colon.
pub open spec fn length_value(l: Seq<char>) -> Seq<char> {
    before_char(l.skip(15), ':')
}

/// The body length a request head declares; 0 where it declares none or
/// no number that fits.
pub open spec fn content_length_spec(head: Seq<char>) -> usize {
    match length_line_from(head, 0) {
        Some(l) => match parse_u64_spec(trim(length_value(l))) {
            Some(n) => if n <= usize::MAX {
                n as usize
            } else {
                0
            },
            None => 0,
        },
        None => 0,
    }
}

/// The byte-range header of a request, trimmed.
pub open spec fn range_header_spec(head: Seq<char>) -> Option<Seq<char>> {
    match range_line_from(head, 0) {
        Some(l) => Some(trim(l.skip(6))),
        None => None,
    }
}

fn line_at(s: &str, start: usize, n: usize) -> (r: (&str, Option<usize>))
    requires
        n == s@.len(),
        start <= n,
    ensures
        r.0@ == line_from(s@, start as int),
        match r.1 {
            Some(j) => first_index(s@, '\n', start as int) == Some(j as int) && start <= j < n,
            None => first_index(s@, '\n', start as int) is None,
        },
{
    let nl = if start < n {
        find_char(s, '\n', start)
    } else {
        None
    };
    proof {
        lemma_first_index_range(s@, '\n', start as int);
    }
    let end = match nl {
        Some(j) => j,
        None => n,
    };
    let raw = s.substring_char(start, end);
    let m = raw.unicode_len();
    if m > 0 && raw.get_char(m - 1) == '\r' {
        let l = raw.substring_char(0, m - 1);
        assert(l@ =~= raw@.drop_last());
        (l, nl)
    } else {
        (raw, nl)
    }
}

fn ci_char_eq(c: char, d: char) -> (r: bool)
    ensures
        r == ci_eq(c, d),
{
    if c == d {
        return true;
    }
    if 'a' <= d && d <= 'z' {
        let cu = c as u32;
        let du = d as u32;
        cu + 32 == du
    } else {
        false
    }
}

fn starts_with_ci(l: &str, p: &str) -> (r: bool)
    ensures
        r == starts_ci(l@, p@),
{
    let n = l.unicode_len();
    let m = p.unicode_len();
    if n < m {
        return false;
    }
    let mut i: usize = 0;
    while i < m
        invariant
            i <= m,
            m == p@.len(),
            n == l@.len(),
            n >= m,
            forall|k: int| 0 <= k < i ==> ci_eq(#[trigger] l@[k], p@[k]),
        decreases m - i,
    {
        if !ci_char_eq(l.get_char(i), p.get_char(i)) {
            return false;
        }
        i += 1;
    }
    true
}

/// The declared body length of a request head.
pub fn content_length(head: &str) -> (r: usize)
    ensures
        r == content_length_spec(head@),
{
    proof {
        reveal_strlit("content-length:");
    }
    assert("content-length:"@.len() == 15);
    let n = head.unicode_len();
    let mut start: usize = 0;
    loop
        invariant
            n == head@.len(),
            start <= n,
            length_line_from(head@, 0) == length_line_from(head@, start as int),
        decreases n - start,
    {
        let (l, nl) = line_at(head, start, n);
        if starts_with_ci(l, "content-length:") {
            proof {
                reveal_strlit("content-length:");
            }
            assert("content-length:"@.len() == 15);
            assert(l@.len() >= 15);
            let rest = l.substring_char(15, l.unicode_len());
            assert(rest@ =~= l@.skip(15));
            let v = match find_char(rest, ':', 0) {
                Some(k) => {
                    let x = rest.substring_char(0, k);
                    assert(x@ =~= rest@.take(k as int));
                    x
                },
                None => rest,
            };
            let t = trim_exec(v);
            return match parse_u64(t) {
                Some(x) => if x <= usize::MAX as u64 {
                    x as usize
                } else {
                    0
                },
                None => 0,
            };
        }
        match nl {
            Some(j) => {
                start = j + 1;
            },
            None => {
                return 0;
            },
        }
    }
}

/// The trimmed value of a request's byte-range header, if it has one.
pub fn range_header(head: &str) -> (r: Option<String>)
    ensures
        match r {
            Some(v) => range_header_spec(head@) == Some(v@),
            None => range_header_spec(head@) is None,
        },
{
    proof {
        reveal_strlit("range:");
    }
    assert("range:"@.len() == 6);
    let n = head.unicode_len();
    let mut start: usize = 0;
    loop
        invariant
            n == head@.len(),
            start <= n,
            range_line_from(head@, 0) == range_line_from(head@, start as int),
        decreases n - start,
    {
        let (l, nl) = line_at(head, start, n);
        if l.unicode_len() > 6 && starts_with_ci(l, "range:") {
            proof {
                reveal_strlit("range:");
            }
            let rest = l.substring_char(6, l.unicode_len());
            assert(rest@ =~= l@.skip(6));
            return Some(trim_exec(rest).to_string());
        }
        match nl {
            Some(j) => {
                start = j + 1;
            },
            None => {
                return None;
            },
        }
    }
}

// ---- the request line ----

/// The second piece of `s` split at `c` (empty where there is none), as
/// `s.split(c).nth(1)` gives it.
pub open spec fn second_piece(s: Seq<char>, c: char) -> Seq<char> {
    match first_index(s, c, 0) {
        None => seq![],
        Some(i) => match first_index(s, c, i + 1) {
            Some(j) => s.subrange(i + 1, j),
            None => s.skip(i + 1),
        },
    }
}

/// The request target's path and query: split at the first `?`, the query
/// empty where there is none.
pub open spec fn target_parts(t: Seq<char>) -> (Seq<char>, Seq<char>) {
    match first_index(t, '?', 0) {
        Some(i) => (t.take(i), t.skip(i + 1)),
        None => (t, seq![]),
    }
}

/// The path and query of a request's first line.
pub open spec fn path_query_spec(first_line: Seq<char>) -> (Seq<char>, Seq<char>) {
    target_parts(second_piece(first_line, ' '))
}

fn second_piece_exec(s: &str, c: char) -> (r: &str)
    ensures
        r@ == second_piece(s@, c),
{
    let n = s.unicode_len();
    match find_char(s, c, 0) {
        None => {
            let e = s.substring_char(0, 0);
            assert(e@ =~= Seq::<char>::empty());
            e
        },
        Some(i) => {
            let nxt = if i + 1 < n {
                find_char(s, c, i + 1)
            } else {
                None
            };
            proof {
                if i + 1 >= n {
                    assert(first_index(s@, c, i + 1) is None);
                }
                lemma_first_index_range(s@, c, i + 1);
            }
            match nxt {
                Some(j) => s.substring_char(i + 1, j),
                None => {
                    let x = s.substring_char(i + 1, n);
                    assert(x@ =~= s@.skip(i + 1));
                    x
                },
            }
        },
    }
}

/// The path and query a request's first line asks for.
pub fn path_query(first_line: &str) -> (r: (String, String))
    ensures
        (r.0@, r.1@) == path_query_spec(first_line@),
{
    let t = second_piece_exec(first_line, ' ');
    let n = t.unicode_len();
    match find_char(t, '?', 0) {
        Some(i) => {
            let a = t.substring_char(0, i);
            let b = t.substring_char(i + 1, n);
            assert(a@ =~= t@.take(i as int));
            assert(b@ =~= t@.skip(i + 1));
            (a.to_string(), b.to_string())
        },
        None => (t.to_string(), String::new()),
    }
}

// ---- query parameters ----

/// Where the query piece starting at `start` ends: at the next `&`, or the
/// end.
pub open spec fn piece_end(q: Seq<char>, start: int) -> int {
    match first_index(q, '&', start) {
        Some(j) => j,
        None => q.len() as int,
    }
}

/// The value a `key=value` piece gives for `k`: the text after the first
/// `=` up to any further `=`, where the key is `k`.
pub open spec fn piece_value(kv: Seq<char>, k: Seq<char>) -> Option<Seq<char>> {
    match first_index(kv, '=', 0) {
        Some(e) => if kv.take(e) == k {
            Some(second_piece(kv, '='))
        } else {
            None
        },
        None => None,
    }
}

/// The value of the first piece for `k` at or after `start`.
pub open spec fn param_from(q: Seq<char>, k: Seq<char>, start: int) -> Option<Seq<char>>
    decreases q.len() + 1 - start,
{
    if start < 0 || start > q.len() {
        None
    } else {
        match piece_value(q.subrange(start, piece_end(q, start)), k) {
            Some(v) => Some(v),
            None => match first_index(q, '&', start) {
                Some(j) => if start <= j < q.len() {
                    param_from(q, k, j + 1)
                } else {
                    None
                },
                None => None,
            },
        }
    }
}

/// The value of the last piece for `k` at or after `start`.
pub open spec fn last_param_from(q: Seq<char>, k: Seq<char>, start: int) -> Option<Seq<char>>
    decreases q.len() + 1 - start,
{
    if start < 0 || start > q.len() {
        None
    } else {
        let here = piece_value(q.subrange(start, piece_end(q, start)), k);
        let later = match first_index(q, '&', start) {
            Some(j) => if start <= j < q.len() {
                last_param_from(q, k, j + 1)
            } else {
                None
            },
            None => None,
        };
        match later {
            Some(v) => Some(v),
            None => here,
        }
    }
}

fn piece_value_exec<'a>(kv: &'a str, k: &str) -> (r: Option<&'a str>)
    ensures
        match r {
            Some(v) => piece_value(kv@, k@) == Some(v@),
            None => piece_value(kv@, k@) is None,
        },
{
    match find_char(kv, '=', 0) {
        Some(e) => {
            let key = kv.substring_char(0, e);
            assert(key@ =~= kv@.take(e as int));
            if str_eq(key, k) {
                Some(second_piece_exec(kv, '='))
            } else {
                None
            }
        },
        None => None,
    }
}

/// The raw value of the first query piece for `k`.
pub fn query_param(q: &str, k: &str) -> (r: Option<String>)
    ensures
        match r {
            Some(v) => param_from(q@, k@, 0) == Some(v@),
            None => param_from(q@, k@, 0) is None,
        },
{
    let n = q.unicode_len();
    let mut start: usize = 0;
    loop
        invariant
            n == q@.len(),
            start <= n,
            param_from(q@, k@, 0) == param_from(q@, k@, start as int),
        decreases n - start,
    {
        let nl = if start < n {
            find_char(q, '&', start)
        } else {
            None
        };
        proof {
            lemma_first_index_range(q@, '&', start as int);
        }
        let end = match nl {
            Some(j) => j,
            None => n,
        };
        let kv = q.substring_char(start, end);
        match piece_value_exec(kv, k) {
            Some(v) => {
                return Some(v.to_string());
            },
            None => {},
        }
        match nl {
            Some(j) => {
                start = j + 1;
            },
            None => {
                return None;
            },
        }
    }
}

/// The instant an event poll asks from: the last `since` piece as a
/// number, 0 where it is none.
pub open spec fn since_spec(q: Seq<char>) -> u64 {
    match last_param_from(q, "since"@, 0) {
        Some(v) => match parse_u64_spec(v) {
            Some(n) => n,
            None => 0,
        },
        None => 0,
    }
}

pub fn since_param(q: &str) -> (r: u64)
    ensures
        r == since_spec(q@),
{
    match last_param(q, "since") {
        Some(v) => match parse_u64(v.as_str()) {
            Some(x) => x,
            None => 0,
        },
        None => 0,
    }
}

// ---- what a request asks for ----

/// What a request is routed to.
#[derive(Clone, Copy, PartialEq, Eq, Structural, Debug)]
pub enum HttpRoute {
    /// A data request without the token: refused.
    Unauthorized,
    /// The shell's own files, public.
    Static,
    /// A media file (GET).
    Media,
    /// The media listing (GET).
    MediaBrowse,
    /// The editable-field table (GET).
    UiFields,
    /// The session description.
    Session,
    /// A tool call (POST).
    Rpc,
    /// A change poll.
    Events,
    /// Anything else: the service's name.
    Other,
}

/// The shell's files, served without a token.
pub open spec fn static_path(p: Seq<char>) -> bool {
    p == "/"@ || p == "/index.html"@ || p == "/app.js"@ || p == "/style.css"@
}

pub open spec fn starts_with(s: Seq<char>, p: Seq<char>) -> bool {
    s.len() >= p.len() && s.take(p.len() as int) == p
}

/// A request carries the token in an `Authorization: Bearer` header or as
/// `token=` in its first line.
pub open spec fn authorized_spec(head: Seq<char>, first_line: Seq<char>, token: Seq<char>) -> bool {
    first_sub(head, "Authorization: Bearer "@ + token, 0) is Some || first_sub(first_line, "token="@ + token, 0) is Some
}

/// Where a request goes: data requests need the token; the shell's files
/// do not.
pub open spec fn route_of(first_line: Seq<char>, path: Seq<char>, authorized: bool) -> HttpRoute {
    let get = starts_with(first_line, "GET"@);
    let post = starts_with(first_line, "POST"@);
    if !authorized && !static_path(path) {
        HttpRoute::Unauthorized
    } else if static_path(path) {
        HttpRoute::Static
    } else if path == "/media"@ && get {
        HttpRoute::Media
    } else if path == "/media/browse"@ && get {
        HttpRoute::MediaBrowse
    } else if path == "/ui-fields"@ && get {
        HttpRoute::UiFields
    } else if path == "/session"@ {
        HttpRoute::Session
    } else if path == "/rpc"@ && post {
        HttpRoute::Rpc
    } else if path == "/events"@ {
        HttpRoute::Events
    } else {
        HttpRoute::Other
    }
}

fn starts_with_exec(s: &str, p: &str) -> (r: bool)
    ensures
        r == starts_with(s@, p@),
{
    let n = s.unicode_len();
    let m = p.unicode_len();
    if n < m {
        return false;
    }
    let pre = s.substring_char(0, m);
    assert(pre@ =~= s@.take(m as int));
    str_eq(pre, p)
}

fn is_static(p: &str) -> (r: bool)
    ensures
        r == static_path(p@),
{
    str_eq(p, "/") || str_eq(p, "/index.html") || str_eq(p, "/app.js") || str_eq(p, "/style.css")
}

/// Whether a request carries the token.
pub fn authorized(head: &str, first_line: &str, token: &str) -> (r: bool)
    ensures
        r == authorized_spec(head@, first_line@, token@),
{
    let mut bearer = String::from_str("Authorization: Bearer ");
    bearer.append(token);
    let mut param = String::from_str("token=");
    param.append(token);
    find_sub(head, bearer.as_str()).is_some() || find_sub(first_line, param.as_str()).is_some()
}

/// Where a request goes.
pub fn route_request(first_line: &str, path: &str, authorized: bool) -> (r: HttpRoute)
    ensures
        r == route_of(first_line@, path@, authorized),
{
    let get = starts_with_exec(first_line, "GET");
    let post = starts_with_exec(first_line, "POST");
    let st = is_static(path);
    if !authorized && !st {
        HttpRoute::Unauthorized
    } else if st {
        HttpRoute::Static
    } else if str_eq(path, "/media") && get {
        HttpRoute::Media
    } else if str_eq(path, "/media/browse") && get {
        HttpRoute::MediaBrowse
    } else if str_eq(path, "/ui-fields") && get {
        HttpRoute::UiFields
    } else if str_eq(path, "/session") {
        HttpRoute::Session
    } else if str_eq(path, "/rpc") && post {
        HttpRoute::Rpc
    } else if str_eq(path, "/events") {
        HttpRoute::Events
    } else {
        HttpRoute::Other
    }
}

// ---- byte ranges ----

/// The part of a media file a request gets.
#[derive(Clone, Copy, PartialEq, Eq, Structural, Debug)]
pub enum ByteRange {
    /// The whole file.
    Whole,
    /// Bytes `start..=end`.
    Part { start: u64, end: u64 },
    /// A range the file cannot give.
    Unsatisfiable,
}

/// The part a `Range` value asks of a file of `total` bytes: `bytes=a-b`,
/// `bytes=a-` (to the end) or `bytes=-n` (the last n); only the first of
/// several ranges counts; no range header means the whole file.
pub open spec fn byte_range_spec(r: Option<Seq<char>>, total: u64) -> ByteRange {
    match r {
        None => ByteRange::Whole,
        Some(x) => {
            let t = trim(x);
            if !starts_with(t, "bytes="@) {
                ByteRange::Whole
            } else {
                let sp = trim(before_char(t.skip(6), ','));
                let (a, b) = match first_index(sp, '-', 0) {
                    Some(i) => (sp.take(i), sp.skip(i + 1)),
                    None => (seq![], seq![]),
                };
                match (parse_u64_spec(trim(a)), parse_u64_spec(trim(b))) {
                    (Some(s), Some(e)) => if s <= e && e < total {
                        ByteRange::Part { start: s, end: e }
                    } else {
                        ByteRange::Unsatisfiable
                    },
                    (Some(s), None) => if s < total {
                        ByteRange::Part { start: s, end: (total - 1) as u64 }
                    } else {
                        ByteRange::Unsatisfiable
                    },
                    (None, Some(n)) => if n > 0 && n <= total {
                        ByteRange::Part { start: (total - n) as u64, end: (total - 1) as u64 }
                    } else {
                        ByteRange::Unsatisfiable
                    },
                    (None, None) => ByteRange::Unsatisfiable,
                }
            }
        },
    }
}

pub open spec fn opt_text(o: Option<&str>) -> Option<Seq<char>> {
    match o {
        Some(s) => Some(s@),
        None => None,
    }
}

/// The part of a file of `total` bytes a `Range` value asks for.
pub fn byte_range(range: Option<&str>, total: u64) -> (r: ByteRange)
    ensures
        r == byte_range_spec(opt_text(range), total),
{
    let x = match range {
        Some(x) => x,
        None => return ByteRange::Whole,
    };
    proof {
        reveal_strlit("bytes=");
    }
    assert("bytes="@.len() == 6);
    let t = trim_exec(x);
    if !starts_with_exec(t, "bytes=") {
        return ByteRange::Whole;
    }
    let n = t.unicode_len();
    let rest = t.substring_char(6, n);
    assert(rest@ =~= t@.skip(6));
    let first = match find_char(rest, ',', 0) {
        Some(k) => {
            let f = rest.substring_char(0, k);
            assert(f@ =~= rest@.take(k as int));
            f
        },
        None => rest,
    };
    let sp = trim_exec(first);
    let m = sp.unicode_len();
    let (a, b) = match find_char(sp, '-', 0) {
        Some(i) => {
            let a = sp.substring_char(0, i);
            let b = sp.substring_char(i + 1, m);
            assert(a@ =~= sp@.take(i as int));
            assert(b@ =~= sp@.skip(i + 1));
            (a, b)
        },
        None => {
            let e = sp.substring_char(0, 0);
            assert(e@ =~= Seq::<char>::empty());
            (e, e)
        },
    };
    match (parse_u64(trim_exec(a)), parse_u64(trim_exec(b))) {
        (Some(s), Some(e)) => if s <= e && e < total {
            ByteRange::Part { start: s, end: e }
        } else {
            ByteRange::Unsatisfiable
        },
        (Some(s), None) => if s < total {
            ByteRange::Part { start: s, end: total - 1 }
        } else {
            ByteRange::Unsatisfiable
        },
        (None, Some(k)) => if k > 0 && k <= total {
            ByteRange::Part { start: total - k, end: total - 1 }
        } else {
            ByteRange::Unsatisfiable
        },
        (None, None) => ByteRange::Unsatisfiable,
    }
}

// ---- reading a request ----

/// The first blank-line separator (`\r\n\r\n`) at or after `i`.
pub open spec fn head_end_from(b: Seq<u8>, i: int) -> Option<int>
    decreases b.len() - i,
{
    if i < 0 || i + 4 > b.len() {
        None
    } else if b[i] == 13 && b[i + 1] == 10 && b[i + 2] == 13 && b[i + 3] == 10 {
        Some(i)
    } else {
        head_end_from(b, i + 1)
    }
}

/// Where the head of a request ends: the position of its blank-line
/// separator.
pub fn head_end(b: &Vec<u8>) -> (r: Option<usize>)
    ensures
        match r {
            Some(i) => head_end_from(b@, 0) == Some(i as int) && i + 4 <= b.len(),
            None => head_end_from(b@, 0) is None,
        },
{
    let n = b.len();
    if n < 4 {
        return None;
    }
    let mut i: usize = 0;
    while i <= n - 4
        invariant
            n == b.len(),
            n >= 4,
            i <= n,
            head_end_from(b@, 0) == head_end_from(b@, i as int),
        decreases n - i,
    {
        if b[i] == 13 && b[i + 1] == 10 && b[i + 2] == 13 && b[i + 3] == 10 {
            return Some(i);
        }
        i += 1;
    }
    None
}

/// Whether all of a request has arrived: its head, and as many body bytes
/// as the head declares.
pub open spec fn request_complete_spec(b: Seq<u8>) -> bool {
    match head_end_from(b, 0) {
        Some(i) => b.len() >= i + 4 + content_length_spec(utf8_lossy(b.take(i + 4))),
        None => false,
    }
}

pub fn request_complete(b: &Vec<u8>) -> (r: bool)
    ensures
        r == request_complete_spec(b@),
{
    match head_end(b) {
        Some(i) => {
            let mut head: Vec<u8> = Vec::new();
            let mut k: usize = 0;
            while k < i + 4
                invariant
                    k <= i + 4,
                    i + 4 <= b.len(),
                    head@ == b@.take(k as int),
                decreases i + 4 - k,
            {
                head.push(b[k]);
                assert(head@ =~= b@.take(k + 1));
                k += 1;
            }
            let text = from_utf8_lossy(head);
            let len = content_length(text.as_str());
            (b.len() - (i + 4)) >= len
        },
        None => false,
    }
}

/// A request as the server handles it.
pub struct Request {
    pub route: HttpRoute,
    pub path: String,
    pub query: String,
    pub range: Option<String>,
    pub body: String,
}

/// The bytes from `k` on.
fn tail_bytes(b: &Vec<u8>, k: usize) -> (r: Vec<u8>)
    requires
        k <= b.len(),
    ensures
        r@ == b@.skip(k as int),
{
    let mut out: Vec<u8> = Vec::new();
    let mut j: usize = k;
    while j < b.len()
        invariant
            k <= j <= b.len(),
            out@ == b@.subrange(k as int, j as int),
        decreases b.len() - j,
    {
        out.push(b[j]);
        assert(out@ =~= b@.subrange(k as int, j + 1));
        j += 1;
    }
    out
}

fn copy_bytes(b: &Vec<u8>) -> (r: Vec<u8>)
    ensures
        r@ == b@,
{
    let r = tail_bytes(b, 0);
    assert(b@.skip(0) =~= b@);
    r
}

/// What a request's bytes say: decoded as text, its first line gives the
/// path and query, the token decides whether data may be served, the
/// range header and the body follow the head.
pub open spec fn request_ok(r: Request, b: Seq<u8>, token: Seq<char>) -> bool {
    let head = utf8_lossy(b);
    let first = line_from(head, 0);
    let (path, query) = path_query_spec(first);
    let body_start = match head_end_from(b, 0) {
        Some(i) => i + 4,
        None => b.len() as int,
    };
    &&& r.path@ == path
    &&& r.query@ == query
    &&& r.route == route_of(first, path, authorized_spec(head, first, token))
    &&& (match r.range {
        Some(v) => range_header_spec(head) == Some(v@),
        None => range_header_spec(head) is None,
    })
    &&& r.body@ == utf8_lossy(b.skip(body_start))
}

/// Reads a request from its bytes.
pub fn parse_request(b: &Vec<u8>, token: &str) -> (r: Request)
    ensures
        request_ok(r, b@, token@),
{
    let head = from_utf8_lossy(copy_bytes(b));
    let n = head.unicode_len();
    let (first, _) = line_at(head.as_str(), 0, n);
    let (path, query) = path_query(first);
    let ok = authorized(head.as_str(), first, token);
    let route = route_request(first, path.as_str(), ok);
    let range = range_header(head.as_str());
    let body_start = match head_end(b) {
        Some(i) => i + 4,
        None => b.len(),
    };
    let body = from_utf8_lossy(tail_bytes(b, body_start));
    Request { route: route, path: path, query: query, range: range, body: body }
}

// ---- answers ----

/// The shell file a static path serves, with its content type.
pub open spec fn static_file_spec(p: Seq<char>) -> Option<(Seq<char>, Seq<char>)> {
    if p == "/"@ || p == "/index.html"@ {
        Some(("text/html; charset=utf-8"@, "index.html"@))
    } else if p == "/app.js"@ {
        Some(("text/javascript; charset=utf-8"@, "app.js"@))
    } else if p == "/style.css"@ {
        Some(("text/css; charset=utf-8"@, "style.css"@))
    } else {
        None
    }
}

pub fn static_file(p: &str) -> (r: Option<(&'static str, &'static str)>)
    ensures
        match r {
            Some(x) => static_file_spec(p@) == Some((x.0@, x.1@)),
            None => static_file_spec(p@) is None,
        },
{
    if str_eq(p, "/") || str_eq(p, "/index.html") {
        Some(("text/html; charset=utf-8", "index.html"))
    } else if str_eq(p, "/app.js") {
        Some(("text/javascript; charset=utf-8", "app.js"))
    } else if str_eq(p, "/style.css") {
        Some(("text/css; charset=utf-8", "style.css"))
    } else {
        None
    }
}

/// The extra headers of a media answer: ranges are accepted, and a part
/// names its bytes and the file's size.
pub open spec fn media_headers_spec(part: Option<(u64, u64)>, total: u64) -> Seq<char> {
    match part {
        Some((s, e)) => "Accept-Ranges: bytes\r\nContent-Range: bytes "@ + dec(s as nat) + "-"@ + dec(e as nat) + "/"@
            + dec(total as nat) + "\r\n"@,
        None => "Accept-Ranges: bytes\r\n"@,
    }
}

pub fn media_headers(part: Option<(u64, u64)>, total: u64) -> (r: String)
    ensures
        r@ == media_headers_spec(part, total),
{
    match part {
        Some((s, e)) => {
            let mut h = String::from_str("Accept-Ranges: bytes\r\nContent-Range: bytes ");
            push_dec(&mut h, s);
            h.append("-");
            push_dec(&mut h, e);
            h.append("/");
            push_dec(&mut h, total);
            h.append("\r\n");
            h
        },
        None => String::from_str("Accept-Ranges: bytes\r\n"),
    }
}

// ---- the tool channel over HTTP ----

/// What a request on the tool channel's HTTP side asks for.
pub enum ToolHttp {
    /// No bearer token: refused.
    Unauthorized,
    /// A tool call; its body is the JSON-RPC request.
    Rpc,
    /// A change poll on a project root, from a sequence number.
    Events { root: String, since: u64 },
    /// A change poll that names no root.
    EventsWithoutRoot,
    /// Anything else: the service's description.
    Other,
}

pub enum ToolHttpV {
    Unauthorized,
    Rpc,
    Events { root: Seq<char>, since: u64 },
    EventsWithoutRoot,
    Other,
}

impl View for ToolHttp {
    type V = ToolHttpV;
    open spec fn view(&self) -> ToolHttpV {
        match self {
            ToolHttp::Unauthorized => ToolHttpV::Unauthorized,
            ToolHttp::Rpc => ToolHttpV::Rpc,
            ToolHttp::Events { root, since } => ToolHttpV::Events { root: root@, since: *since },
            ToolHttp::EventsWithoutRoot => ToolHttpV::EventsWithoutRoot,
            ToolHttp::Other => ToolHttpV::Other,
        }
    }
}

/// What the tool channel makes of a request head: the bearer token is
/// required; a head starting `POST /rpc` is a call, one starting
/// `GET /events` a poll whose parameters are read from the first line after
/// its `?` (the last `root` and `since` count; `since` 0 where it is no
/// number).
pub open spec fn tool_http_spec(head: Seq<char>, token: Seq<char>) -> ToolHttpV {
    if first_sub(head, "Authorization: Bearer "@ + token, 0) is None {
        ToolHttpV::Unauthorized
    } else if starts_with(head, "POST /rpc"@) {
        ToolHttpV::Rpc
    } else if starts_with(head, "GET /events"@) {
        let q = second_piece(line_from(head, 0), '?');
        let root = match last_param_from(q, "root"@, 0) {
            Some(r) => r,
            None => seq![],
        };
        if root.len() == 0 {
            ToolHttpV::EventsWithoutRoot
        } else {
            ToolHttpV::Events { root: root, since: since_spec(q) }
        }
    } else {
        ToolHttpV::Other
    }
}

fn last_param(q: &str, k: &str) -> (r: Option<String>)
    ensures
        match r {
            Some(v) => last_param_from(q@, k@, 0) == Some(v@),
            None => last_param_from(q@, k@, 0) is None,
        },
{
    let n = q.unicode_len();
    let mut start: usize = 0;
    let mut found: Option<String> = None;
    loop
        invariant
            n == q@.len(),
            start <= n,
            last_param_from(q@, k@, 0) == match last_param_from(q@, k@, start as int) {
                Some(v) => Some(v),
                None => match found {
                    Some(f) => Some(f@),
                    None => None::<Seq<char>>,
                },
            },
        ensures
            last_param_from(q@, k@, 0) == match found {
                Some(f) => Some(f@),
                None => None::<Seq<char>>,
            },
        decreases n - start,
    {
        let nl = if start < n {
            find_char(q, '&', start)
        } else {
            None
        };
        proof {
            lemma_first_index_range(q@, '&', start as int);
        }
        let end = match nl {
            Some(j) => j,
            None => n,
        };
        let kv = q.substring_char(start, end);
        match piece_value_exec(kv, k) {
            Some(v) => {
                found = Some(v.to_string());
            },
            None => {},
        }
        match nl {
            Some(j) => {
                start = j + 1;
            },
            None => {
                break;
            },
        }
    }
    found
}

/// What a request on the tool channel asks for.
pub fn tool_http_request(head: &str, token: &str) -> (r: ToolHttp)
    ensures
        r@ == tool_http_spec(head@, token@),
{
    let mut bearer = String::from_str("Authorization: Bearer ");
    bearer.append(token);
    if find_sub(head, bearer.as_str()).is_none() {
        return ToolHttp::Unauthorized;
    }
    if starts_with_exec(head, "POST /rpc") {
        return ToolHttp::Rpc;
    }
    if !starts_with_exec(head, "GET /events") {
        return ToolHttp::Other;
    }
    let n = head.unicode_len();
    let (first, _) = line_at(head, 0, n);
    let q = second_piece_exec(first, '?');
    let root = match last_param(q, "root") {
        Some(r) => r,
        None => String::new(),
    };
    if root.unicode_len() == 0 {
        ToolHttp::EventsWithoutRoot
    } else {
        ToolHttp::Events { root: root, since: since_param(q) }
    }
}

/// The text of a request's bytes.
pub fn request_text(b: &Vec<u8>) -> (r: String)
    ensures
        r@ == utf8_lossy(b@),
{
    from_utf8_lossy(copy_bytes(b))
}

/// The text of a request's body: the bytes after the head.
pub fn body_text(b: &Vec<u8>) -> (r: String)
    ensures
        r@ == utf8_lossy(b@.skip(
            match head_end_from(b@, 0) {
                Some(i) => i + 4,
                None => b@.len() as int,
            },
        )),
{
    let start = match head_end(b) {
        Some(i) => i + 4,
        None => b.len(),
    };
    from_utf8_lossy(tail_bytes(b, start))
}

} // verus!
