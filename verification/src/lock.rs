//! The project write lock: a lock file holding the owner's process id and
//! the time it was taken. A lock older than the stale limit is a leftover
//! of a crashed owner and is taken over; otherwise taking the lock is
//! retried a bounded number of times.

use vstd::prelude::*;
use crate::cli::{first_sub, find_sub, trim, trim_exec};
use crate::text::{dec, push_dec, parse_u64, parse_u64_spec};

verus! {

/// The lock file's text: `pid=<pid> ts=<ms>`.
pub open spec fn lock_text_spec(pid: u32, ts: u64) -> Seq<char> {
    "pid="@ + dec(pid as nat) + " ts="@ + dec(ts as nat)
}

pub fn lock_text(pid: u32, ts: u64) -> (r: String)
    ensures
        r@ == lock_text_spec(pid, ts),
{
    let mut s = String::new();
    s.append("pid=");
    push_dec(&mut s, pid as u64);
    s.append(" ts=");
    push_dec(&mut s, ts);
    proof {
        reveal_strlit("pid=");
        reveal_strlit(" ts=");
    }
    assert(s@ =~= lock_text_spec(pid, ts));
    s
}

/// The time stamp a lock file's text carries: the text between the first
/// ` ts=` and the next one (or the end), trimmed, read as a number.
pub open spec fn lock_ts_spec(text: Seq<char>) -> Option<u64> {
    match first_sub(text, " ts="@, 0) {
        Some(i) => {
            let rest = text.skip(i + 4);
            let piece = match first_sub(rest, " ts="@, 0) {
                Some(j) => rest.take(j),
                None => rest,
            };
            parse_u64_spec(trim(piece))
        },
        None => None,
    }
}

pub fn lock_ts(text: &str) -> (r: Option<u64>)
    ensures
        r == lock_ts_spec(text@),
{
    proof {
        reveal_strlit(" ts=");
    }
    assert(" ts="@.len() == 4);
    match find_sub(text, " ts=") {
        Some(i) => {
            let n = text.unicode_len();
            let rest = text.substring_char(i + 4, n);
            assert(rest@ =~= text@.skip(i + 4));
            let piece = match find_sub(rest, " ts=") {
                Some(j) => {
                    let p = rest.substring_char(0, j);
                    assert(p@ =~= rest@.take(j as int));
                    p
                },
                None => rest,
            };
            parse_u64(trim_exec(piece))
        },
        None => None,
    }
}

/// Whether a lock with this text is a leftover: its time stamp is more
/// than `stale_after_ms` before `now_ms`. A text without a readable time
/// stamp is never stale.
pub open spec fn is_stale_spec(text: Seq<char>, now_ms: u64, stale_after_ms: u64) -> bool {
    match lock_ts_spec(text) {
        Some(ts) => (if now_ms >= ts { now_ms - ts } else { 0 }) > stale_after_ms,
        None => false,
    }
}

pub fn is_stale(text: &str, now_ms: u64, stale_after_ms: u64) -> (r: bool)
    ensures
        r == is_stale_spec(text@, now_ms, stale_after_ms),
{
    match lock_ts(text) {
        Some(ts) => now_ms.saturating_sub(ts) > stale_after_ms,
        None => false,
    }
}

/// What to do when the lock file already exists.
#[derive(Debug)]
pub enum LockStep {
    /// The holder is a leftover: remove its file and try again at once
    /// (this does not count as a retry).
    TakeOver,
    /// Out of retries: report the project as locked.
    GiveUp,
    /// Wait a moment and try again.
    Retry,
}

/// The decision after finding the lock taken, given the lock file's text
/// (if it could be read), the time, and the retries used so far.
pub fn after_conflict(text: Option<&str>, now_ms: u64, stale_after_ms: u64, attempt: u32, retries: u32) -> (r: LockStep)
    ensures
        (text matches Some(t) && is_stale_spec(t@, now_ms, stale_after_ms)) ==> r is TakeOver,
        !(text matches Some(t) && is_stale_spec(t@, now_ms, stale_after_ms)) ==> (if attempt == retries {
            r is GiveUp
        } else {
            r is Retry
        }),
{
    match text {
        Some(t) => {
            if is_stale(t, now_ms, stale_after_ms) {
                return LockStep::TakeOver;
            }
        },
        None => {},
    }
    if attempt == retries {
        LockStep::GiveUp
    } else {
        LockStep::Retry
    }
}

/// A held project lock: the path of its lock file (released by removing it).
#[derive(Debug)]
pub struct LockGuard {
    path: String,
}

impl LockGuard {
    pub closed spec fn path_view(&self) -> Seq<char> {
        self.path@
    }

    pub fn new(path: String) -> (r: LockGuard)
        ensures
            r.path_view() == path@,
    {
        LockGuard { path }
    }

    pub fn path(&self) -> (r: &str)
        ensures
            r@ == self.path_view(),
    {
        self.path.as_str()
    }
}

proof fn lemma_first_sub_at(s: Seq<char>, p: Seq<char>, i: int, j: int)
    requires
        0 <= i <= j,
        j + p.len() <= s.len(),
        p.len() > 0,
        s.subrange(j, j + p.len()) == p,
        forall|k: int| i <= k < j ==> s[k] != p[0],
    ensures
        first_sub(s, p, i) == Some(j),
    decreases j - i,
{
    if i < j {
        assert(s.subrange(i, i + p.len())[0] == s[i]);
        lemma_first_sub_at(s, p, i + 1, j);
    }
}

proof fn lemma_first_sub_none(s: Seq<char>, p: Seq<char>, i: int)
    requires
        0 <= i,
        p.len() > 0,
        forall|k: int| 0 <= k < s.len() ==> s[k] != p[0],
    ensures
        first_sub(s, p, i) is None,
    decreases s.len() + 1 - i,
{
    if i + p.len() <= s.len() {
        assert(s.subrange(i, i + p.len())[0] == s[i]);
        lemma_first_sub_none(s, p, i + 1);
    }
}

proof fn lemma_digits_not(n: nat)
    ensures
        forall|k: int| 0 <= k < dec(n).len() ==> '0' <= #[trigger] dec(n)[k] <= '9',
        dec(n).len() > 0,
        n <= u64::MAX ==> parse_u64_spec(dec(n)) == Some(n as u64),
{
    crate::text::lemma_dec_val(n);
    assert forall|k: int| 0 <= k < dec(n).len() implies '0' <= #[trigger] dec(n)[k] <= '9' by {
        assert(crate::text::is_digit(dec(n)[k]));
    }
}

/// A lock written at `ts` and read back carries `ts`.
pub proof fn law_lock_text_reads_back(pid: u32, ts: u64)
    ensures
        lock_ts_spec(lock_text_spec(pid, ts)) == Some(ts),
{
    reveal_strlit("pid=");
    reveal_strlit(" ts=");
    lemma_digits_not(pid as nat);
    lemma_digits_not(ts as nat);
    let a = dec(pid as nat);
    let b = dec(ts as nat);
    let t = lock_text_spec(pid, ts);
    let sep = " ts="@;
    let j: int = 4 + a.len() as int;
    assert(t =~= "pid="@ + a + sep + b);
    assert(t.subrange(j, j + 4) =~= sep);
    assert forall|k: int| 0 <= k < j implies t[k] != sep[0] by {
        if k >= 4 {
            assert(t[k] == a[k - 4]);
        }
    }
    lemma_first_sub_at(t, sep, 0, j);
    let rest = t.skip(j + 4);
    assert(rest =~= b);
    lemma_first_sub_none(rest, sep, 0);
    assert(!crate::notes::is_ws(b[0]));
    assert(!crate::notes::is_ws(b.last()));
    assert(crate::cli::trim_start(b) == b);
    assert(crate::cli::trim_end(b) == b);
}

} // verus!
