//! Change detection by polling: two snapshots of the project tree are
//! compared. Files the tool writes itself (its op log and lock), temporary
//! files, backups and rendered output are ignored.

use vstd::prelude::*;
use crate::json::str_eq;
use crate::stage::{norm_path, starts_with};
use crate::oplog::strings_view;

verus! {

#[derive(Clone, Copy, PartialEq, Eq, Structural, Debug)]
pub enum EventKind {
    Created,
    Modified,
    Removed,
}

pub open spec fn ends_with(s: Seq<char>, p: Seq<char>) -> bool {
    p.len() <= s.len() && s.skip(s.len() - p.len()) == p
}

pub open spec fn contains_seq(s: Seq<char>, p: Seq<char>) -> bool {
    exists|i: int| 0 <= i <= s.len() - p.len() && #[trigger] s.subrange(i, i + p.len()) == p
}

/// Whether a relative path is left out of change detection.
pub open spec fn ignored_spec(rel: Seq<char>) -> bool {
    let s = norm_path(rel);
    ||| contains_seq(s, ".cutforge/oplog/"@)
    ||| ends_with(s, ".cutforge/lock"@)
    ||| starts_with(s, "_state/backup/"@)
    ||| starts_with(s, "06_output/"@)
    ||| ends_with(s, ".tmp"@)
}

fn ends_with_exec(s: &str, p: &str) -> (r: bool)
    ensures
        r == ends_with(s@, p@),
{
    let ls = s.unicode_len();
    let lp = p.unicode_len();
    if lp > ls {
        return false;
    }
    str_eq(s.substring_char(ls - lp, ls), p)
}

fn contains_exec(s: &str, p: &str) -> (r: bool)
    ensures
        r == contains_seq(s@, p@),
{
    let ls = s.unicode_len();
    let lp = p.unicode_len();
    if lp > ls {
        assert forall|i: int| 0 <= i <= s@.len() - p@.len() implies #[trigger] s@.subrange(i, i + p@.len()) != p@ by {
        }
        return false;
    }
    if lp == 0 {
        let ghost z: int = 0;
        assert(s@.subrange(z, z + p@.len()) =~= p@);
        return true;
    }
    let mut i: usize = 0;
    let last = ls - lp;
    while i <= last
        invariant
            ls == s@.len(),
            lp == p@.len(),
            1 <= lp <= ls,
            last == ls - lp,
            i <= last + 1,
            forall|k: int| 0 <= k < i ==> #[trigger] s@.subrange(k, k + p@.len()) != p@,
        decreases last + 1 - i,
    {
        if str_eq(s.substring_char(i, i + lp), p) {
            assert(s@.subrange(i as int, i + p@.len()) == p@);
            return true;
        }
        i += 1;
    }
    false
}

/// Whether a relative path is left out of change detection.
pub fn ignored(rel: &str) -> (r: bool)
    ensures
        r == ignored_spec(rel@),
{
    let n = crate::stage::normalize_path(rel);
    let s = n.as_str();
    if contains_exec(s, ".cutforge/oplog/") || ends_with_exec(s, ".cutforge/lock") {
        return true;
    }
    if crate::stage::starts_with_path(s, "_state/backup/") || crate::stage::starts_with_path(s, "06_output/") {
        return true;
    }
    ends_with_exec(s, ".tmp")
}

/// A file's signature in a snapshot: (length, modification time in ms).
pub type Sig = (u64, u64);

/// The signature of `rel` in a snapshot (first entry of that path).
pub open spec fn snap_get(snap: Seq<(Seq<char>, Sig)>, rel: Seq<char>) -> Option<Sig>
    decreases snap.len(),
{
    if snap.len() == 0 {
        None
    } else if snap[0].0 == rel {
        Some(snap[0].1)
    } else {
        snap_get(snap.drop_first(), rel)
    }
}

pub open spec fn snap_view(v: Seq<(String, Sig)>) -> Seq<(Seq<char>, Sig)> {
    v.map_values(|e: (String, Sig)| (e.0@, e.1))
}

/// Events from entries `cur[..upto]`: created (absent before) or modified
/// (signature changed), in order.
pub open spec fn changed_upto(last: Seq<(Seq<char>, Sig)>, cur: Seq<(Seq<char>, Sig)>, upto: int) -> Seq<
    (Seq<char>, EventKind),
>
    decreases upto,
{
    if upto <= 0 {
        Seq::empty()
    } else {
        let prev = changed_upto(last, cur, upto - 1);
        let (rel, sig) = cur[upto - 1];
        match snap_get(last, rel) {
            None => prev.push((rel, EventKind::Created)),
            Some(old) => if old != sig {
                prev.push((rel, EventKind::Modified))
            } else {
                prev
            },
        }
    }
}

/// Events for entries `last[..upto]` that are gone, in order.
pub open spec fn removed_upto(last: Seq<(Seq<char>, Sig)>, cur: Seq<(Seq<char>, Sig)>, upto: int) -> Seq<
    (Seq<char>, EventKind),
>
    decreases upto,
{
    if upto <= 0 {
        Seq::empty()
    } else {
        let prev = removed_upto(last, cur, upto - 1);
        if snap_get(cur, last[upto - 1].0) is None {
            prev.push((last[upto - 1].0, EventKind::Removed))
        } else {
            prev
        }
    }
}

/// The events between two snapshots: created and modified files in the
/// order of the new snapshot, then removed files in the order of the old.
pub open spec fn diff_spec(last: Seq<(Seq<char>, Sig)>, cur: Seq<(Seq<char>, Sig)>) -> Seq<(Seq<char>, EventKind)> {
    changed_upto(last, cur, cur.len() as int) + removed_upto(last, cur, last.len() as int)
}

pub open spec fn events_view(v: Seq<(String, EventKind)>) -> Seq<(Seq<char>, EventKind)> {
    v.map_values(|e: (String, EventKind)| (e.0@, e.1))
}

fn snap_lookup(snap: &Vec<(String, Sig)>, rel: &str) -> (r: Option<Sig>)
    ensures
        r == snap_get(snap_view(snap@), rel@),
{
    let ghost sv = snap_view(snap@);
    let mut i: usize = 0;
    assert(sv.skip(0) =~= sv);
    while i < snap.len()
        invariant
            i <= snap.len(),
            sv == snap_view(snap@),
            snap_get(sv, rel@) == snap_get(sv.skip(i as int), rel@),
        decreases snap.len() - i,
    {
        assert(sv.skip(i as int)[0] == sv[i as int]);
        assert(sv.skip(i as int).drop_first() =~= sv.skip(i + 1));
        if str_eq(snap[i].0.as_str(), rel) {
            return Some(snap[i].1);
        }
        i += 1;
    }
    assert(sv.skip(i as int) =~= Seq::<(Seq<char>, Sig)>::empty());
    None
}

/// The events between two snapshots of the project tree.
pub fn diff_snapshots(last: &Vec<(String, Sig)>, cur: &Vec<(String, Sig)>) -> (r: Vec<(String, EventKind)>)
    ensures
        events_view(r@) == diff_spec(snap_view(last@), snap_view(cur@)),
{
    let ghost lv = snap_view(last@);
    let ghost cv = snap_view(cur@);
    let mut events: Vec<(String, EventKind)> = Vec::new();
    let mut i: usize = 0;
    assert(events_view(events@) =~= Seq::<(Seq<char>, EventKind)>::empty());
    while i < cur.len()
        invariant
            i <= cur.len(),
            lv == snap_view(last@),
            cv == snap_view(cur@),
            events_view(events@) == changed_upto(lv, cv, i as int),
        decreases cur.len() - i,
    {
        let ghost prev = events_view(events@);
        assert(cv[i as int] == (cur@[i as int].0@, cur@[i as int].1));
        match snap_lookup(last, cur[i].0.as_str()) {
            None => {
                events.push((cur[i].0.clone(), EventKind::Created));
                assert(events_view(events@) =~= prev.push((cv[i as int].0, EventKind::Created)));
            },
            Some(old) => {
                if old.0 != cur[i].1.0 || old.1 != cur[i].1.1 {
                    events.push((cur[i].0.clone(), EventKind::Modified));
                    assert(events_view(events@) =~= prev.push((cv[i as int].0, EventKind::Modified)));
                }
            },
        }
        i += 1;
    }
    let ghost changed = events_view(events@);
    let mut j: usize = 0;
    assert(removed_upto(lv, cv, 0) =~= Seq::<(Seq<char>, EventKind)>::empty());
    assert(events_view(events@) =~= changed + removed_upto(lv, cv, 0));
    while j < last.len()
        invariant
            j <= last.len(),
            lv == snap_view(last@),
            cv == snap_view(cur@),
            changed == changed_upto(lv, cv, cv.len() as int),
            events_view(events@) == changed + removed_upto(lv, cv, j as int),
        decreases last.len() - j,
    {
        let ghost prev = events_view(events@);
        assert(lv[j as int] == (last@[j as int].0@, last@[j as int].1));
        if snap_lookup(cur, last[j].0.as_str()).is_none() {
            events.push((last[j].0.clone(), EventKind::Removed));
            assert(events_view(events@) =~= prev.push((lv[j as int].0, EventKind::Removed)));
        }
        j += 1;
    }
    events
}

/// `rel` under `root`, as a path join writes it.
pub open spec fn path_join(root: Seq<char>, rel: Seq<char>) -> Seq<char> {
    if root.len() == 0 {
        rel
    } else if root.last() == '/' {
        root + rel
    } else {
        root + "/"@ + rel
    }
}

fn path_join_exec(root: &str, rel: &str) -> (r: String)
    ensures
        r@ == path_join(root@, rel@),
{
    let n = root.unicode_len();
    let mut out = root.to_string();
    if n > 0 && root.get_char(n - 1) != '/' {
        out.append("/");
    }
    out.append(rel);
    proof {
        reveal_strlit("/");
    }
    out
}

/// The entries of a walk that change detection keeps, in walk order.
pub open spec fn kept(walk: Seq<(Seq<char>, Sig)>) -> Seq<(Seq<char>, Sig)>
    decreases walk.len(),
{
    if walk.len() == 0 {
        Seq::empty()
    } else if ignored_spec(walk.last().0) {
        kept(walk.drop_last())
    } else {
        kept(walk.drop_last()).push(walk.last())
    }
}

fn keep_entries(walk: Vec<(String, Sig)>) -> (r: Vec<(String, Sig)>)
    ensures
        snap_view(r@) == kept(snap_view(walk@)),
{
    let ghost wv = snap_view(walk@);
    let mut out: Vec<(String, Sig)> = Vec::new();
    let mut i: usize = 0;
    assert(snap_view(out@) =~= kept(wv.take(0)));
    while i < walk.len()
        invariant
            i <= walk.len(),
            wv == snap_view(walk@),
            snap_view(out@) == kept(wv.take(i as int)),
        decreases walk.len() - i,
    {
        let ghost before = snap_view(out@);
        assert(wv.take(i + 1).drop_last() =~= wv.take(i as int));
        assert(wv[i as int] == (walk@[i as int].0@, walk@[i as int].1));
        if !ignored(walk[i].0.as_str()) {
            out.push((walk[i].0.clone(), walk[i].1));
            assert(snap_view(out@) =~= before.push(wv[i as int]));
        }
        i += 1;
    }
    assert(wv.take(walk.len() as int) =~= wv);
    out
}

/// A change seen by polling: the file (under the watched root), what
/// happened to it, and when it was seen (ms since the epoch).
#[derive(Debug)]
pub struct FileEvent {
    pub path: String,
    pub kind: EventKind,
    pub ts_ms: u64,
}

pub struct FileEventV {
    pub path: Seq<char>,
    pub kind: EventKind,
    pub ts_ms: u64,
}

impl View for FileEvent {
    type V = FileEventV;
    open spec fn view(&self) -> FileEventV {
        FileEventV { path: self.path@, kind: self.kind, ts_ms: self.ts_ms }
    }
}

/// The events that a poll reports for the changes `d`, all stamped `ts`.
pub open spec fn stamp_events(root: Seq<char>, d: Seq<(Seq<char>, EventKind)>, ts: u64) -> Seq<FileEventV> {
    d.map_values(|e: (Seq<char>, EventKind)| FileEventV { path: path_join(root, e.0), kind: e.1, ts_ms: ts })
}

/// Polling change detection over a project tree. The tree walk itself
/// (file names with length and modification time) is handed in by the
/// caller; the watcher keeps the last snapshot and reports what differs.
#[derive(Debug)]
pub struct Watcher {
    root: String,
    last: Vec<(String, Sig)>,
    debounce_ms: u64,
}

impl Watcher {
    pub closed spec fn root_view(&self) -> Seq<char> {
        self.root@
    }

    pub closed spec fn debounce_view(&self) -> u64 {
        self.debounce_ms
    }

    /// The suggested pause between polls (ms).
    pub fn debounce_ms(&self) -> (r: u64)
        ensures
            r == self.debounce_view(),
    {
        self.debounce_ms
    }

    /// The snapshot the next poll compares against.
    pub closed spec fn last_view(&self) -> Seq<(Seq<char>, Sig)> {
        snap_view(self.last@)
    }

    /// A watcher over `root` whose first snapshot is the walk `walk`.
    pub fn new(root: &str, debounce_ms: u64, walk: Vec<(String, Sig)>) -> (r: Watcher)
        ensures
            r.root_view() == root@,
            r.last_view() == kept(snap_view(walk@)),
            r.debounce_view() == debounce_ms,
    {
        Watcher { root: root.to_string(), last: keep_entries(walk), debounce_ms }
    }

    pub fn root(&self) -> (r: &str)
        ensures
            r@ == self.root_view(),
    {
        self.root.as_str()
    }

    /// Compares the walk `walk` with the last snapshot and reports the
    /// differences, stamped `ts_ms`: created and modified files in walk
    /// order, then removed files; the walk becomes the last snapshot.
    pub fn poll(&mut self, walk: Vec<(String, Sig)>, ts_ms: u64) -> (r: Vec<FileEvent>)
        ensures
            final(self).root_view() == old(self).root_view(),
            final(self).debounce_view() == old(self).debounce_view(),
            final(self).last_view() == kept(snap_view(walk@)),
            r@.map_values(|e: FileEvent| e@) == stamp_events(
                old(self).root_view(),
                diff_spec(old(self).last_view(), kept(snap_view(walk@))),
                ts_ms,
            ),
    {
        let cur = keep_entries(walk);
        let changes = diff_snapshots(&self.last, &cur);
        let ghost d = events_view(changes@);
        let mut out: Vec<FileEvent> = Vec::new();
        let mut i: usize = 0;
        while i < changes.len()
            invariant
                i <= changes.len(),
                d == events_view(changes@),
                out.len() == i,
                forall|q: int| 0 <= q < i ==> (#[trigger] out@[q])@ == (FileEventV {
                    path: path_join(self.root@, d[q].0),
                    kind: d[q].1,
                    ts_ms: ts_ms,
                }),
            decreases changes.len() - i,
        {
            let path = path_join_exec(self.root.as_str(), changes[i].0.as_str());
            out.push(FileEvent { path, kind: changes[i].1, ts_ms });
            i += 1;
        }
        self.last = cur;
        assert(out@.map_values(|e: FileEvent| e@) =~= stamp_events(self.root@, d, ts_ms));
        out
    }
}

/// What a long poll does next.
#[derive(Debug)]
pub enum WaitStep {
    /// Something newer than asked for: answer with this sequence number.
    Ready(u64),
    /// The deadline has passed with nothing new.
    TimedOut,
    /// Wait (at most this many ms) for a change.
    Wait(u64),
}

/// The change counter that long polls wait on: every externally visible
/// change bumps it.
#[derive(Debug)]
pub struct SyncHub {
    seq: u64,
}

impl SyncHub {
    pub closed spec fn seq_view(&self) -> u64 {
        self.seq
    }

    pub fn new() -> (r: SyncHub)
        ensures
            r.seq_view() == 0,
    {
        SyncHub { seq: 0 }
    }

    /// The current sequence number.
    pub fn current(&self) -> (r: u64)
        ensures
            r == self.seq_view(),
    {
        self.seq
    }

    /// Records one more change; returns the new sequence number.
    pub fn bump(&mut self) -> (r: u64)
        requires
            old(self).seq_view() < u64::MAX,
        ensures
            final(self).seq_view() == old(self).seq_view() + 1,
            r == final(self).seq_view(),
    {
        self.seq = self.seq + 1;
        self.seq
    }

    /// One round of a long poll for changes after `since`, at time `now_ms`
    /// with the deadline `deadline_ms`: answer when the counter has moved
    /// past `since`, give up at the deadline, else wait until it.
    pub fn wait_step(&self, since: u64, now_ms: u64, deadline_ms: u64) -> (r: WaitStep)
        ensures
            self.seq_view() > since ==> r == WaitStep::Ready(self.seq_view()),
            self.seq_view() <= since && now_ms >= deadline_ms ==> r == WaitStep::TimedOut,
            self.seq_view() <= since && now_ms < deadline_ms ==> r == WaitStep::Wait((deadline_ms - now_ms) as u64),
    {
        if self.seq > since {
            WaitStep::Ready(self.seq)
        } else if now_ms >= deadline_ms {
            WaitStep::TimedOut
        } else {
            WaitStep::Wait(deadline_ms - now_ms)
        }
    }
}

pub open spec fn unique_paths(s: Seq<(Seq<char>, Sig)>) -> bool {
    forall|i: int, j: int| 0 <= i < j < s.len() ==> #[trigger] s[i].0 != #[trigger] s[j].0
}

proof fn lemma_snap_get_at(s: Seq<(Seq<char>, Sig)>, i: int)
    requires
        unique_paths(s),
        0 <= i < s.len(),
    ensures
        snap_get(s, s[i].0) == Some(s[i].1),
    decreases s.len(),
{
    if i > 0 {
        assert(s[0].0 != s[i].0);
        let t = s.drop_first();
        assert(unique_paths(t)) by {
            assert forall|a: int, b: int| 0 <= a < b < t.len() implies #[trigger] t[a].0 != #[trigger] t[b].0 by {
                assert(t[a] == s[a + 1] && t[b] == s[b + 1]);
            }
        }
        assert(t[i - 1] == s[i]);
        lemma_snap_get_at(t, i - 1);
    }
}

/// Polling a tree that has not changed since the last snapshot reports
/// nothing (snapshots hold each path once).
pub proof fn law_unchanged_tree_no_events(s: Seq<(Seq<char>, Sig)>)
    requires
        unique_paths(s),
    ensures
        diff_spec(s, s) == Seq::<(Seq<char>, EventKind)>::empty(),
{
    assert forall|k: int| 0 <= k <= s.len() implies #[trigger] changed_upto(s, s, k) == Seq::<(Seq<char>, EventKind)>::empty() by {
        lemma_changed_none(s, k);
    }
    assert forall|k: int| 0 <= k <= s.len() implies #[trigger] removed_upto(s, s, k) == Seq::<(Seq<char>, EventKind)>::empty() by {
        lemma_removed_none(s, k);
    }
    assert(diff_spec(s, s) =~= Seq::<(Seq<char>, EventKind)>::empty());
}

proof fn lemma_changed_none(s: Seq<(Seq<char>, Sig)>, k: int)
    requires
        unique_paths(s),
        0 <= k <= s.len(),
    ensures
        changed_upto(s, s, k) == Seq::<(Seq<char>, EventKind)>::empty(),
    decreases k,
{
    if k > 0 {
        lemma_changed_none(s, k - 1);
        lemma_snap_get_at(s, k - 1);
    }
}

proof fn lemma_removed_none(s: Seq<(Seq<char>, Sig)>, k: int)
    requires
        unique_paths(s),
        0 <= k <= s.len(),
    ensures
        removed_upto(s, s, k) == Seq::<(Seq<char>, EventKind)>::empty(),
    decreases k,
{
    if k > 0 {
        lemma_removed_none(s, k - 1);
        lemma_snap_get_at(s, k - 1);
    }
}

} // verus!

verus! {

/// The event an entry of the new snapshot gives rise to, if any.
pub open spec fn change_of(last: Seq<(Seq<char>, Sig)>, entry: (Seq<char>, Sig)) -> Option<EventKind> {
    match snap_get(last, entry.0) {
        None => Some(EventKind::Created),
        Some(old) => if old != entry.1 {
            Some(EventKind::Modified)
        } else {
            None
        },
    }
}

/// `e` is the event of one of the first `upto` entries of the new snapshot.
pub open spec fn from_new(last: Seq<(Seq<char>, Sig)>, cur: Seq<(Seq<char>, Sig)>, upto: int, e: (Seq<char>, EventKind)) -> bool {
    exists|j: int| 0 <= j < upto && (#[trigger] change_of(last, cur[j])) is Some && e == (cur[j].0, change_of(last, cur[j])->0)
}

/// `e` reports one of the first `upto` entries of the old snapshot gone.
pub open spec fn from_old(last: Seq<(Seq<char>, Sig)>, cur: Seq<(Seq<char>, Sig)>, upto: int, e: (Seq<char>, EventKind)) -> bool {
    exists|j: int| 0 <= j < upto && snap_get(cur, (#[trigger] last[j]).0) is None && e == (last[j].0, EventKind::Removed)
}

proof fn lemma_changed(last: Seq<(Seq<char>, Sig)>, cur: Seq<(Seq<char>, Sig)>, upto: int)
    requires
        unique_paths(cur),
        0 <= upto <= cur.len(),
    ensures
        forall|a: int|
            0 <= a < changed_upto(last, cur, upto).len() ==> from_new(last, cur, upto, #[trigger] changed_upto(last, cur, upto)[a]),
        forall|a: int, b: int|
            0 <= a < b < changed_upto(last, cur, upto).len() ==> (#[trigger] changed_upto(last, cur, upto)[a]).0 != (
            #[trigger] changed_upto(last, cur, upto)[b]).0,
        forall|j: int|
            0 <= j < upto && (#[trigger] change_of(last, cur[j])) is Some ==> changed_upto(last, cur, upto).contains(
                (cur[j].0, change_of(last, cur[j])->0),
            ),
    decreases upto,
{
    if upto > 0 {
        lemma_changed(last, cur, upto - 1);
        let prev = changed_upto(last, cur, upto - 1);
        let c = changed_upto(last, cur, upto);
        let e = cur[upto - 1];
        assert(change_of(last, e) is Some ==> c == prev.push((e.0, change_of(last, e)->0)));
        assert(change_of(last, e) is None ==> c == prev);
        assert forall|a: int| 0 <= a < c.len() implies from_new(last, cur, upto, #[trigger] c[a]) by {
            if a < prev.len() {
                assert(c[a] == prev[a]);
                assert(from_new(last, cur, upto - 1, prev[a]));
                let j = choose|j: int|
                    0 <= j < upto - 1 && (#[trigger] change_of(last, cur[j])) is Some && prev[a] == (
                        cur[j].0,
                        change_of(last, cur[j])->0,
                    );
                assert(change_of(last, cur[j]) is Some);
            } else {
                assert(change_of(last, cur[upto - 1]) is Some);
            }
        }
        assert forall|a: int, b: int| 0 <= a < b < c.len() implies (#[trigger] c[a]).0 != (#[trigger] c[b]).0 by {
            assert(c[a] == prev[a]);
            if b < prev.len() {
                assert(c[b] == prev[b]);
            } else {
                assert(from_new(last, cur, upto - 1, prev[a]));
                let j = choose|j: int|
                    0 <= j < upto - 1 && (#[trigger] change_of(last, cur[j])) is Some && prev[a] == (
                        cur[j].0,
                        change_of(last, cur[j])->0,
                    );
                assert(cur[j].0 != cur[upto - 1].0);
            }
        }
        assert forall|j: int| 0 <= j < upto && (#[trigger] change_of(last, cur[j])) is Some implies c.contains(
            (cur[j].0, change_of(last, cur[j])->0),
        ) by {
            if j < upto - 1 {
                let k = choose|k: int| 0 <= k < prev.len() && prev[k] == (cur[j].0, change_of(last, cur[j])->0);
                assert(c[k] == prev[k]);
            } else {
                assert(c[prev.len() as int] == (cur[j].0, change_of(last, cur[j])->0));
            }
        }
    }
}

proof fn lemma_removed(last: Seq<(Seq<char>, Sig)>, cur: Seq<(Seq<char>, Sig)>, upto: int)
    requires
        unique_paths(last),
        0 <= upto <= last.len(),
    ensures
        forall|a: int|
            0 <= a < removed_upto(last, cur, upto).len() ==> from_old(last, cur, upto, #[trigger] removed_upto(last, cur, upto)[a]),
        forall|a: int, b: int|
            0 <= a < b < removed_upto(last, cur, upto).len() ==> (#[trigger] removed_upto(last, cur, upto)[a]).0 != (
            #[trigger] removed_upto(last, cur, upto)[b]).0,
        forall|j: int|
            0 <= j < upto && snap_get(cur, (#[trigger] last[j]).0) is None ==> removed_upto(last, cur, upto).contains(
                (last[j].0, EventKind::Removed),
            ),
    decreases upto,
{
    if upto > 0 {
        lemma_removed(last, cur, upto - 1);
        let prev = removed_upto(last, cur, upto - 1);
        let r = removed_upto(last, cur, upto);
        let gone = snap_get(cur, last[upto - 1].0) is None;
        assert(gone ==> r == prev.push((last[upto - 1].0, EventKind::Removed)));
        assert(!gone ==> r == prev);
        assert forall|a: int| 0 <= a < r.len() implies from_old(last, cur, upto, #[trigger] r[a]) by {
            if a < prev.len() {
                assert(r[a] == prev[a]);
                assert(from_old(last, cur, upto - 1, prev[a]));
                let j = choose|j: int|
                    0 <= j < upto - 1 && snap_get(cur, (#[trigger] last[j]).0) is None && prev[a] == (
                        last[j].0,
                        EventKind::Removed,
                    );
                assert(snap_get(cur, last[j].0) is None);
            } else {
                assert(snap_get(cur, last[upto - 1].0) is None);
            }
        }
        assert forall|a: int, b: int| 0 <= a < b < r.len() implies (#[trigger] r[a]).0 != (#[trigger] r[b]).0 by {
            assert(r[a] == prev[a]);
            if b < prev.len() {
                assert(r[b] == prev[b]);
            } else {
                assert(from_old(last, cur, upto - 1, prev[a]));
                let j = choose|j: int|
                    0 <= j < upto - 1 && snap_get(cur, (#[trigger] last[j]).0) is None && prev[a] == (
                        last[j].0,
                        EventKind::Removed,
                    );
                assert(last[j].0 != last[upto - 1].0);
            }
        }
        assert forall|j: int| 0 <= j < upto && snap_get(cur, (#[trigger] last[j]).0) is None implies r.contains(
            (last[j].0, EventKind::Removed),
        ) by {
            if j < upto - 1 {
                let k = choose|k: int| 0 <= k < prev.len() && prev[k] == (last[j].0, EventKind::Removed);
                assert(r[k] == prev[k]);
            } else {
                assert(r[prev.len() as int] == (last[j].0, EventKind::Removed));
            }
        }
    }
}

/// Polling reports each changed path exactly once: between two snapshots
/// that hold each path once, no path is reported twice; every path that is
/// new or whose signature changed is reported as created or modified, and
/// every path that is gone as removed; and nothing else is reported.
pub proof fn law_one_event_per_path(last: Seq<(Seq<char>, Sig)>, cur: Seq<(Seq<char>, Sig)>)
    requires
        unique_paths(last),
        unique_paths(cur),
    ensures
        forall|a: int, b: int|
            0 <= a < b < diff_spec(last, cur).len() ==> (#[trigger] diff_spec(last, cur)[a]).0 != (
            #[trigger] diff_spec(last, cur)[b]).0,
        forall|i: int|
            0 <= i < cur.len() && (#[trigger] change_of(last, cur[i])) is Some ==> diff_spec(last, cur).contains(
                (cur[i].0, change_of(last, cur[i])->0),
            ),
        forall|i: int|
            0 <= i < last.len() && snap_get(cur, (#[trigger] last[i]).0) is None ==> diff_spec(last, cur).contains(
                (last[i].0, EventKind::Removed),
            ),
        forall|a: int|
            0 <= a < diff_spec(last, cur).len() ==> {
                let (p, k) = #[trigger] diff_spec(last, cur)[a];
                ||| k == EventKind::Removed && snap_get(cur, p) is None && snap_get(last, p) is Some
                ||| snap_get(cur, p) matches Some(s) && change_of(last, (p, s)) == Some(k)
            },
{
    let c = changed_upto(last, cur, cur.len() as int);
    let r = removed_upto(last, cur, last.len() as int);
    let d = diff_spec(last, cur);
    lemma_changed(last, cur, cur.len() as int);
    lemma_removed(last, cur, last.len() as int);
    assert(d == c + r);
    assert forall|a: int| 0 <= a < d.len() implies {
        let (p, k) = #[trigger] d[a];
        ||| k == EventKind::Removed && snap_get(cur, p) is None && snap_get(last, p) is Some
        ||| snap_get(cur, p) matches Some(s) && change_of(last, (p, s)) == Some(k)
    } by {
        if a < c.len() {
            assert(d[a] == c[a]);
            assert(from_new(last, cur, cur.len() as int, c[a]));
            let j = choose|j: int|
                0 <= j < cur.len() && (#[trigger] change_of(last, cur[j])) is Some && c[a] == (
                    cur[j].0,
                    change_of(last, cur[j])->0,
                );
            lemma_snap_get_at(cur, j);
            assert(cur[j] == (cur[j].0, cur[j].1));
        } else {
            assert(d[a] == r[a - c.len()]);
            assert(from_old(last, cur, last.len() as int, r[a - c.len()]));
            let j = choose|j: int|
                0 <= j < last.len() && snap_get(cur, (#[trigger] last[j]).0) is None && r[a - c.len()] == (
                    last[j].0,
                    EventKind::Removed,
                );
            lemma_snap_get_at(last, j);
        }
    }
    assert forall|a: int, b: int| 0 <= a < b < d.len() implies (#[trigger] d[a]).0 != (#[trigger] d[b]).0 by {
        if b < c.len() {
            assert(d[a] == c[a] && d[b] == c[b]);
        } else if a >= c.len() {
            assert(d[a] == r[a - c.len()] && d[b] == r[b - c.len()]);
        } else {
            assert(d[a] == c[a] && d[b] == r[b - c.len()]);
            assert(from_new(last, cur, cur.len() as int, c[a]));
            assert(from_old(last, cur, last.len() as int, r[b - c.len()]));
            let j = choose|j: int|
                0 <= j < cur.len() && (#[trigger] change_of(last, cur[j])) is Some && c[a] == (
                    cur[j].0,
                    change_of(last, cur[j])->0,
                );
            lemma_snap_get_at(cur, j);
            let m = choose|m: int|
                0 <= m < last.len() && snap_get(cur, (#[trigger] last[m]).0) is None && r[b - c.len()] == (
                    last[m].0,
                    EventKind::Removed,
                );
        }
    }
    assert forall|i: int| 0 <= i < cur.len() && (#[trigger] change_of(last, cur[i])) is Some implies d.contains(
        (cur[i].0, change_of(last, cur[i])->0),
    ) by {
        let k = choose|k: int| 0 <= k < c.len() && c[k] == (cur[i].0, change_of(last, cur[i])->0);
        assert(d[k] == c[k]);
    }
    assert forall|i: int| 0 <= i < last.len() && snap_get(cur, (#[trigger] last[i]).0) is None implies d.contains(
        (last[i].0, EventKind::Removed),
    ) by {
        let k = choose|k: int| 0 <= k < r.len() && r[k] == (last[i].0, EventKind::Removed);
        assert(d[c.len() + k] == r[k]);
    }
}

} // verus!
