//! Notes: messages between people and agents, hung on anchors. A note whose
//! anchor cannot be relocated becomes an orphan and is kept; a note is only
//! closed with the ops that closed it.

use vstd::prelude::*;
use crate::json::str_eq;
use crate::text::{numbered, numbered_string, dec_pad, all_digits, digits_val, is_digit, parse_u64, parse_u64_spec};
use vstd::string::StrSliceExecFns;
use crate::model::{Project, ProjectV, opt_str, copy_opt_str};
use crate::anchor::{Anchor, AnchorV, AnchorKind, AnchorState, relocate, relocate_spec};
use crate::oplog::{strings_view, copy_strings};

verus! {

#[derive(Clone, Copy, PartialEq, Eq, Structural, Debug)]
pub enum NoteAuthor {
    User,
    Agent,
}

#[derive(Clone, Copy, PartialEq, Eq, Structural, Debug)]
pub enum NoteState {
    Open,
    Resolved,
    Rejected,
    Orphan,
}

#[derive(Debug)]
pub struct ResolvedBy {
    pub reply: String,
    pub op_ids: Vec<String>,
}

#[derive(Debug)]
pub struct Note {
    pub id: String,
    pub anchor: Anchor,
    pub body: String,
    pub author: NoteAuthor,
    pub state: NoteState,
    pub created_at: String,
    pub relocated: Option<bool>,
    pub orphan_reason: Option<String>,
    pub resolved_by: Option<ResolvedBy>,
    pub rejected_reason: Option<String>,
    pub tags: Option<Vec<String>>,
}

pub struct NoteV {
    pub id: Seq<char>,
    pub anchor: AnchorV,
    pub body: Seq<char>,
    pub author: NoteAuthor,
    pub state: NoteState,
    pub created_at: Seq<char>,
    pub relocated: Option<bool>,
    pub orphan_reason: Option<Seq<char>>,
    pub resolved_by: Option<(Seq<char>, Seq<Seq<char>>)>,
    pub rejected_reason: Option<Seq<char>>,
    pub tags: Option<Seq<Seq<char>>>,
}

impl View for Note {
    type V = NoteV;
    open spec fn view(&self) -> NoteV {
        NoteV {
            id: self.id@,
            anchor: self.anchor@,
            body: self.body@,
            author: self.author,
            state: self.state,
            created_at: self.created_at@,
            relocated: self.relocated,
            orphan_reason: opt_str(self.orphan_reason),
            resolved_by: match self.resolved_by {
                Some(r) => Some((r.reply@, strings_view(r.op_ids@))),
                None => None,
            },
            rejected_reason: opt_str(self.rejected_reason),
            tags: match self.tags {
                Some(t) => Some(strings_view(t@)),
                None => None,
            },
        }
    }
}

impl Note {
    pub fn duplicate(&self) -> (r: Note)
        ensures
            r@ == self@,
    {
        Note {
            id: self.id.clone(),
            anchor: self.anchor.duplicate(),
            body: self.body.clone(),
            author: self.author,
            state: self.state,
            created_at: self.created_at.clone(),
            relocated: self.relocated,
            orphan_reason: copy_opt_str(&self.orphan_reason),
            resolved_by: match &self.resolved_by {
                Some(r) => Some(ResolvedBy { reply: r.reply.clone(), op_ids: copy_strings(&r.op_ids) }),
                None => None,
            },
            rejected_reason: copy_opt_str(&self.rejected_reason),
            tags: match &self.tags {
                Some(t) => Some(copy_strings(t)),
                None => None,
            },
        }
    }
}

#[derive(Debug)]
pub enum NoteReject {
    UnknownNote(String),
    AlreadyResolved(String),
    EmptyReply(String),
}

pub enum NoteRejectV {
    UnknownNote(Seq<char>),
    AlreadyResolved(Seq<char>),
    EmptyReply(Seq<char>),
}

impl View for NoteReject {
    type V = NoteRejectV;
    open spec fn view(&self) -> NoteRejectV {
        match self {
            NoteReject::UnknownNote(s) => NoteRejectV::UnknownNote(s@),
            NoteReject::AlreadyResolved(s) => NoteRejectV::AlreadyResolved(s@),
            NoteReject::EmptyReply(s) => NoteRejectV::EmptyReply(s@),
        }
    }
}

pub open spec fn notes_view(v: Seq<Note>) -> Seq<NoteV> {
    v.map_values(|n: Note| n@)
}

/// The notes of a project, in the order they were added.
#[derive(Debug)]
pub struct NotesStore {
    notes: Vec<Note>,
}

impl View for NotesStore {
    type V = Seq<NoteV>;
    closed spec fn view(&self) -> Seq<NoteV> {
        notes_view(self.notes@)
    }
}

/// The Unicode white space characters (what `char::is_whitespace` accepts).
pub open spec fn is_ws(c: char) -> bool {
    ||| ('\t' <= c && c <= '\r')
    ||| c == ' '
    ||| c == '\u{85}'
    ||| c == '\u{a0}'
    ||| c == '\u{1680}'
    ||| ('\u{2000}' <= c && c <= '\u{200a}')
    ||| c == '\u{2028}'
    ||| c == '\u{2029}'
    ||| c == '\u{202f}'
    ||| c == '\u{205f}'
    ||| c == '\u{3000}'
}

pub open spec fn blank(s: Seq<char>) -> bool {
    forall|i: int| 0 <= i < s.len() ==> is_ws(#[trigger] s[i])
}

pub fn is_ws_exec(c: char) -> (r: bool)
    ensures
        r == is_ws(c),
{
    ('\t' <= c && c <= '\r') || c == ' ' || c == '\u{85}' || c == '\u{a0}' || c == '\u{1680}' || ('\u{2000}' <= c
        && c <= '\u{200a}') || c == '\u{2028}' || c == '\u{2029}' || c == '\u{202f}' || c == '\u{205f}' || c
        == '\u{3000}'
}

fn is_blank(s: &str) -> (r: bool)
    ensures
        r == blank(s@),
{
    let n = s.unicode_len();
    let mut i: usize = 0;
    while i < n
        invariant
            n == s@.len(),
            i <= n,
            forall|k: int| 0 <= k < i ==> is_ws(#[trigger] s@[k]),
        decreases n - i,
    {
        if !is_ws_exec(s.get_char(i)) {
            return false;
        }
        i += 1;
    }
    true
}

pub open spec fn note_id_taken(ns: Seq<NoteV>, id: Seq<char>) -> bool {
    exists|i: int| 0 <= i < ns.len() && #[trigger] ns[i].id == id
}

/// The number of a note id `n-<digits>`, if it is one.
pub open spec fn note_num(id: Seq<char>) -> Option<nat> {
    if id.len() > 2 && id[0] == 'n' && id[1] == '-' && all_digits(id.skip(2)) {
        Some(digits_val(id.skip(2)))
    } else {
        None
    }
}

/// The largest note number in the store (0 where there is none).
pub open spec fn max_note_num(ns: Seq<NoteV>) -> nat
    decreases ns.len(),
{
    if ns.len() == 0 {
        0
    } else {
        let m = max_note_num(ns.drop_last());
        match note_num(ns.last().id) {
            Some(v) => if v > m {
                v
            } else {
                m
            },
            None => m,
        }
    }
}

/// Every note number is below the largest 64-bit number, so the next one
/// can be counted.
pub open spec fn note_nums_fit(ns: Seq<NoteV>) -> bool {
    forall|i: int| 0 <= i < ns.len() ==> (note_num(#[trigger] ns[i].id) matches Some(v) ==> v < u64::MAX)
}

/// The id the next note gets: `n-<nnnn>` numbered one above every note
/// number in the store (so ids are never reused).
pub open spec fn next_note_id(ns: Seq<NoteV>) -> Seq<char> {
    numbered("n-"@, max_note_num(ns) + 1, 4)
}

proof fn lemma_max_note_num(ns: Seq<NoteV>)
    ensures
        forall|i: int| 0 <= i < ns.len() ==> (note_num(#[trigger] ns[i].id) matches Some(v) ==> v <= max_note_num(ns)),
        ns.len() > 0 && max_note_num(ns) > 0 ==> exists|i: int| 0 <= i < ns.len() && note_num(#[trigger] ns[i].id) == Some(max_note_num(ns)),
    decreases ns.len(),
{
    if ns.len() > 0 {
        let p = ns.drop_last();
        lemma_max_note_num(p);
        assert forall|i: int| 0 <= i < ns.len() implies (note_num(#[trigger] ns[i].id) matches Some(v) ==> v <= max_note_num(ns)) by {
            if i < p.len() {
                assert(ns[i] == p[i]);
            }
        }
        if max_note_num(ns) > 0 {
            if max_note_num(ns) == max_note_num(p) && !(note_num(ns.last().id) == Some(max_note_num(ns))) {
                let i = choose|i: int| 0 <= i < p.len() && note_num(#[trigger] p[i].id) == Some(max_note_num(p));
                assert(ns[i] == p[i]);
            } else {
                assert(ns[ns.len() - 1] == ns.last());
            }
        }
    }
}

proof fn lemma_note_num_numbered(k: nat)
    ensures
        note_num(numbered("n-"@, k, 4)) == Some(k),
{
    reveal_strlit("n-");
    crate::text::lemma_dec_pad_val(k, 4);
    let id = numbered("n-"@, k, 4);
    assert(id.skip(2) =~= dec_pad(k, 4));
}

/// The next note id is free.
proof fn lemma_next_note_id_free(ns: Seq<NoteV>)
    ensures
        !note_id_taken(ns, next_note_id(ns)),
{
    lemma_max_note_num(ns);
    lemma_note_num_numbered(max_note_num(ns) + 1);
    if note_id_taken(ns, next_note_id(ns)) {
        let i = choose|i: int| 0 <= i < ns.len() && #[trigger] ns[i].id == next_note_id(ns);
        assert(note_num(ns[i].id) == Some((max_note_num(ns) + 1) as nat));
    }
}

/// Index of the first note with id `id`, scanning from `i`.
pub open spec fn note_index_from(ns: Seq<NoteV>, id: Seq<char>, i: int) -> Option<int>
    decreases ns.len() - i,
{
    if i < 0 || i >= ns.len() {
        None
    } else if ns[i].id == id {
        Some(i)
    } else {
        note_index_from(ns, id, i + 1)
    }
}

/// A note after relocating its anchor, and whether it moved or was
/// orphaned. Only open notes with element anchors take part.
pub open spec fn relocated_note(n: NoteV, p: ProjectV, near: u64) -> (NoteV, bool, bool) {
    if n.state != NoteState::Open || n.anchor.kind == AnchorKind::Time || n.anchor.kind == AnchorKind::Word {
        (n, false, false)
    } else {
        let r = relocate_spec(p, n.anchor, near);
        match r.state {
            AnchorState::Resolved => (n, false, false),
            AnchorState::Relocated => if n.anchor != r.anchor {
                (NoteV { anchor: r.anchor, relocated: Some(true), ..n }, true, false)
            } else {
                (n, false, false)
            },
            AnchorState::Orphan => (NoteV { state: NoteState::Orphan, orphan_reason: r.orphan_reason, ..n }, false, true),
        }
    }
}

/// Notes after relocation, and the numbers moved and orphaned.
pub open spec fn relocate_notes(ns: Seq<NoteV>, p: ProjectV, near: u64) -> (Seq<NoteV>, nat, nat)
    decreases ns.len(),
{
    if ns.len() == 0 {
        (Seq::empty(), 0, 0)
    } else {
        let (rest, m, o) = relocate_notes(ns.drop_last(), p, near);
        let (n2, mv, or) = relocated_note(ns.last(), p, near);
        (rest.push(n2), m + if mv { 1nat } else { 0nat }, o + if or { 1nat } else { 0nat })
    }
}

pub open spec fn note_keeps(n: NoteV, state: Option<NoteState>, author: Option<NoteAuthor>) -> bool {
    &&& state matches Some(s) ==> n.state == s
    &&& author matches Some(a) ==> n.author == a
}

fn anchor_eq(a: &Anchor, b: &Anchor) -> (r: bool)
    ensures
        r == (a@ == b@),
{
    let refs = match (&a.ref_, &b.ref_) {
        (Some(x), Some(y)) => str_eq(x.as_str(), y.as_str()),
        (None, None) => true,
        _ => false,
    };
    a.kind == b.kind && refs && a.t_ms == b.t_ms && a.span == b.span
}

fn strings_eq(a: &Vec<String>, b: &Vec<String>) -> (r: bool)
    ensures
        r == (strings_view(a@) == strings_view(b@)),
{
    if a.len() != b.len() {
        assert(strings_view(a@).len() != strings_view(b@).len());
        return false;
    }
    let mut i: usize = 0;
    while i < a.len()
        invariant
            i <= a.len(),
            a.len() == b.len(),
            forall|k: int| 0 <= k < i ==> a@[k]@ == b@[k]@,
        decreases a.len() - i,
    {
        if !str_eq(a[i].as_str(), b[i].as_str()) {
            assert(strings_view(a@)[i as int] != strings_view(b@)[i as int]);
            return false;
        }
        i += 1;
    }
    assert(strings_view(a@) =~= strings_view(b@));
    true
}

fn note_num_of(id: &str) -> (r: Option<u64>)
    requires
        note_num(id@) matches Some(v) ==> v < u64::MAX,
    ensures
        match r {
            Some(v) => note_num(id@) == Some(v as nat) && v < u64::MAX,
            None => note_num(id@) is None,
        },
{
    let n = id.unicode_len();
    if n <= 2 {
        return None;
    }
    if id.get_char(0) != 'n' || id.get_char(1) != '-' {
        return None;
    }
    let rest = id.substring_char(2, n);
    assert(rest@ =~= id@.skip(2));
    if rest.get_char(0) == '+' {
        assert(!is_digit(rest@[0]));
        return None;
    }
    let r = parse_u64(rest);
    proof {
        if !all_digits(rest@) {
            assert(parse_u64_spec(rest@) is None);
        }
    }
    r
}

fn note_num_fits(id: &str) -> (r: bool)
    ensures
        r == (note_num(id@) matches Some(v) ==> v < u64::MAX),
{
    let n = id.unicode_len();
    if n <= 2 || id.get_char(0) != 'n' || id.get_char(1) != '-' {
        return true;
    }
    let rest = id.substring_char(2, n);
    assert(rest@ =~= id@.skip(2));
    let m = rest.unicode_len();
    let mut i: usize = 0;
    while i < m
        invariant
            i <= m,
            m == rest@.len(),
            rest@ == id@.skip(2),
            id@.len() > 2 && id@[0] == 'n' && id@[1] == '-',
            forall|k: int| 0 <= k < i ==> is_digit(#[trigger] rest@[k]),
        decreases m - i,
    {
        let c = rest.get_char(i);
        if !('0' <= c && c <= '9') {
            assert(!is_digit(rest@[i as int]));
            return true;
        }
        i += 1;
    }
    assert(all_digits(rest@));
    assert(is_digit(rest@[0]));
    assert(rest@[0] != '+');
    match parse_u64(rest) {
        Some(v) => v < u64::MAX,
        None => false,
    }
}

impl NotesStore {
    pub fn new() -> (r: NotesStore)
        ensures
            r@.len() == 0,
    {
        let r = NotesStore { notes: Vec::new() };
        assert(notes_view(r.notes@) =~= Seq::<NoteV>::empty());
        r
    }

    /// A store holding these notes, in this order.
    pub fn from_notes(notes: Vec<Note>) -> (r: NotesStore)
        ensures
            r@ == notes_view(notes@),
    {
        NotesStore { notes }
    }

    pub fn notes(&self) -> (r: &Vec<Note>)
        ensures
            notes_view(r@) == self@,
    {
        &self.notes
    }

    pub fn is_empty(&self) -> (r: bool)
        ensures
            r == (self@.len() == 0),
    {
        self.notes.len() == 0
    }

    /// Whether every note number is below the largest 64-bit number, so
    /// that the next id can be counted.
    pub fn ids_fit(&self) -> (r: bool)
        ensures
            r == note_nums_fit(self@),
    {
        let ghost ns = self@;
        let mut i: usize = 0;
        while i < self.notes.len()
            invariant
                i <= self.notes.len(),
                ns == self@,
                ns.len() == self.notes.len(),
                forall|k: int| 0 <= k < i ==> (note_num(#[trigger] ns[k].id) matches Some(v) ==> v < u64::MAX),
            decreases self.notes.len() - i,
        {
            assert(ns[i as int].id == self.notes@[i as int].id@);
            if !note_num_fits(self.notes[i].id.as_str()) {
                return false;
            }
            i += 1;
        }
        true
    }

    /// The id the next note gets: one above every note number already
    /// in the store, from `n-0001` on.
    pub fn next_id(&self) -> (r: String)
        requires
            note_nums_fit(self@),
        ensures
            r@ == next_note_id(self@),
            !note_id_taken(self@, r@),
    {
        let ghost ns = self@;
        let mut m: u64 = 0;
        let mut i: usize = 0;
        while i < self.notes.len()
            invariant
                i <= self.notes.len(),
                ns == self@,
                ns.len() == self.notes.len(),
                note_nums_fit(ns),
                m as nat == max_note_num(ns.take(i as int)),
                m < u64::MAX,
            decreases self.notes.len() - i,
        {
            assert(ns.take(i + 1).drop_last() =~= ns.take(i as int));
            assert(ns.take(i + 1).last() == ns[i as int]);
            assert(ns[i as int].id == self.notes@[i as int].id@);
            match note_num_of(self.notes[i].id.as_str()) {
                Some(v) => {
                    if v > m {
                        m = v;
                    }
                },
                None => {},
            }
            i += 1;
        }
        assert(ns.take(self.notes.len() as int) =~= ns);
        proof {
            lemma_next_note_id_free(ns);
        }
        numbered_string("n-", m + 1, 4)
    }

    /// Adds an open note (a user's request or an agent's question).
    pub fn add(&mut self, anchor: Anchor, body: String, author: NoteAuthor, tags: Vec<String>) -> (r: Note)
        requires
            note_nums_fit(old(self)@),
        ensures
            final(self)@ == old(self)@.push(r@),
            r@.id == next_note_id(old(self)@),
            r@.anchor == anchor@,
            r@.body == body@,
            r@.author == author,
            r@.state == NoteState::Open,
            r@.relocated is None,
            r@.orphan_reason is None,
            r@.resolved_by is None,
            r@.rejected_reason is None,
            r@.tags == (if tags@.len() == 0 { None } else { Some(strings_view(tags@)) }),
    {
        let id = self.next_id();
        let tags = if tags.len() == 0 {
            None
        } else {
            Some(tags)
        };
        let note = Note {
            id,
            anchor,
            body,
            author,
            state: NoteState::Open,
            created_at: crate::timeutil::now_rfc3339(),
            relocated: None,
            orphan_reason: None,
            resolved_by: None,
            rejected_reason: None,
            tags,
        };
        let copy = note.duplicate();
        let ghost prev = self.notes@;
        self.notes.push(note);
        assert(notes_view(self.notes@) =~= notes_view(prev).push(copy@));
        copy
    }

    fn find_index(&self, id: &str) -> (r: Option<usize>)
        ensures
            match r {
                Some(i) => note_index_from(self@, id@, 0) == Some(i as int) && i < self@.len(),
                None => note_index_from(self@, id@, 0) is None,
            },
    {
        let ghost ns = self@;
        let mut i: usize = 0;
        while i < self.notes.len()
            invariant
                i <= self.notes.len(),
                ns == self@,
                ns.len() == self.notes.len(),
                note_index_from(ns, id@, 0) == note_index_from(ns, id@, i as int),
            decreases self.notes.len() - i,
        {
            assert(ns[i as int] == self.notes@[i as int]@);
            if str_eq(self.notes[i].id.as_str(), id) {
                return Some(i);
            }
            i += 1;
        }
        None
    }

    /// Closes a note with a reply bound to the ops that closed it. The same
    /// reply again is a no-op; another reply on a closed note is refused.
    pub fn resolve(&mut self, id: &str, reply: String, op_ids: Vec<String>) -> (r: Result<Note, NoteReject>)
        ensures
            blank(reply@) ==> (r matches Err(e) && e@ == NoteRejectV::EmptyReply(id@) && final(self)@ == old(self)@),
            !blank(reply@) && op_ids@.len() == 0 ==> (r matches Err(e) && e@ == NoteRejectV::EmptyReply(
                id@ + ":结案必须至少绑定一个 Op"@,
            ) && final(self)@ == old(self)@),
            !blank(reply@) && op_ids@.len() > 0 ==> match note_index_from(old(self)@, id@, 0) {
                None => r matches Err(e) && e@ == NoteRejectV::UnknownNote(id@) && final(self)@ == old(self)@,
                Some(k) => {
                    let n = old(self)@[k];
                    if n.state == NoteState::Resolved {
                        if n.resolved_by == Some((reply@, strings_view(op_ids@))) {
                            r matches Ok(x) && x@ == n && final(self)@ == old(self)@
                        } else {
                            r matches Err(e) && e@ == NoteRejectV::AlreadyResolved(id@) && final(self)@ == old(self)@
                        }
                    } else {
                        let n2 = NoteV {
                            state: NoteState::Resolved,
                            orphan_reason: None,
                            resolved_by: Some((reply@, strings_view(op_ids@))),
                            ..n
                        };
                        r matches Ok(x) && x@ == n2 && final(self)@ == old(self)@.update(k, n2)
                    }
                },
            },
    {
        if is_blank(reply.as_str()) {
            return Err(NoteReject::EmptyReply(id.to_string()));
        }
        if op_ids.len() == 0 {
            let mut m = id.to_string();
            m.append(":结案必须至少绑定一个 Op");
            return Err(NoteReject::EmptyReply(m));
        }
        let k = match self.find_index(id) {
            Some(k) => k,
            None => {
                return Err(NoteReject::UnknownNote(id.to_string()));
            },
        };
        let n = &self.notes[k];
        if n.state == NoteState::Resolved {
            let same = match &n.resolved_by {
                Some(rb) => str_eq(rb.reply.as_str(), reply.as_str()) && strings_eq(&rb.op_ids, &op_ids),
                None => false,
            };
            if same {
                return Ok(n.duplicate());
            }
            return Err(NoteReject::AlreadyResolved(id.to_string()));
        }
        let mut n2 = n.duplicate();
        n2.state = NoteState::Resolved;
        n2.orphan_reason = None;
        n2.resolved_by = Some(ResolvedBy { reply, op_ids });
        let copy = n2.duplicate();
        let ghost prev = self.notes@;
        self.notes.set(k, n2);
        assert(notes_view(self.notes@) =~= notes_view(prev).update(k as int, copy@));
        Ok(copy)
    }

    /// Rejects a note with a reason.
    pub fn reject(&mut self, id: &str, reason: String) -> (r: Result<Note, NoteReject>)
        ensures
            match note_index_from(old(self)@, id@, 0) {
                None => r matches Err(e) && e@ == NoteRejectV::UnknownNote(id@) && final(self)@ == old(self)@,
                Some(k) => {
                    let n2 = NoteV { state: NoteState::Rejected, rejected_reason: Some(reason@), ..old(self)@[k] };
                    r matches Ok(x) && x@ == n2 && final(self)@ == old(self)@.update(k, n2)
                },
            },
    {
        let k = match self.find_index(id) {
            Some(k) => k,
            None => {
                return Err(NoteReject::UnknownNote(id.to_string()));
            },
        };
        let mut n2 = self.notes[k].duplicate();
        n2.state = NoteState::Rejected;
        n2.rejected_reason = Some(reason);
        let copy = n2.duplicate();
        let ghost prev = self.notes@;
        self.notes.set(k, n2);
        assert(notes_view(self.notes@) =~= notes_view(prev).update(k as int, copy@));
        Ok(copy)
    }

    /// Relocates the anchors of open notes after a change of the project:
    /// follow, re-hang or orphan. Returns (moved, orphaned). No note is ever
    /// removed.
    pub fn relocate_all(&mut self, project: &Project, nearest_ms: u64) -> (r: (usize, usize))
        ensures
            final(self)@ == relocate_notes(old(self)@, project@, nearest_ms).0,
            r.0 == relocate_notes(old(self)@, project@, nearest_ms).1,
            r.1 == relocate_notes(old(self)@, project@, nearest_ms).2,
    {
        let ghost ns = self@;
        proof {
            lemma_relocate_len(ns, project@, nearest_ms);
            assert(ns.take(0) =~= Seq::<NoteV>::empty());
            assert(ns.skip(0) =~= ns);
        }
        let mut moved: usize = 0;
        let mut orphaned: usize = 0;
        let mut i: usize = 0;
        while i < self.notes.len()
            invariant
                i <= self.notes.len(),
                ns.len() == self.notes.len(),
                relocate_notes(ns, project@, nearest_ms).0.len() == ns.len(),
                notes_view(self.notes@) == relocate_notes(ns.take(i as int), project@, nearest_ms).0 + ns.skip(i as int),
                moved as nat == relocate_notes(ns.take(i as int), project@, nearest_ms).1,
                orphaned as nat == relocate_notes(ns.take(i as int), project@, nearest_ms).2,
                moved <= i,
                orphaned <= i,
            decreases self.notes.len() - i,
        {
            assert(ns.take(i + 1).drop_last() =~= ns.take(i as int));
            let ghost cur = ns[i as int];
            assert(ns.take(i + 1).last() == cur);
            let ghost prefix = relocate_notes(ns.take(i as int), project@, nearest_ms).0;
            assert(prefix.len() == i) by {
                lemma_relocate_len(ns.take(i as int), project@, nearest_ms);
            }
            assert(notes_view(self.notes@)[i as int] == cur);
            let n = &self.notes[i];
            let ghost prev = self.notes@;
            if n.state == NoteState::Open && n.anchor.kind != AnchorKind::Time && n.anchor.kind != AnchorKind::Word {
                let r = relocate(project, &n.anchor, nearest_ms);
                match r.state {
                    AnchorState::Resolved => {},
                    AnchorState::Relocated => {
                        if !anchor_eq(&n.anchor, &r.anchor) {
                            let mut n2 = n.duplicate();
                            n2.anchor = r.anchor;
                            n2.relocated = Some(true);
                            let ghost nv = n2@;
                            self.notes.set(i, n2);
                            assert(notes_view(self.notes@) =~= notes_view(prev).update(i as int, nv));
                            moved += 1;
                        }
                    },
                    AnchorState::Orphan => {
                        let mut n2 = n.duplicate();
                        n2.state = NoteState::Orphan;
                        n2.orphan_reason = r.orphan_reason;
                        let ghost nv = n2@;
                        self.notes.set(i, n2);
                        assert(notes_view(self.notes@) =~= notes_view(prev).update(i as int, nv));
                        orphaned += 1;
                    },
                }
            }
            proof {
                lemma_relocate_len(ns.take(i + 1), project@, nearest_ms);
                assert(notes_view(self.notes@) =~= relocate_notes(ns.take(i + 1), project@, nearest_ms).0 + ns.skip(
                    i + 1,
                ));
            }
            i += 1;
        }
        proof {
            assert(ns.take(i as int) =~= ns);
            assert(ns.skip(i as int) =~= Seq::<NoteV>::empty());
            assert(notes_view(self.notes@) =~= relocate_notes(ns, project@, nearest_ms).0);
        }
        (moved, orphaned)
    }

    /// The orphaned notes, in order (shown, never hidden).
    pub fn orphans(&self) -> (r: Vec<Note>)
        ensures
            notes_view(r@) == self@.filter(|n: NoteV| n.state == NoteState::Orphan),
    {
        let ghost ns = self@;
        let mut out: Vec<Note> = Vec::new();
        let mut i: usize = 0;
        proof {
            reveal(Seq::filter);
            assert(ns.take(0) =~= Seq::<NoteV>::empty());
            assert(notes_view(out@) =~= Seq::<NoteV>::empty());
        }
        while i < self.notes.len()
            invariant
                i <= self.notes.len(),
                ns == self@,
                ns.len() == self.notes.len(),
                notes_view(out@) == ns.take(i as int).filter(|n: NoteV| n.state == NoteState::Orphan),
            decreases self.notes.len() - i,
        {
            proof {
                reveal(Seq::filter);
            }
            assert(ns.take(i + 1).drop_last() =~= ns.take(i as int));
            assert(ns.take(i + 1).last() == self.notes@[i as int]@);
            let ghost prev = out@;
            if self.notes[i].state == NoteState::Orphan {
                let c = self.notes[i].duplicate();
                out.push(c);
                assert(notes_view(out@) =~= notes_view(prev).push(self.notes@[i as int]@));
            }
            i += 1;
        }
        assert(ns.take(i as int) =~= ns);
        out
    }

    /// The notes of a state and/or author, in order.
    pub fn filter(&self, state: Option<NoteState>, author: Option<NoteAuthor>) -> (r: Vec<Note>)
        ensures
            notes_view(r@) == self@.filter(|n: NoteV| note_keeps(n, state, author)),
    {
        let ghost ns = self@;
        let mut out: Vec<Note> = Vec::new();
        let mut i: usize = 0;
        proof {
            reveal(Seq::filter);
            assert(ns.take(0) =~= Seq::<NoteV>::empty());
            assert(notes_view(out@) =~= Seq::<NoteV>::empty());
        }
        while i < self.notes.len()
            invariant
                i <= self.notes.len(),
                ns == self@,
                ns.len() == self.notes.len(),
                notes_view(out@) == ns.take(i as int).filter(|n: NoteV| note_keeps(n, state, author)),
            decreases self.notes.len() - i,
        {
            proof {
                reveal(Seq::filter);
            }
            assert(ns.take(i + 1).drop_last() =~= ns.take(i as int));
            assert(ns.take(i + 1).last() == self.notes@[i as int]@);
            let n = &self.notes[i];
            let keep_state = match state {
                Some(s) => n.state == s,
                None => true,
            };
            let keep_author = match author {
                Some(a) => n.author == a,
                None => true,
            };
            let ghost prev = out@;
            if keep_state && keep_author {
                out.push(n.duplicate());
                assert(notes_view(out@) =~= notes_view(prev).push(self.notes@[i as int]@));
            }
            i += 1;
        }
        assert(ns.take(i as int) =~= ns);
        out
    }

    /// The note with this id.
    pub fn find(&self, id: &str) -> (r: Option<&Note>)
        ensures
            match note_index_from(self@, id@, 0) {
                Some(k) => r matches Some(n) && n@ == self@[k],
                None => r is None,
            },
    {
        match self.find_index(id) {
            Some(k) => Some(&self.notes[k]),
            None => None,
        }
    }

    /// Mutable access to the note with this id.
    pub fn note_mut(&mut self, id: &str) -> (r: Option<&mut Note>)
        ensures
            match note_index_from(old(self)@, id@, 0) {
                Some(k) => r matches Some(n) && n@ == old(self)@[k] && final(self)@ == old(self)@.update(k, final(n)@),
                None => r is None && final(self)@ == old(self)@,
            },
    {
        match self.find_index(id) {
            Some(k) => {
                let n = &mut self.notes[k];
                Some(n)
            },
            None => None,
        }
    }
}

proof fn lemma_relocate_len(ns: Seq<NoteV>, p: ProjectV, near: u64)
    ensures
        relocate_notes(ns, p, near).0.len() == ns.len(),
        relocate_notes(ns, p, near).1 <= ns.len(),
        relocate_notes(ns, p, near).2 <= ns.len(),
    decreases ns.len(),
{
    if ns.len() > 0 {
        lemma_relocate_len(ns.drop_last(), p, near);
    }
}

} // verus!

verus! {

/// Relocation never removes a note: every note keeps its place, id, body
/// and author, and notes that are not open are left exactly as they were.
pub proof fn law_relocation_keeps_every_note(ns: Seq<NoteV>, p: ProjectV, near: u64)
    ensures
        relocate_notes(ns, p, near).0.len() == ns.len(),
        forall|i: int|
            0 <= i < ns.len() ==> {
                let m = #[trigger] relocate_notes(ns, p, near).0[i];
                &&& m.id == ns[i].id
                &&& m.body == ns[i].body
                &&& m.author == ns[i].author
                &&& ns[i].state != NoteState::Open ==> m == ns[i]
            },
    decreases ns.len(),
{
    lemma_relocate_len(ns, p, near);
    if ns.len() > 0 {
        law_relocation_keeps_every_note(ns.drop_last(), p, near);
        let out = relocate_notes(ns, p, near).0;
        let prev = relocate_notes(ns.drop_last(), p, near).0;
        assert forall|i: int| 0 <= i < ns.len() - 1 implies #[trigger] out[i] == prev[i] by {
        }
    }
}

/// How many of the indices below `n` satisfy `f`.
pub open spec fn count_upto(n: int, f: spec_fn(int) -> bool) -> nat
    decreases if n > 0 { n } else { 0 },
{
    if n <= 0 {
        0
    } else {
        count_upto(n - 1, f) + if f(n - 1) { 1nat } else { 0nat }
    }
}

proof fn lemma_count_ext(n: int, f: spec_fn(int) -> bool, g: spec_fn(int) -> bool)
    requires
        forall|i: int| 0 <= i < n ==> #[trigger] f(i) == g(i),
    ensures
        count_upto(n, f) == count_upto(n, g),
    decreases if n > 0 { n } else { 0 },
{
    if n > 0 {
        lemma_count_ext(n - 1, f, g);
    }
}

/// Relocation is counted exactly: the moved number is the number of notes
/// whose anchor changed, the orphaned number the number of open notes that
/// became orphans; and notes anchored to a time or a word are left as they
/// are.
pub proof fn law_relocation_counts(ns: Seq<NoteV>, p: ProjectV, near: u64)
    ensures
        ({
            let (out, moved, orphaned) = relocate_notes(ns, p, near);
            &&& out.len() == ns.len()
            &&& moved == count_upto(ns.len() as int, |i: int| out[i].anchor != ns[i].anchor)
            &&& orphaned == count_upto(
                ns.len() as int,
                |i: int| ns[i].state == NoteState::Open && out[i].state == NoteState::Orphan,
            )
            &&& forall|i: int|
                0 <= i < ns.len() && (ns[i].anchor.kind == AnchorKind::Time || ns[i].anchor.kind == AnchorKind::Word)
                    ==> #[trigger] out[i] == ns[i]
        }),
    decreases ns.len(),
{
    lemma_relocate_len(ns, p, near);
    if ns.len() > 0 {
        let k = ns.len() - 1;
        let pre = ns.drop_last();
        law_relocation_counts(pre, p, near);
        let (out, moved, orphaned) = relocate_notes(ns, p, near);
        let (rest, m0, o0) = relocate_notes(pre, p, near);
        assert(out == rest.push(relocated_note(ns.last(), p, near).0));
        let fm = |i: int| out[i].anchor != ns[i].anchor;
        let gm = |i: int| rest[i].anchor != pre[i].anchor;
        let fo = |i: int| ns[i].state == NoteState::Open && out[i].state == NoteState::Orphan;
        let go = |i: int| pre[i].state == NoteState::Open && rest[i].state == NoteState::Orphan;
        assert forall|i: int| 0 <= i < k implies #[trigger] fm(i) == gm(i) && fo(i) == go(i) by {
            assert(out[i] == rest[i]);
            assert(ns[i] == pre[i]);
        }
        lemma_count_ext(k, fm, gm);
        lemma_count_ext(k, fo, go);
        assert(out[k] == relocated_note(ns[k], p, near).0);
        assert forall|i: int|
            0 <= i < ns.len() && (ns[i].anchor.kind == AnchorKind::Time || ns[i].anchor.kind == AnchorKind::Word)
                implies #[trigger] out[i] == ns[i] by {
            if i < k {
                assert(out[i] == rest[i]);
                assert(ns[i] == pre[i]);
            }
        }
    }
}

} // verus!

verus! {

proof fn lemma_filter_all(ns: Seq<NoteV>)
    ensures
        ns.filter(|n: NoteV| note_keeps(n, None, None)) == ns,
    decreases ns.len(),
{
    reveal(Seq::filter);
    if ns.len() > 0 {
        lemma_filter_all(ns.drop_last());
        assert(ns.drop_last().push(ns.last()) =~= ns);
    } else {
        assert(ns.filter(|n: NoteV| note_keeps(n, None, None)) =~= ns);
    }
}

/// The two ends of filtering: with neither a state nor an author every
/// note is kept, in order; filtering on the orphan state gives the orphan
/// panel.
pub proof fn law_filter_cases(ns: Seq<NoteV>)
    ensures
        ns.filter(|n: NoteV| note_keeps(n, None, None)) == ns,
        ns.filter(|n: NoteV| note_keeps(n, Some(NoteState::Orphan), None)) == ns.filter(
            |n: NoteV| n.state == NoteState::Orphan,
        ),
{
    lemma_filter_all(ns);
    assert((|n: NoteV| note_keeps(n, Some(NoteState::Orphan), None)) =~= (|n: NoteV| n.state == NoteState::Orphan));
}

proof fn lemma_note_settles(n: NoteV, p: ProjectV, near: u64)
    requires
        crate::anchor::unique_clip_ids(p.tracks),
    ensures
        relocated_note(relocated_note(n, p, near).0, p, near) == (relocated_note(n, p, near).0, false, false),
{
    crate::anchor::law_relocate_settles(p, n.anchor, near);
}

/// Relocation settles at once for a whole store: relocating the notes a
/// relocation gave, against the same project and threshold, moves and
/// orphans nothing and changes no note (clip ids are unique).
pub proof fn law_relocate_all_settles(ns: Seq<NoteV>, p: ProjectV, near: u64)
    requires
        crate::anchor::unique_clip_ids(p.tracks),
    ensures
        relocate_notes(relocate_notes(ns, p, near).0, p, near) == (relocate_notes(ns, p, near).0, 0nat, 0nat),
    decreases ns.len(),
{
    lemma_relocate_len(ns, p, near);
    if ns.len() > 0 {
        let once = relocate_notes(ns, p, near).0;
        let pre_once = relocate_notes(ns.drop_last(), p, near).0;
        law_relocate_all_settles(ns.drop_last(), p, near);
        lemma_note_settles(ns.last(), p, near);
        assert(once.drop_last() =~= pre_once);
        assert(once.last() == relocated_note(ns.last(), p, near).0);
    }
}

} // verus!

verus! {

/// The notes of `ns` that `filter` keeps.
pub open spec fn kept_notes(ns: Seq<NoteV>, state: Option<NoteState>, author: Option<NoteAuthor>) -> Seq<NoteV> {
    ns.filter(|n: NoteV| note_keeps(n, state, author))
}

/// Filtering keeps exactly the notes that match: every note returned has
/// the asked state and author (when asked) and comes from the store, and
/// every note of the store that has them is returned.
pub proof fn law_filter_exact(ns: Seq<NoteV>, state: Option<NoteState>, author: Option<NoteAuthor>)
    ensures
        forall|k: int|
            0 <= k < kept_notes(ns, state, author).len() ==> {
                &&& author matches Some(a) ==> (#[trigger] kept_notes(ns, state, author)[k]).author == a
                &&& state matches Some(s) ==> kept_notes(ns, state, author)[k].state == s
                &&& ns.contains(kept_notes(ns, state, author)[k])
            },
        forall|i: int|
            0 <= i < ns.len() && (author matches Some(a) ==> ns[i].author == a) && (state matches Some(s)
                ==> ns[i].state == s) ==> kept_notes(ns, state, author).contains(#[trigger] ns[i]),
{
    let pred = |n: NoteV| note_keeps(n, state, author);
    ns.filter_lemma(pred);
    assert(kept_notes(ns, state, author) == ns.filter(pred));
    assert forall|i: int|
        0 <= i < ns.len() && (author matches Some(a) ==> ns[i].author == a) && (state matches Some(s) ==> ns[i].state
            == s) implies kept_notes(ns, state, author).contains(#[trigger] ns[i]) by {
        assert(pred(ns[i]));
    }
    assert forall|k: int| 0 <= k < kept_notes(ns, state, author).len() implies {
        &&& author matches Some(a) ==> (#[trigger] kept_notes(ns, state, author)[k]).author == a
        &&& state matches Some(s) ==> kept_notes(ns, state, author)[k].state == s
        &&& ns.contains(kept_notes(ns, state, author)[k])
    } by {
        assert(pred(ns.filter(pred)[k]));
        assert(ns.filter(pred).contains(ns.filter(pred)[k]));
        ns.lemma_filter_contains_rev(pred, ns.filter(pred)[k]);
    }
}

} // verus!
