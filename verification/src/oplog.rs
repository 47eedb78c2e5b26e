//! The operation log: an op is the immutable record of one atomic change,
//! the sole basis of merging and audit. Ops are only appended, never
//! changed; undo and redo append new ops too. Order follows `rev`.

use vstd::prelude::*;
use crate::json::{Json, JVal, str_eq};
use crate::text::{numbered, names_contain, first_free, numbered_string, parse_u64, parse_u64_spec};

verus! {

#[derive(Clone, Copy, PartialEq, Eq, Structural, Debug)]
pub enum ActorKind {
    User,
    Agent,
    Script,
}

#[derive(Debug)]
pub struct Actor {
    pub kind: ActorKind,
    pub id: String,
}

pub struct ActorV {
    pub kind: ActorKind,
    pub id: Seq<char>,
}

impl View for Actor {
    type V = ActorV;
    open spec fn view(&self) -> ActorV {
        ActorV { kind: self.kind, id: self.id@ }
    }
}

impl Actor {
    pub fn agent(id: &str) -> (r: Actor)
        ensures
            r@ == (ActorV { kind: ActorKind::Agent, id: id@ }),
    {
        Actor { kind: ActorKind::Agent, id: id.to_string() }
    }

    pub fn user(id: &str) -> (r: Actor)
        ensures
            r@ == (ActorV { kind: ActorKind::User, id: id@ }),
    {
        Actor { kind: ActorKind::User, id: id.to_string() }
    }

    pub fn script(id: &str) -> (r: Actor)
        ensures
            r@ == (ActorV { kind: ActorKind::Script, id: id@ }),
    {
        Actor { kind: ActorKind::Script, id: id.to_string() }
    }

    pub fn duplicate(&self) -> (r: Actor)
        ensures
            r@ == self@,
    {
        Actor { kind: self.kind, id: self.id.clone() }
    }
}

/// The closed set of operation kinds.
#[derive(Clone, Copy, PartialEq, Eq, Structural, Debug)]
pub enum OpKind {
    SetValue,
    Insert,
    Delete,
    Move,
    Split,
    Merge,
    ResolveConflict,
    Undo,
    Redo,
}

#[derive(Debug)]
pub struct OpTarget {
    /// The source-of-truth file (one of five).
    pub file: String,
    /// JSON pointer of the changed subtree, such as /tracks/0/clips/3.
    pub path: String,
}

/// One op. `before` and `after` hold the whole old and new value at
/// `target.path`, so the inverse of any op swaps them.
#[derive(Debug)]
pub struct Op {
    pub op_id: String,
    pub ts: String,
    pub actor: Actor,
    pub target: OpTarget,
    pub op_kind: OpKind,
    pub before: Json,
    pub after: Json,
    /// The revision this op was based on.
    pub base_rev: String,
    /// The project revision after this op.
    pub rev: Option<u64>,
    /// Bookkeeping ops (anchor relocation): audited, never undone.
    pub auto: Option<bool>,
    pub caused_by: Option<Vec<String>>,
    pub summary: String,
    pub request_id: Option<String>,
}

pub struct OpV {
    pub op_id: Seq<char>,
    pub ts: Seq<char>,
    pub actor: ActorV,
    pub file: Seq<char>,
    pub path: Seq<char>,
    pub op_kind: OpKind,
    pub before: JVal,
    pub after: JVal,
    pub base_rev: Seq<char>,
    pub rev: Option<u64>,
    pub auto: Option<bool>,
    pub caused_by: Option<Seq<Seq<char>>>,
    pub summary: Seq<char>,
    pub request_id: Option<Seq<char>>,
}

pub open spec fn strings_view(v: Seq<String>) -> Seq<Seq<char>> {
    v.map_values(|s: String| s@)
}

impl View for Op {
    type V = OpV;
    open spec fn view(&self) -> OpV {
        OpV {
            op_id: self.op_id@,
            ts: self.ts@,
            actor: self.actor@,
            file: self.target.file@,
            path: self.target.path@,
            op_kind: self.op_kind,
            before: self.before@,
            after: self.after@,
            base_rev: self.base_rev@,
            rev: self.rev,
            auto: self.auto,
            caused_by: match self.caused_by {
                Some(v) => Some(strings_view(v@)),
                None => None,
            },
            summary: self.summary@,
            request_id: match self.request_id {
                Some(r) => Some(r@),
                None => None,
            },
        }
    }
}

pub open spec fn ops_view(v: Seq<Op>) -> Seq<OpV> {
    v.map_values(|o: Op| o@)
}

pub fn copy_strings(v: &Vec<String>) -> (r: Vec<String>)
    ensures
        strings_view(r@) == strings_view(v@),
{
    let mut out: Vec<String> = Vec::new();
    let mut i: usize = 0;
    while i < v.len()
        invariant
            i <= v.len(),
            strings_view(out@) == strings_view(v@.take(i as int)),
        decreases v.len() - i,
    {
        let ghost prev = out@;
        out.push(v[i].clone());
        assert(strings_view(out@) =~= strings_view(prev).push(v@[i as int]@));
        assert(strings_view(v@.take(i + 1)) =~= strings_view(v@.take(i as int)).push(v@[i as int]@));
        i += 1;
    }
    assert(v@.take(i as int) =~= v@);
    out
}

impl Op {
    pub fn duplicate(&self) -> (r: Op)
        ensures
            r@ == self@,
    {
        Op {
            op_id: self.op_id.clone(),
            ts: self.ts.clone(),
            actor: self.actor.duplicate(),
            target: OpTarget { file: self.target.file.clone(), path: self.target.path.clone() },
            op_kind: self.op_kind,
            before: self.before.deep_copy(),
            after: self.after.deep_copy(),
            base_rev: self.base_rev.clone(),
            rev: self.rev,
            auto: self.auto,
            caused_by: match &self.caused_by {
                Some(v) => Some(copy_strings(v)),
                None => None,
            },
            summary: self.summary.clone(),
            request_id: match &self.request_id {
                Some(r) => Some(r.clone()),
                None => None,
            },
        }
    }
}

/// The number in an op id of the form `op-<n>`.
pub open spec fn op_number(id: Seq<char>) -> Option<u64> {
    if id.len() >= 3 && id.take(3) == "op-"@ {
        parse_u64_spec(id.skip(3))
    } else {
        None
    }
}

pub open spec fn ids_distinct(ops: Seq<OpV>) -> bool {
    forall|i: int, j: int| 0 <= i < j < ops.len() ==> #[trigger] ops[i].op_id != #[trigger] ops[j].op_id
}

pub open spec fn has_op_id(ops: Seq<OpV>, id: Seq<char>) -> bool {
    exists|i: int| 0 <= i < ops.len() && #[trigger] ops[i].op_id == id
}

pub open spec fn has_request(ops: Seq<OpV>, rid: Seq<char>) -> bool {
    exists|i: int| 0 <= i < ops.len() && #[trigger] ops[i].request_id == Some(rid)
}

/// The log: ops in append order, op ids unique, and the lower bound from
/// which new op numbers are handed out.
#[derive(Debug)]
pub struct OpLog {
    ops: Vec<Op>,
    next_op: u64,
}

pub struct OpLogV {
    pub ops: Seq<OpV>,
    pub next_op: u64,
}

impl View for OpLog {
    type V = OpLogV;
    closed spec fn view(&self) -> OpLogV {
        OpLogV { ops: ops_view(self.ops@), next_op: self.next_op }
    }
}

impl OpLog {
    pub open spec fn wf(&self) -> bool {
        ids_distinct(self@.ops)
    }

    pub fn new() -> (r: OpLog)
        ensures
            r.wf(),
            r@.ops.len() == 0,
            r@.next_op == 0,
    {
        OpLog { ops: Vec::new(), next_op: 0 }
    }

    pub fn ops(&self) -> (r: &Vec<Op>)
        ensures
            ops_view(r@) == self@.ops,
    {
        &self.ops
    }

    pub fn len(&self) -> (r: usize)
        ensures
            r == self@.ops.len(),
    {
        self.ops.len()
    }

    pub fn is_empty(&self) -> (r: bool)
        ensures
            r == (self@.ops.len() == 0),
    {
        self.ops.len() == 0
    }

    fn op_ids(&self) -> (r: Vec<String>)
        ensures
            r.len() == self@.ops.len(),
            forall|i: int| 0 <= i < r.len() ==> #[trigger] r@[i]@ == self@.ops[i].op_id,
    {
        let mut out: Vec<String> = Vec::new();
        let mut i: usize = 0;
        while i < self.ops.len()
            invariant
                i <= self.ops.len(),
                out.len() == i,
                forall|k: int| 0 <= k < i ==> #[trigger] out@[k]@ == self@.ops[k].op_id,
            decreases self.ops.len() - i,
        {
            out.push(self.ops[i].op_id.clone());
            i += 1;
        }
        out
    }

    /// Whether an op with this id is in the log.
    pub fn contains_op_id(&self, id: &str) -> (r: bool)
        ensures
            r == has_op_id(self@.ops, id@),
    {
        let mut i: usize = 0;
        while i < self.ops.len()
            invariant
                i <= self.ops.len(),
                forall|k: int| 0 <= k < i ==> #[trigger] self@.ops[k].op_id != id@,
            decreases self.ops.len() - i,
        {
            if str_eq(self.ops[i].op_id.as_str(), id) {
                assert(self@.ops[i as int].op_id == id@);
                return true;
            }
            i += 1;
        }
        false
    }

    /// Hands out the next op id: `op-<n>` for the first n from the lower
    /// bound that no op in the log has, and raises the bound past it.
    pub fn next_op_id(&mut self) -> (r: String)
        ensures
            final(self)@.ops == old(self)@.ops,
            r@ == alloc_op_id(old(self)@).0,
            final(self)@.next_op == alloc_op_id(old(self)@).1,
            old(self)@.next_op + old(self)@.ops.len() < u64::MAX ==> !has_op_id(old(self)@.ops, r@),
            old(self)@.next_op + old(self)@.ops.len() < u64::MAX ==> exists|n: u64|
                old(self)@.next_op <= n && r@ == numbered("op-"@, n as nat, 0) && !has_op_id(old(self)@.ops, r@)
                    && final(self)@.next_op == n + 1 && forall|k: u64|
                    old(self)@.next_op <= k < n ==> #[trigger] has_op_id(old(self)@.ops, numbered("op-"@, k as nat, 0)),
            old(self)@.next_op + old(self)@.ops.len() >= u64::MAX ==> r@ == numbered("op-"@, old(self)@.next_op as nat, 0)
                && final(self)@.next_op == (if old(self)@.next_op == u64::MAX { u64::MAX } else { (old(self)@.next_op + 1) as u64 }),
    {
        if self.next_op >= u64::MAX - (self.ops.len() as u64) || self.ops.len() as u64 == u64::MAX {
            let id = numbered_string("op-", self.next_op, 0);
            self.next_op = self.next_op.saturating_add(1);
            return id;
        }
        let ids = self.op_ids();
        let (id, n) = first_free("op-", &ids, self.next_op, 0);
        proof {
            let ops = self@.ops;
            assert forall|s: Seq<char>| names_contain(ids@, s) <==> has_op_id(ops, s) by {
                if names_contain(ids@, s) {
                    let i = choose|i: int| 0 <= i < ids.len() && #[trigger] ids@[i]@ == s;
                    assert(ops[i].op_id == s);
                }
                if has_op_id(ops, s) {
                    let i = choose|i: int| 0 <= i < ops.len() && #[trigger] ops[i].op_id == s;
                    assert(ids@[i]@ == s);
                }
            }
            assert forall|k: u64| self.next_op <= k < n implies #[trigger] has_op_id(ops, numbered("op-"@, k as nat, 0)) by {
                let ki: int = k as int;
                assert(names_contain(ids@, numbered("op-"@, ki as nat, 0)));
            }
            assert(is_first_free_op(self@, n));
            lemma_alloc_op_id(self@, n);
        }
        self.next_op = n + 1;
        id
    }

    /// Appends an op unless its id is already in the log (applying the same
    /// op twice has no effect). The op is stamped with the current time.
    /// Returns whether it was appended.
    pub fn push(&mut self, op: Op) -> (r: bool)
        requires
            old(self).wf(),
        ensures
            final(self).wf(),
            final(self)@.next_op == old(self)@.next_op,
            r == !has_op_id(old(self)@.ops, op@.op_id),
            !r ==> final(self)@ == old(self)@,
            r ==> final(self)@.ops.len() == old(self)@.ops.len() + 1 && final(self)@.ops.take(
                old(self)@.ops.len() as int,
            ) == old(self)@.ops && final(self)@.ops.last() == (OpV { ts: final(self)@.ops.last().ts, ..op@ }),
            r ==> exists|ms: u64| final(self)@.ops.last().ts == crate::timeutil::rfc3339_text(ms as nat),
    {
        if self.contains_op_id(op.op_id.as_str()) {
            return false;
        }
        let mut op = op;
        op.ts = crate::timeutil::now_rfc3339();
        let ghost prev = self@.ops;
        self.ops.push(op);
        proof {
            assert(self@.ops =~= prev.push(op@));
            assert(self@.ops.take(prev.len() as int) =~= prev);
            assert forall|i: int, j: int| 0 <= i < j < self@.ops.len() implies #[trigger] self@.ops[i].op_id
                != #[trigger] self@.ops[j].op_id by {
                if j == prev.len() {
                    assert(self@.ops[i] == prev[i]);
                }
            }
        }
        true
    }

    /// Appends an op read from disk: keeps its timestamp, skips a repeated
    /// id, and raises the op-number bound past an `op-<n>` id.
    pub fn push_loaded(&mut self, op: Op) -> (r: bool)
        requires
            old(self).wf(),
        ensures
            final(self).wf(),
            final(self)@ == push_loaded_spec(old(self)@, op@),
            r == !has_op_id(old(self)@.ops, op@.op_id),
            !r ==> final(self)@ == old(self)@,
            r ==> final(self)@.ops == old(self)@.ops.push(op@),
            r ==> final(self)@.next_op == match op_number(op@.op_id) {
                Some(n) => if n >= old(self)@.next_op {
                    if n == u64::MAX { u64::MAX } else { (n + 1) as u64 }
                } else {
                    old(self)@.next_op
                },
                None => old(self)@.next_op,
            },
    {
        if self.contains_op_id(op.op_id.as_str()) {
            return false;
        }
        let s = op.op_id.as_str();
        let len = s.unicode_len();
        if len >= 3 {
            let head = s.substring_char(0, 3);
            proof {
                reveal_strlit("op-");
            }
            if str_eq(head, "op-") {
                let rest = s.substring_char(3, len);
                assert(rest@ =~= op@.op_id.skip(3));
                match parse_u64(rest) {
                    Some(n) => {
                        if n >= self.next_op {
                            self.next_op = n.saturating_add(1);
                        }
                    },
                    None => {},
                }
            } else {
                assert(op@.op_id.take(3) != "op-"@);
            }
        }
        let ghost prev = self@.ops;
        self.ops.push(op);
        proof {
            assert(self@.ops =~= prev.push(op@));
            assert forall|i: int, j: int| 0 <= i < j < self@.ops.len() implies #[trigger] self@.ops[i].op_id
                != #[trigger] self@.ops[j].op_id by {
                if j == prev.len() {
                    assert(self@.ops[i] == prev[i]);
                }
            }
        }
        true
    }

    /// Whether the log holds an op with this request id (the dedup key of
    /// non-idempotent writes).
    pub fn has_request_id(&self, rid: &str) -> (r: bool)
        ensures
            r == has_request(self@.ops, rid@),
    {
        let mut i: usize = 0;
        while i < self.ops.len()
            invariant
                i <= self.ops.len(),
                forall|k: int| 0 <= k < i ==> #[trigger] self@.ops[k].request_id != Some(rid@),
            decreases self.ops.len() - i,
        {
            match &self.ops[i].request_id {
                Some(x) => {
                    if str_eq(x.as_str(), rid) {
                        assert(self@.ops[i as int].request_id == Some(rid@));
                        return true;
                    }
                },
                None => {},
            }
            i += 1;
        }
        false
    }

    /// The ops with a revision above `since_rev` (all revisioned ops when
    /// none is given), optionally only those of one kind of actor, in log
    /// order.
    pub fn tail(&self, since_rev: Option<u64>, actor_kind: Option<ActorKind>) -> (r: Vec<Op>)
        ensures
            ops_view(r@) == self@.ops.filter(|o: OpV| tail_keeps(o, since_rev, actor_kind)),
    {
        let ghost all = self@.ops;
        let mut out: Vec<Op> = Vec::new();
        proof {
            reveal(Seq::filter);
            assert(all.take(0) =~= Seq::<OpV>::empty());
        }
        let mut i: usize = 0;
        while i < self.ops.len()
            invariant
                i <= self.ops.len(),
                all == self@.ops,
                ops_view(out@) == all.take(i as int).filter(|o: OpV| tail_keeps(o, since_rev, actor_kind)),
            decreases self.ops.len() - i,
        {
            let o = &self.ops[i];
            let keep_rev = match o.rev {
                Some(r) => match since_rev {
                    Some(s) => r > s,
                    None => true,
                },
                None => false,
            };
            let keep_kind = match actor_kind {
                Some(k) => o.actor.kind == k,
                None => true,
            };
            let ghost prev = out@;
            proof {
                reveal(Seq::filter);
            }
            assert(all.take(i + 1).drop_last() =~= all.take(i as int));
            assert(all[i as int] == o@);
            if keep_rev && keep_kind {
                out.push(o.duplicate());
                assert(ops_view(out@) =~= ops_view(prev).push(o@));
            }
            i += 1;
        }
        assert(all.take(self.ops.len() as int) =~= all);
        out
    }

    /// The revision of the last op.
    pub fn last_rev(&self) -> (r: Option<u64>)
        ensures
            r == (if self@.ops.len() == 0 { None } else { self@.ops.last().rev }),
    {
        if self.ops.len() == 0 {
            None
        } else {
            self.ops[self.ops.len() - 1].rev
        }
    }
}

pub open spec fn is_first_free_op(l: OpLogV, n: u64) -> bool {
    &&& l.next_op <= n
    &&& !has_op_id(l.ops, numbered("op-"@, n as nat, 0))
    &&& forall|k: u64| l.next_op <= k < n ==> #[trigger] has_op_id(l.ops, numbered("op-"@, k as nat, 0))
}

/// The op id `next_op_id` hands out and the bound it leaves behind.
pub open spec fn alloc_op_id(l: OpLogV) -> (Seq<char>, u64) {
    if l.next_op + l.ops.len() < u64::MAX {
        let n = choose|n: u64| is_first_free_op(l, n);
        (numbered("op-"@, n as nat, 0), (n + 1) as u64)
    } else {
        (
            numbered("op-"@, l.next_op as nat, 0),
            if l.next_op == u64::MAX {
                u64::MAX
            } else {
                (l.next_op + 1) as u64
            },
        )
    }
}

pub proof fn lemma_alloc_op_id(l: OpLogV, n: u64)
    requires
        l.next_op + l.ops.len() < u64::MAX,
        is_first_free_op(l, n),
    ensures
        alloc_op_id(l) == (numbered("op-"@, n as nat, 0), (n + 1) as u64),
        !has_op_id(l.ops, alloc_op_id(l).0),
{
    let m = choose|m: u64| is_first_free_op(l, m);
    if m < n {
        assert(has_op_id(l.ops, numbered("op-"@, m as nat, 0)));
    } else if n < m {
        assert(has_op_id(l.ops, numbered("op-"@, n as nat, 0)));
    }
}

/// The log after loading an op read from disk.
pub open spec fn push_loaded_spec(l: OpLogV, op: OpV) -> OpLogV {
    if has_op_id(l.ops, op.op_id) {
        l
    } else {
        OpLogV {
            ops: l.ops.push(op),
            next_op: match op_number(op.op_id) {
                Some(n) => if n >= l.next_op {
                    if n == u64::MAX {
                        u64::MAX
                    } else {
                        (n + 1) as u64
                    }
                } else {
                    l.next_op
                },
                None => l.next_op,
            },
        }
    }
}

pub open spec fn tail_keeps(o: OpV, since_rev: Option<u64>, actor_kind: Option<ActorKind>) -> bool {
    &&& o.rev matches Some(r) && (since_rev matches Some(s) ==> r > s)
    &&& actor_kind matches Some(k) ==> o.actor.kind == k
}

} // verus!
