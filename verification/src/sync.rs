//! The workspace's decisions around the disk: what to do when the project
//! file on disk differs from the last synchronised view, which snapshot
//! serves as the common ancestor, how the revision is reconciled on open,
//! and how the pass-through `_meta` member is set aside. Reading and
//! writing the files is the host's part.

use vstd::prelude::*;
use crate::json::{Json, JVal, json_eq, json_copy, str_eq, field_index, fields_view, find_key};
use crate::merge::{three_way_merge, merge_outcome, MergeOutcome, MergeOutcomeV, Conflict, ConflictCode, conflicts_view};
use crate::text::{parse_u64, parse_u64_spec};
use crate::cli::{trim, trim_exec};
use crate::oplog::strings_view;

verus! {

/// What to do after comparing the disk with the last synchronised view.
#[derive(Debug)]
pub enum SyncStep {
    /// Nothing to take over from the disk.
    Unchanged,
    /// Take over this merged project.
    Adopt(Json),
    /// The changes cannot be merged: record these conflicts and stop writing.
    Conflicts(Vec<Conflict>),
}

pub enum SyncStepV {
    Unchanged,
    Adopt(JVal),
    Conflicts(Seq<crate::merge::ConflictV>),
}

impl View for SyncStep {
    type V = SyncStepV;
    open spec fn view(&self) -> SyncStepV {
        match self {
            SyncStep::Unchanged => SyncStepV::Unchanged,
            SyncStep::Adopt(j) => SyncStepV::Adopt(j@),
            SyncStep::Conflicts(cs) => SyncStepV::Conflicts(conflicts_view(cs@)),
        }
    }
}

/// The step for a disk view `disk`, the last synchronised view `synced`,
/// the in-memory project `local` and the ancestor snapshot `base` (when
/// there is none: the synchronised view, else the local project).
pub open spec fn sync_spec(disk: JVal, synced: Option<JVal>, local: JVal, base: Option<JVal>) -> SyncStepV {
    if synced == Some(disk) {
        SyncStepV::Unchanged
    } else {
        let b = match base {
            Some(x) => x,
            None => match synced {
                Some(s) => s,
                None => local,
            },
        };
        match merge_outcome(b, disk, local) {
            MergeOutcomeV::Merged(v) => if v == local {
                SyncStepV::Unchanged
            } else {
                SyncStepV::Adopt(v)
            },
            MergeOutcomeV::Conflicts(cs) => SyncStepV::Conflicts(cs),
        }
    }
}

/// Decides how the workspace synchronises with the disk before a write.
pub fn sync_step(disk: &Json, synced: Option<&Json>, local: &Json, base: Option<Json>) -> (r: SyncStep)
    ensures
        r@ == sync_spec(
            disk@,
            match synced {
                Some(s) => Some(s@),
                None => None,
            },
            local@,
            match base {
                Some(b) => Some(b@),
                None => None,
            },
        ),
{
    match synced {
        Some(s) => {
            if json_eq(s, disk) {
                return SyncStep::Unchanged;
            }
        },
        None => {},
    }
    let b = match base {
        Some(x) => x,
        None => match synced {
            Some(s) => json_copy(s),
            None => json_copy(local),
        },
    };
    match three_way_merge(&b, disk, local) {
        MergeOutcome::Merged(v) => {
            if json_eq(&v, local) {
                SyncStep::Unchanged
            } else {
                SyncStep::Adopt(v)
            }
        },
        MergeOutcome::Conflicts(cs) => SyncStep::Conflicts(cs),
    }
}

/// What to do when the disk changed inside the write window.
#[derive(Debug)]
pub enum DriftStep {
    /// The disk is still the synchronised view.
    Unchanged,
    /// The outside change merges: the disk view becomes the synchronised
    /// view, and the merged project is taken over when it differs from
    /// the local one.
    Merged(Option<Json>),
    /// Same-field changes on both sides: record the conflicts, drop the
    /// pending local write and reload from disk.
    Conflicts(Vec<Conflict>),
}

pub enum DriftStepV {
    Unchanged,
    Merged(Option<JVal>),
    Conflicts(Seq<crate::merge::ConflictV>),
}

impl View for DriftStep {
    type V = DriftStepV;
    open spec fn view(&self) -> DriftStepV {
        match self {
            DriftStep::Unchanged => DriftStepV::Unchanged,
            DriftStep::Merged(o) => DriftStepV::Merged(
                match o {
                    Some(j) => Some(j@),
                    None => None,
                },
            ),
            DriftStep::Conflicts(cs) => DriftStepV::Conflicts(conflicts_view(cs@)),
        }
    }
}

/// The write-window check: the synchronised view is the ancestor.
pub open spec fn drift_spec(synced: JVal, cur: JVal, local: JVal) -> DriftStepV {
    if cur == synced {
        DriftStepV::Unchanged
    } else {
        match merge_outcome(synced, cur, local) {
            MergeOutcomeV::Merged(v) => DriftStepV::Merged(if v == local { None } else { Some(v) }),
            MergeOutcomeV::Conflicts(cs) => DriftStepV::Conflicts(cs),
        }
    }
}

pub fn drift_step(synced: &Json, cur: &Json, local: &Json) -> (r: DriftStep)
    ensures
        r@ == drift_spec(synced@, cur@, local@),
{
    if json_eq(cur, synced) {
        return DriftStep::Unchanged;
    }
    match three_way_merge(synced, cur, local) {
        MergeOutcome::Merged(v) => {
            if json_eq(&v, local) {
                DriftStep::Merged(None)
            } else {
                DriftStep::Merged(Some(v))
            }
        },
        MergeOutcome::Conflicts(cs) => DriftStep::Conflicts(cs),
    }
}

/// A document with its `_meta` member set aside: the document without it,
/// and its value (the first `_meta` member of an object), if any.
pub open spec fn strip_meta_spec(doc: JVal) -> (JVal, Option<JVal>) {
    match doc {
        JVal::Obj(fs) => match find_key(fs, "_meta"@) {
            Some(i) => (JVal::Obj(fs.remove(i)), Some(fs[i].1)),
            None => (doc, None),
        },
        _ => (doc, None),
    }
}

pub fn strip_meta(doc: Json) -> (r: (Json, Option<Json>))
    ensures
        (r.0@, match r.1 {
            Some(m) => Some(m@),
            None => None,
        }) == strip_meta_spec(doc@),
{
    match doc {
        Json::Obj(fs) => {
            proof {
                crate::json::lemma_fields_view(fs);
            }
            match field_index(&fs, "_meta") {
                Some(i) => {
                    let ghost fv = fields_view(fs@);
                    let mut fs = fs;
                    let (_k, m) = fs.remove(i);
                    proof {
                        crate::json::lemma_fields_view(fs);
                    }
                    assert(fields_view(fs@) =~= fv.remove(i as int));
                    (Json::Obj(fs), Some(m))
                },
                None => (Json::Obj(fs), None),
            }
        },
        other => (other, None),
    }
}

/// The revision on open: the last revision in the log (0 for none),
/// raised to the one in the revision file when that file reads as a
/// larger number (an interrupted write).
pub open spec fn reconcile_rev_spec(log_rev: Option<u64>, disk_text: Option<Seq<char>>) -> u64 {
    let r = match log_rev {
        Some(x) => x,
        None => 0,
    };
    match disk_text {
        Some(t) => match parse_u64_spec(trim(t)) {
            Some(d) => if d > r {
                d
            } else {
                r
            },
            None => r,
        },
        None => r,
    }
}

pub fn reconcile_rev(log_rev: Option<u64>, disk_text: Option<&str>) -> (r: u64)
    ensures
        r == reconcile_rev_spec(
            log_rev,
            match disk_text {
                Some(t) => Some(t@),
                None => None,
            },
        ),
{
    let r = match log_rev {
        Some(x) => x,
        None => 0,
    };
    match disk_text {
        Some(t) => match parse_u64(trim_exec(t)) {
            Some(d) => if d > r {
                d
            } else {
                r
            },
            None => r,
        },
        None => r,
    }
}

/// The revision a snapshot file name `<rev>.json` stands for.
pub open spec fn snapshot_rev(name: Seq<char>) -> Option<u64> {
    if name.len() >= 5 && name.skip(name.len() - 5) == ".json"@ {
        parse_u64_spec(name.take(name.len() - 5))
    } else {
        None
    }
}

fn snapshot_rev_exec(name: &str) -> (r: Option<u64>)
    ensures
        r == snapshot_rev(name@),
{
    proof {
        reveal_strlit(".json");
    }
    assert(".json"@.len() == 5);
    let n = name.unicode_len();
    if n >= 5 && str_eq(name.substring_char(n - 5, n), ".json") {
        let stem = name.substring_char(0, n - 5);
        assert(stem@ =~= name@.take(n - 5));
        parse_u64(stem)
    } else {
        None
    }
}

/// The ancestor snapshot for a merge at revision `rev`: among the names
/// `<n>.json` with `n <= rev`, the position of the largest `n` (the first
/// one of that number).
pub open spec fn best_upto(names: Seq<Seq<char>>, rev: u64, k: int) -> Option<int>
    decreases k,
{
    if k <= 0 || k > names.len() {
        None
    } else {
        let prev = best_upto(names, rev, k - 1);
        match snapshot_rev(names[k - 1]) {
            Some(n) => if n <= rev && (prev is None || n > snapshot_rev(names[prev->0])->0) {
                Some(k - 1)
            } else {
                prev
            },
            None => prev,
        }
    }
}

pub fn base_snapshot(names: &Vec<String>, rev: u64) -> (r: Option<usize>)
    ensures
        match r {
            Some(i) => best_upto(strings_view(names@), rev, names@.len() as int) == Some(i as int),
            None => best_upto(strings_view(names@), rev, names@.len() as int) is None,
        },
{
    let ghost nv = strings_view(names@);
    let mut best: Option<(usize, u64)> = None;
    let mut k: usize = 0;
    while k < names.len()
        invariant
            k <= names.len(),
            nv == strings_view(names@),
            match best {
                Some((i, n)) => best_upto(nv, rev, k as int) == Some(i as int) && i < k && snapshot_rev(nv[i as int]) == Some(n),
                None => best_upto(nv, rev, k as int) is None,
            },
        decreases names.len() - k,
    {
        assert(nv[k as int] == names@[k as int]@);
        match snapshot_rev_exec(names[k].as_str()) {
            Some(n) => {
                let better = match best {
                    Some((_, b)) => n > b,
                    None => true,
                };
                if n <= rev && better {
                    best = Some((k, n));
                }
            },
            None => {},
        }
        k += 1;
    }
    match best {
        Some((i, _)) => Some(i),
        None => None,
    }
}

/// The conflict code a persisted conflict names ("CF-002", "CF-003";
/// anything else reads as a field conflict).
pub fn code_from_text(code: &str) -> (r: ConflictCode)
    ensures
        code@ == "CF-002"@ ==> r == ConflictCode::DeleteModify,
        code@ != "CF-002"@ && code@ == "CF-003"@ ==> r == ConflictCode::DupId,
        code@ != "CF-002"@ && code@ != "CF-003"@ ==> r == ConflictCode::FieldConflict,
{
    if str_eq(code, "CF-002") {
        ConflictCode::DeleteModify
    } else if str_eq(code, "CF-003") {
        ConflictCode::DupId
    } else {
        ConflictCode::FieldConflict
    }
}

// ---- pruning snapshots ----

/// Snapshot `j` comes after snapshot `i` in revision order (ties by
/// position).
pub open spec fn outranks(names: Seq<Seq<char>>, i: int, j: int) -> bool {
    &&& snapshot_rev(names[j]) is Some
    &&& (snapshot_rev(names[j])->0 > snapshot_rev(names[i])->0 || (snapshot_rev(names[j])->0 == snapshot_rev(
        names[i],
    )->0 && j > i))
}

/// How many of the first `k` names are snapshots that come after `i`.
pub open spec fn rank_upto(names: Seq<Seq<char>>, i: int, k: int) -> nat
    decreases k,
{
    if k <= 0 {
        0
    } else {
        rank_upto(names, i, k - 1) + if outranks(names, i, k - 1) { 1nat } else { 0nat }
    }
}

/// A snapshot to delete: `keep` or more snapshots come after it.
pub open spec fn pruned(names: Seq<Seq<char>>, keep: nat, i: int) -> bool {
    snapshot_rev(names[i]) is Some && rank_upto(names, i, names.len() as int) >= keep
}

/// The positions below `k` of the snapshots to delete, in order.
pub open spec fn prune_list(names: Seq<Seq<char>>, keep: nat, k: int) -> Seq<int>
    decreases k,
{
    if k <= 0 {
        seq![]
    } else if pruned(names, keep, k - 1) {
        prune_list(names, keep, k - 1).push(k - 1)
    } else {
        prune_list(names, keep, k - 1)
    }
}

/// The snapshots to delete so that the `keep` of the highest revisions
/// remain (among equal revisions the later positions stay): their
/// positions in `names`, in order.
pub fn bases_to_prune(names: &Vec<String>, keep: usize) -> (r: Vec<usize>)
    ensures
        r@.map_values(|x: usize| x as int) == prune_list(strings_view(names@), keep as nat, names@.len() as int),
{
    let ghost nv = strings_view(names@);
    let n = names.len();
    let mut revs: Vec<Option<u64>> = Vec::new();
    let mut k: usize = 0;
    while k < n
        invariant
            k <= n,
            n == names.len(),
            nv == strings_view(names@),
            revs.len() == k,
            forall|a: int| 0 <= a < k ==> revs@[a] == snapshot_rev(#[trigger] nv[a]),
        decreases n - k,
    {
        revs.push(snapshot_rev_exec(names[k].as_str()));
        k += 1;
    }
    let mut out: Vec<usize> = Vec::new();
    let mut i: usize = 0;
    while i < n
        invariant
            i <= n,
            n == names.len(),
            nv == strings_view(names@),
            nv.len() == n,
            revs.len() == n,
            forall|a: int| 0 <= a < n ==> revs@[a] == snapshot_rev(#[trigger] nv[a]),
            out@.map_values(|x: usize| x as int) == prune_list(nv, keep as nat, i as int),
        decreases n - i,
    {
        let ghost before = out@;
        match revs[i] {
            Some(ri) => {
                let mut rank: usize = 0;
                let mut j: usize = 0;
                while j < n
                    invariant
                        j <= n,
                        i < n,
                        revs.len() == n,
                        nv.len() == n,
                        revs@[i as int] == Some(ri),
                        forall|a: int| 0 <= a < n ==> revs@[a] == snapshot_rev(#[trigger] nv[a]),
                        rank == rank_upto(nv, i as int, j as int),
                        rank <= j,
                    decreases n - j,
                {
                    assert(revs@[j as int] == snapshot_rev(nv[j as int]));
                    assert(revs@[i as int] == snapshot_rev(nv[i as int]));
                    let after = match revs[j] {
                        Some(rj) => rj > ri || (rj == ri && j > i),
                        None => false,
                    };
                    if after {
                        rank += 1;
                    }
                    j += 1;
                }
                if rank >= keep {
                    out.push(i);
                }
            },
            None => {},
        }
        proof {
            assert(revs@[i as int] == snapshot_rev(nv[i as int]));
            if pruned(nv, keep as nat, i as int) {
                assert(out@.map_values(|x: usize| x as int) =~= before.map_values(|x: usize| x as int).push(i as int));
            } else {
                assert(out@ == before);
            }
        }
        i += 1;
    }
    out
}

} // verus!
