//! The stage directory contract: one table from logical key to directory
//! name. File names stay ASCII. The directories of the previous layout
//! (English names) are kept as `LEGACY_*`: old projects are read and
//! written in place, never migrated; new projects use the new layout.

use vstd::prelude::*;

verus! {

/// Production brief.
pub const BRIEF: &'static str = "00_制作简报";
/// Source material (read-only).
pub const MATERIALS: &'static str = "01_原始素材";
/// Transcripts and proofreading.
pub const SENSED: &'static str = "02_转写与校对";
/// Created assets.
pub const ASSETS: &'static str = "03_创作素材";
/// The animation-card directory under assets keeps its English name.
pub const ARTBOARD: &'static str = "artboard";
/// Rough-cut decisions.
pub const CUT: &'static str = "04_粗剪决策";
/// Timeline project (project.json, wordline.json).
pub const TIMELINE: &'static str = "05_时间线工程";
/// Rendered output.
pub const OUTPUT: &'static str = "06_成片输出";
/// Internal state (backups, stage bookkeeping).
pub const STATE: &'static str = "_内部状态";
/// Delivery area; never cleaned.
pub const DELIVER: &'static str = "成品";

/// The project (IR).
pub const PROJECT_REL: &'static str = "05_时间线工程/project.json";
/// The word line, the time source of truth.
pub const WORDLINE_REL: &'static str = "05_时间线工程/wordline.json";
/// The cut list.
pub const CUTLIST_REL: &'static str = "04_粗剪决策/cutlist.json";
/// The applied cut list.
pub const CUTLIST_APPLIED_REL: &'static str = "04_粗剪决策/cutlist.applied.json";
/// Notes, at the project root in both layouts.
pub const NOTES_REL: &'static str = "notes.json";

pub const LEGACY_BRIEF: &'static str = "00_brief";
pub const LEGACY_MATERIALS: &'static str = "01_materials";
pub const LEGACY_SENSED: &'static str = "02_sensed";
pub const LEGACY_ASSETS: &'static str = "03_assets";
pub const LEGACY_CUT: &'static str = "04_cut";
pub const LEGACY_TIMELINE: &'static str = "05_ir";
pub const LEGACY_OUTPUT: &'static str = "06_output";
pub const LEGACY_STATE: &'static str = "_state";

pub const LEGACY_PROJECT_REL: &'static str = "05_ir/project.json";
pub const LEGACY_WORDLINE_REL: &'static str = "05_ir/wordline.json";
pub const LEGACY_CUTLIST_REL: &'static str = "04_cut/cutlist.json";
pub const LEGACY_CUTLIST_APPLIED_REL: &'static str = "04_cut/cutlist.applied.json";

/// Source-of-truth files other than the project, and where they lie in the
/// new layout.
pub fn file_truths_new() -> (r: [(&'static str, &'static str); 3])
    ensures
        r[0].0@ == "wordline.json"@ && r[0].1@ == WORDLINE_REL@,
        r[1].0@ == "cutlist.json"@ && r[1].1@ == CUTLIST_REL@,
        r[2].0@ == "cutlist.applied.json"@ && r[2].1@ == CUTLIST_APPLIED_REL@,
{
    [("wordline.json", WORDLINE_REL), ("cutlist.json", CUTLIST_REL), ("cutlist.applied.json", CUTLIST_APPLIED_REL)]
}

/// The same in the previous layout.
pub fn file_truths_legacy() -> (r: [(&'static str, &'static str); 3])
    ensures
        r[0].0@ == "wordline.json"@ && r[0].1@ == LEGACY_WORDLINE_REL@,
        r[1].0@ == "cutlist.json"@ && r[1].1@ == LEGACY_CUTLIST_REL@,
        r[2].0@ == "cutlist.applied.json"@ && r[2].1@ == LEGACY_CUTLIST_APPLIED_REL@,
{
    [
        ("wordline.json", LEGACY_WORDLINE_REL),
        ("cutlist.json", LEGACY_CUTLIST_REL),
        ("cutlist.applied.json", LEGACY_CUTLIST_APPLIED_REL),
    ]
}

/// A project in the previous layout: its old project.json is on disk and
/// the new one is not (when both are, the new layout wins).
pub fn is_legacy_layout(legacy_project_is_file: bool, project_is_file: bool) -> (r: bool)
    ensures
        r == (legacy_project_is_file && !project_is_file),
{
    legacy_project_is_file && !project_is_file
}

/// Which of two relative paths to use: the new one if it exists, else the
/// old one if that exists, else the new one.
pub fn resolve_rel<'a>(new_exists: bool, legacy_exists: bool, new_rel: &'a str, legacy_rel: &'a str) -> (r: &'a str)
    ensures
        r@ == (if !new_exists && legacy_exists { legacy_rel@ } else { new_rel@ }),
{
    if new_exists {
        new_rel
    } else if legacy_exists {
        legacy_rel
    } else {
        new_rel
    }
}

/// Which of two directories to use (as `resolve_rel`).
pub fn resolve_dir<'a>(new_exists: bool, legacy_exists: bool, new_dir: &'a str, legacy_dir: &'a str) -> (r: &'a str)
    ensures
        r@ == (if !new_exists && legacy_exists { legacy_dir@ } else { new_dir@ }),
{
    resolve_rel(new_exists, legacy_exists, new_dir, legacy_dir)
}

/// Where project.json lies, given which of the two exist.
pub fn project_path(project_exists: bool, legacy_project_exists: bool) -> (r: &'static str)
    ensures
        r@ == (if !project_exists && legacy_project_exists { LEGACY_PROJECT_REL@ } else { PROJECT_REL@ }),
{
    resolve_rel(project_exists, legacy_project_exists, PROJECT_REL, LEGACY_PROJECT_REL)
}

/// A directory holds an openable project in either layout.
pub fn has_project(project_is_file: bool, legacy_project_is_file: bool) -> (r: bool)
    ensures
        r == (project_is_file || legacy_project_is_file),
{
    project_is_file || legacy_project_is_file
}

/// The relative path of project.json that holds on disk.
pub fn project_rel_on_disk(legacy_project_is_file: bool, project_is_file: bool) -> (r: &'static str)
    ensures
        r@ == (if legacy_project_is_file && !project_is_file { LEGACY_PROJECT_REL@ } else { PROJECT_REL@ }),
{
    if is_legacy_layout(legacy_project_is_file, project_is_file) {
        LEGACY_PROJECT_REL
    } else {
        PROJECT_REL
    }
}

/// A relative path flattened into one file name: every `/` or `\\`
/// becomes `__`.
pub open spec fn flatten_rel(rel: Seq<char>) -> Seq<char>
    decreases rel.len(),
{
    if rel.len() == 0 {
        Seq::empty()
    } else if rel.last() == '/' || rel.last() == '\\' {
        flatten_rel(rel.drop_last()) + "__"@
    } else {
        flatten_rel(rel.drop_last()).push(rel.last())
    }
}

/// Where a backup of `rel` taken at `stamp` goes, relative to the project
/// root: `_内部状态/backup/<stamp>/<flattened rel>`.
pub open spec fn backup_rel_spec(rel: Seq<char>, stamp: Seq<char>) -> Seq<char> {
    STATE@ + "/backup/"@ + stamp + "/"@ + flatten_rel(rel)
}

pub fn backup_rel(rel: &str, stamp: &str) -> (r: String)
    ensures
        r@ == backup_rel_spec(rel@, stamp@),
{
    let mut out = STATE.to_string();
    out.append("/backup/");
    out.append(stamp);
    out.append("/");
    proof {
        reveal_strlit("/backup/");
        reveal_strlit("/");
        reveal_strlit("__");
    }
    let ghost base = out@;
    let n = rel.unicode_len();
    let mut i: usize = 0;
    while i < n
        invariant
            n == rel@.len(),
            i <= n,
            out@ == base + flatten_rel(rel@.take(i as int)),
        decreases n - i,
    {
        let c = rel.get_char(i);
        let ghost before = out@;
        assert(rel@.take(i + 1).drop_last() =~= rel@.take(i as int));
        assert(rel@.take(i + 1).last() == c);
        if c == '/' || c == '\\' {
            out.append("__");
            proof {
                reveal_strlit("__");
            }
            assert(out@ =~= base + flatten_rel(rel@.take(i + 1)));
        } else {
            let one = rel.substring_char(i, i + 1);
            assert(one@ =~= seq![c]);
            out.append(one);
            assert(out@ =~= base + flatten_rel(rel@.take(i + 1)));
        }
        i += 1;
    }
    assert(rel@.take(n as int) =~= rel@);
    out
}

} // verus!
