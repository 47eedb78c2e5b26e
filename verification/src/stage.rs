//! Stage dirt propagation: after a file changes, only mark the downstream
//! stages of the pipeline dirty (nothing is re-run automatically). Both
//! layouts' relative paths are recognised; hints always name the new
//! directories.

use vstd::prelude::*;
use crate::json::str_eq;
use crate::text::{dec, push_dec};
use crate::paths::{
    PROJECT_REL, LEGACY_PROJECT_REL, OUTPUT, LEGACY_OUTPUT, CUTLIST_REL, CUTLIST_APPLIED_REL, LEGACY_CUTLIST_REL,
    LEGACY_CUTLIST_APPLIED_REL, ASSETS, LEGACY_ASSETS, ARTBOARD, WORDLINE_REL, LEGACY_WORDLINE_REL, TIMELINE, CUT,
};
use crate::oplog::strings_view;

verus! {

/// The twelve stages of the pipeline (S0 to S11).
pub const STAGE_COUNT: usize = 12;

#[derive(Debug)]
pub struct StageImpact {
    /// The first dirty stage.
    pub first_dirty: String,
    /// The dirty stages.
    pub dirty: Vec<String>,
    /// Which rebuild to run.
    pub hint: String,
    /// Whether the single-clip audio/transition guard applies.
    pub b8_guardrail: bool,
}

pub struct StageImpactV {
    pub first_dirty: Seq<char>,
    pub dirty: Seq<Seq<char>>,
    pub hint: Seq<char>,
    pub b8_guardrail: bool,
}

impl View for StageImpact {
    type V = StageImpactV;
    open spec fn view(&self) -> StageImpactV {
        StageImpactV {
            first_dirty: self.first_dirty@,
            dirty: strings_view(self.dirty@),
            hint: self.hint@,
            b8_guardrail: self.b8_guardrail,
        }
    }
}

pub open spec fn stage_name(i: nat) -> Seq<char> {
    seq!['S'] + dec(i)
}

/// Stage `first` and every stage after it.
pub open spec fn downstream_spec(first: nat) -> Seq<Seq<char>> {
    Seq::new((12 - first) as nat, |k: int| stage_name((first + k) as nat))
}

/// A relative path with backslashes read as slashes.
pub open spec fn norm_path(s: Seq<char>) -> Seq<char> {
    s.map_values(|c: char| if c == '\\' { '/' } else { c })
}

pub open spec fn starts_with(s: Seq<char>, p: Seq<char>) -> bool {
    p.len() <= s.len() && s.take(p.len() as int) == p
}

pub open spec fn rebuild_hint(dir: Seq<char>) -> Seq<char> {
    "python "@ + dir + "/rebuild.py"@
}

pub open spec fn mk_impact(first: nat, dirty: Seq<Seq<char>>, hint: Seq<char>, b8: bool) -> StageImpactV {
    StageImpactV { first_dirty: stage_name(first), dirty, hint, b8_guardrail: b8 }
}

/// The stages a change of a project file makes dirty (the hand-off table);
/// files not in the table mark nothing.
pub open spec fn impact_spec(rel: Seq<char>) -> Option<StageImpactV> {
    let n = norm_path(rel);
    if n == PROJECT_REL@ || n == LEGACY_PROJECT_REL@ {
        Some(mk_impact(3, downstream_spec(3), rebuild_hint(TIMELINE@), true))
    } else if n == OUTPUT@ + "/subtitles.ass"@ || n == LEGACY_OUTPUT@ + "/subtitles.ass"@ {
        Some(mk_impact(8, seq![stage_name(8)], rebuild_hint(OUTPUT@), false))
    } else if n == CUTLIST_REL@ || n == CUTLIST_APPLIED_REL@ || n == LEGACY_CUTLIST_REL@ || n
        == LEGACY_CUTLIST_APPLIED_REL@ {
        Some(mk_impact(2, downstream_spec(2), rebuild_hint(CUT@), false))
    } else if starts_with(n, ASSETS@ + "/"@ + ARTBOARD@ + "/"@) || starts_with(
        n,
        LEGACY_ASSETS@ + "/"@ + ARTBOARD@ + "/"@,
    ) {
        Some(mk_impact(4, downstream_spec(4), rebuild_hint(ASSETS@ + "/"@ + ARTBOARD@), false))
    } else if n == WORDLINE_REL@ || n == LEGACY_WORDLINE_REL@ {
        Some(mk_impact(2, downstream_spec(2), "python rebuild.py --from S2"@, false))
    } else {
        None
    }
}

fn stage_string(i: usize) -> (r: String)
    ensures
        r@ == stage_name(i as nat),
{
    proof {
        reveal_strlit("S");
    }
    let mut s = "S".to_string();
    push_dec(&mut s, i as u64);
    s
}

fn downstream(first: usize) -> (r: Vec<String>)
    requires
        first <= 12,
    ensures
        strings_view(r@) == downstream_spec(first as nat),
{
    let mut out: Vec<String> = Vec::new();
    let mut i: usize = first;
    while i < STAGE_COUNT
        invariant
            first <= i <= 12,
            strings_view(out@) == downstream_spec(first as nat).take(i - first),
        decreases 12 - i,
    {
        let ghost prev = strings_view(out@);
        out.push(stage_string(i));
        assert(strings_view(out@) =~= prev.push(stage_name(i as nat)));
        assert(downstream_spec(first as nat).take(i + 1 - first) =~= downstream_spec(first as nat).take(i - first).push(
            stage_name(i as nat),
        ));
        i += 1;
    }
    assert(downstream_spec(first as nat).take(12 - first) =~= downstream_spec(first as nat));
    out
}

pub fn normalize_path(rel: &str) -> (r: String)
    ensures
        r@ == norm_path(rel@),
{
    proof {
        reveal_strlit("/");
    }
    let n = rel.unicode_len();
    let mut out = String::new();
    let mut i: usize = 0;
    while i < n
        invariant
            n == rel@.len(),
            i <= n,
            out@ == norm_path(rel@.take(i as int)),
        decreases n - i,
    {
        let c = rel.get_char(i);
        let ghost prev = out@;
        proof {
            reveal_strlit("/");
        }
        if c == '\\' {
            out.append("/");
        } else {
            out.append(rel.substring_char(i, i + 1));
        }
        assert(out@ =~= prev.push(if c == '\\' { '/' } else { c }));
        assert(norm_path(rel@.take(i + 1)) =~= norm_path(rel@.take(i as int)).push(if c == '\\' { '/' } else { c }));
        i += 1;
    }
    assert(rel@.take(n as int) =~= rel@);
    out
}

pub fn starts_with_path(s: &str, p: &str) -> (r: bool)
    ensures
        r == starts_with(s@, p@),
{
    let ls = s.unicode_len();
    let lp = p.unicode_len();
    if lp > ls {
        return false;
    }
    let head = s.substring_char(0, lp);
    str_eq(head, p)
}

fn cat(a: &str, b: &str) -> (r: String)
    ensures
        r@ == a@ + b@,
{
    let mut s = a.to_string();
    s.append(b);
    s
}

fn hint_for(dir: &str) -> (r: String)
    ensures
        r@ == rebuild_hint(dir@),
{
    let mut s = "python ".to_string();
    s.append(dir);
    s.append("/rebuild.py");
    s
}

/// The stages a change of the file at `rel` (relative to the project root)
/// makes dirty, or none for a file outside the table.
pub fn impact_for(rel: &str) -> (r: Option<StageImpact>)
    ensures
        match r {
            Some(i) => impact_spec(rel@) == Some(i@),
            None => impact_spec(rel@) is None,
        },
{
    let norm = normalize_path(rel);
    let n = norm.as_str();
    if str_eq(n, PROJECT_REL) || str_eq(n, LEGACY_PROJECT_REL) {
        return Some(StageImpact { first_dirty: stage_string(3), dirty: downstream(3), hint: hint_for(TIMELINE), b8_guardrail: true });
    }
    let sub_new = cat(OUTPUT, "/subtitles.ass");
    let sub_old = cat(LEGACY_OUTPUT, "/subtitles.ass");
    if str_eq(n, sub_new.as_str()) || str_eq(n, sub_old.as_str()) {
        let mut dirty: Vec<String> = Vec::new();
        dirty.push(stage_string(8));
        assert(strings_view(dirty@) =~= seq![stage_name(8)]);
        return Some(StageImpact { first_dirty: stage_string(8), dirty, hint: hint_for(OUTPUT), b8_guardrail: false });
    }
    if str_eq(n, CUTLIST_REL) || str_eq(n, CUTLIST_APPLIED_REL) || str_eq(n, LEGACY_CUTLIST_REL) || str_eq(
        n,
        LEGACY_CUTLIST_APPLIED_REL,
    ) {
        return Some(StageImpact { first_dirty: stage_string(2), dirty: downstream(2), hint: hint_for(CUT), b8_guardrail: false });
    }
    let art = cat(cat(ASSETS, "/").as_str(), ARTBOARD);
    let art_new = cat(art.as_str(), "/");
    let art_old = cat(cat(cat(LEGACY_ASSETS, "/").as_str(), ARTBOARD).as_str(), "/");
    if starts_with_path(n, art_new.as_str()) || starts_with_path(n, art_old.as_str()) {
        return Some(StageImpact {
            first_dirty: stage_string(4),
            dirty: downstream(4),
            hint: hint_for(art.as_str()),
            b8_guardrail: false,
        });
    }
    if str_eq(n, WORDLINE_REL) || str_eq(n, LEGACY_WORDLINE_REL) {
        return Some(StageImpact {
            first_dirty: stage_string(2),
            dirty: downstream(2),
            hint: "python rebuild.py --from S2".to_string(),
            b8_guardrail: false,
        });
    }
    None
}

} // verus!

verus! {

/// What a change of a project file makes dirty does not depend on how its
/// path writes separators (backslashes read as slashes), and it is always a
/// stage with every stage after it, or that stage alone.
pub proof fn law_impact_shape(rel: Seq<char>)
    ensures
        impact_spec(rel) == impact_spec(norm_path(rel)),
        impact_spec(rel) matches Some(i) ==> exists|f: nat|
            f < 12 && #[trigger] stage_name(f) == i.first_dirty && (i.dirty == downstream_spec(f) || i.dirty
                == seq![stage_name(f)]),
{
    assert(norm_path(norm_path(rel)) =~= norm_path(rel));
    let n = norm_path(rel);
    if n == PROJECT_REL@ || n == LEGACY_PROJECT_REL@ {
        assert(stage_name(3) == stage_name(3));
    } else if n == OUTPUT@ + "/subtitles.ass"@ || n == LEGACY_OUTPUT@ + "/subtitles.ass"@ {
        assert(stage_name(8) == stage_name(8));
    } else if n == CUTLIST_REL@ || n == CUTLIST_APPLIED_REL@ || n == LEGACY_CUTLIST_REL@ || n
        == LEGACY_CUTLIST_APPLIED_REL@ {
        assert(stage_name(2) == stage_name(2));
    } else if starts_with(n, ASSETS@ + "/"@ + ARTBOARD@ + "/"@) || starts_with(
        n,
        LEGACY_ASSETS@ + "/"@ + ARTBOARD@ + "/"@,
    ) {
        assert(stage_name(4) == stage_name(4));
    } else if n == WORDLINE_REL@ || n == LEGACY_WORDLINE_REL@ {
        assert(stage_name(2) == stage_name(2));
    }
}

} // verus!

verus! {

/// A change marks its first dirty stage and every later stage up to S11
/// dirty, except a change of the subtitle file, which marks S8 alone.
pub proof fn law_impact_marks_downstream(rel: Seq<char>)
    ensures
        impact_spec(rel) matches Some(i) ==> exists|f: nat|
            f < 12 && #[trigger] stage_name(f) == i.first_dirty && (forall|k: int|
                0 <= k < i.dirty.len() ==> i.dirty[k] == stage_name((f + k) as nat)) && (f != 8 ==> i.dirty.len()
                == 12 - f) && (f == 8 ==> i.dirty.len() == 1),
{
    let n = norm_path(rel);
    if n == PROJECT_REL@ || n == LEGACY_PROJECT_REL@ {
        assert(stage_name(3) == stage_name(3));
    } else if n == OUTPUT@ + "/subtitles.ass"@ || n == LEGACY_OUTPUT@ + "/subtitles.ass"@ {
        assert(stage_name(8) == stage_name(8));
    } else if n == CUTLIST_REL@ || n == CUTLIST_APPLIED_REL@ || n == LEGACY_CUTLIST_REL@ || n
        == LEGACY_CUTLIST_APPLIED_REL@ {
        assert(stage_name(2) == stage_name(2));
    } else if starts_with(n, ASSETS@ + "/"@ + ARTBOARD@ + "/"@) || starts_with(
        n,
        LEGACY_ASSETS@ + "/"@ + ARTBOARD@ + "/"@,
    ) {
        assert(stage_name(4) == stage_name(4));
    } else if n == WORDLINE_REL@ || n == LEGACY_WORDLINE_REL@ {
        assert(stage_name(2) == stage_name(2));
    }
}

} // verus!
