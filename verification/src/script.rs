//! The script host and its sandbox. A script is a batch of steps in the
//! `cutforge-script-v1` format; each step can only call a command tool
//! through a [`ToolDispatch`]. The policy stops a step before dispatch when
//! its tool is not allowed, when it is an orchestration tool and those are
//! off, when an argument is an absolute path outside the project, or when
//! the step count or the time budget is exceeded.

use vstd::prelude::*;
use crate::json::{Json, JVal, str_eq};
use crate::codec::{lookup, get_field};
use crate::oplog::strings_view;

verus! {

/// The calls a dispatcher has received, oldest first: each call's tool and
/// arguments.
pub type CallLog = Seq<(Seq<char>, JVal)>;

/// Tool names, as an allow list holds them.
pub type AllowList = Seq<Seq<char>>;

/// The dispatch side of the command tools (the tool registry, or a stub),
/// implemented by the host. An implementation promises that
/// `allowed_tools` hands out the names `allowed` gives, and that `call`
/// records each call, with its tool and arguments, at the end of `calls`;
/// the script host's guarantees about what reaches the dispatcher rest on
/// these promises.
pub trait ToolDispatch {
    /// The calls this dispatcher has received so far, oldest first.
    spec fn calls(&self) -> CallLog;

    /// The tools this session may call, as names.
    spec fn allowed(&self) -> AllowList;

    /// The tools this session may call.
    fn allowed_tools(&self) -> (r: &Vec<String>)
        ensures
            strings_view(r@) == self.allowed(),
    ;

    /// Runs a tool and returns its result envelope; the call is recorded.
    fn call(&mut self, tool: &str, args: &Json) -> (r: Result<Json, String>)
        ensures
            final(self).calls() == old(self).calls().push((tool@, args@)),
    ;
}

/// The sandbox policy.
#[derive(Debug)]
pub struct Policy {
    pub project_root: String,
    pub max_steps: usize,
    pub timeout_ms: u64,
    /// Orchestration tools (stage runs, render, ...) start processes; they
    /// are off unless enabled.
    pub allow_orchestrate: bool,
}

impl Policy {
    pub fn new(project_root: &str) -> (r: Policy)
        ensures
            r.project_root@ == project_root@,
            r.max_steps == 200,
            r.timeout_ms == 60_000,
            !r.allow_orchestrate,
    {
        Policy { project_root: project_root.to_string(), max_steps: 200, timeout_ms: 60_000, allow_orchestrate: false }
    }
}

pub open spec fn orchestrate_tool(t: Seq<char>) -> bool {
    t == "stage_run"@ || t == "stage_rebuild"@ || t == "verify_run"@ || t == "sync_check"@ || t == "render"@ || t
        == "export_jianying"@
}

pub fn is_orchestrate_tool(t: &str) -> (r: bool)
    ensures
        r == orchestrate_tool(t@),
{
    str_eq(t, "stage_run") || str_eq(t, "stage_rebuild") || str_eq(t, "verify_run") || str_eq(t, "sync_check")
        || str_eq(t, "render") || str_eq(t, "export_jianying")
}

#[derive(Debug)]
pub enum EscapeKind {
    UnknownTool(String),
    OrchestrateDisabled(String),
    PathEscape(String),
    StepOverflow,
    Timeout,
    BadFormat(String),
}

pub enum EscapeKindV {
    UnknownTool(Seq<char>),
    OrchestrateDisabled(Seq<char>),
    PathEscape(Seq<char>),
    StepOverflow,
    Timeout,
    BadFormat(Seq<char>),
}

impl View for EscapeKind {
    type V = EscapeKindV;
    open spec fn view(&self) -> EscapeKindV {
        match self {
            EscapeKind::UnknownTool(s) => EscapeKindV::UnknownTool(s@),
            EscapeKind::OrchestrateDisabled(s) => EscapeKindV::OrchestrateDisabled(s@),
            EscapeKind::PathEscape(s) => EscapeKindV::PathEscape(s@),
            EscapeKind::StepOverflow => EscapeKindV::StepOverflow,
            EscapeKind::Timeout => EscapeKindV::Timeout,
            EscapeKind::BadFormat(s) => EscapeKindV::BadFormat(s@),
        }
    }
}

/// The text of an escape, as reports show it.
pub open spec fn escape_text(e: EscapeKindV) -> Seq<char> {
    match e {
        EscapeKindV::UnknownTool(t) => "GUARD_FAILED: 工具不在允许清单: "@ + t,
        EscapeKindV::OrchestrateDisabled(t) => "GUARD_FAILED: 编排类工具默认禁用: "@ + t,
        EscapeKindV::PathEscape(p) => "GUARD_FAILED: 路径逃逸(工程目录之外): "@ + p,
        EscapeKindV::StepOverflow => "GUARD_FAILED: 步数超限"@,
        EscapeKindV::Timeout => "GUARD_FAILED: 脚本超时"@,
        EscapeKindV::BadFormat(m) => "SCHEMA_INVALID: "@ + m,
    }
}

impl EscapeKind {
    /// The text of the escape.
    pub fn message(&self) -> (r: String)
        ensures
            r@ == escape_text(self@),
    {
        match self {
            EscapeKind::UnknownTool(t) => {
                let mut s = "GUARD_FAILED: 工具不在允许清单: ".to_string();
                s.append(t.as_str());
                s
            },
            EscapeKind::OrchestrateDisabled(t) => {
                let mut s = "GUARD_FAILED: 编排类工具默认禁用: ".to_string();
                s.append(t.as_str());
                s
            },
            EscapeKind::PathEscape(p) => {
                let mut s = "GUARD_FAILED: 路径逃逸(工程目录之外): ".to_string();
                s.append(p.as_str());
                s
            },
            EscapeKind::StepOverflow => "GUARD_FAILED: 步数超限".to_string(),
            EscapeKind::Timeout => "GUARD_FAILED: 脚本超时".to_string(),
            EscapeKind::BadFormat(m) => {
                let mut s = "SCHEMA_INVALID: ".to_string();
                s.append(m.as_str());
                s
            },
        }
    }
}

#[derive(Debug)]
pub struct StepReport {
    pub tool: String,
    pub ok: bool,
    pub code: Option<String>,
}

#[derive(Debug)]
pub struct ScriptReport {
    pub executed: Vec<StepReport>,
    pub rejected: Vec<(usize, String)>,
    /// How many steps reached the dispatcher.
    pub dispatched: usize,
}

impl ScriptReport {
    /// The number of refused steps (none of them reached the dispatcher).
    pub fn escapes(&self) -> (r: usize)
        ensures
            r == self.rejected@.len(),
    {
        self.rejected.len()
    }
}

pub open spec fn is_ascii_alpha(c: char) -> bool {
    ('a' <= c && c <= 'z') || ('A' <= c && c <= 'Z')
}

/// A path that is absolute on Windows (drive letter) or Unix (leading
/// slash or backslash).
pub open spec fn looks_absolute_spec(s: Seq<char>) -> bool {
    (s.len() >= 2 && s[1] == ':' && is_ascii_alpha(s[0])) || (s.len() >= 1 && (s[0] == '/' || s[0] == '\\'))
}

pub fn looks_absolute(s: &str) -> (r: bool)
    ensures
        r == looks_absolute_spec(s@),
{
    let n = s.unicode_len();
    if n >= 2 {
        let c0 = s.get_char(0);
        let c1 = s.get_char(1);
        if c1 == ':' && (('a' <= c0 && c0 <= 'z') || ('A' <= c0 && c0 <= 'Z')) {
            return true;
        }
    }
    if n >= 1 {
        let c0 = s.get_char(0);
        return c0 == '/' || c0 == '\\';
    }
    false
}

pub open spec fn lower_slash(c: char) -> char {
    if c == '\\' {
        '/'
    } else if 'A' <= c && c <= 'Z' {
        ((c as u32) + 32) as char
    } else {
        c
    }
}

/// A path with backslashes as slashes and ASCII letters in lower case.
pub open spec fn fold_path(s: Seq<char>) -> Seq<char> {
    s.map_values(|c: char| lower_slash(c))
}

pub open spec fn trim_slashes(s: Seq<char>) -> Seq<char>
    decreases s.len(),
{
    if s.len() > 0 && s.last() == '/' {
        trim_slashes(s.drop_last())
    } else {
        s
    }
}

/// Whether `candidate` is the project root or lies under it (ignoring ASCII
/// case and the kind of slash).
pub open spec fn is_inside_spec(candidate: Seq<char>, root: Seq<char>) -> bool {
    let n = fold_path(candidate);
    let r = trim_slashes(fold_path(root));
    n == r || crate::stage::starts_with(n, r + seq!['/'])
}

fn fold_path_exec(s: &str) -> (r: String)
    ensures
        r@ == fold_path(s@),
{
    let n = s.unicode_len();
    let mut out = String::new();
    let mut i: usize = 0;
    while i < n
        invariant
            n == s@.len(),
            i <= n,
            out@ == fold_path(s@.take(i as int)),
        decreases n - i,
    {
        let c = s.get_char(i);
        let ghost prev = out@;
        proof {
            reveal_strlit("/");
            reveal_strlit("a");
            reveal_strlit("b");
            reveal_strlit("c");
            reveal_strlit("d");
            reveal_strlit("e");
            reveal_strlit("f");
            reveal_strlit("g");
            reveal_strlit("h");
            reveal_strlit("i");
            reveal_strlit("j");
            reveal_strlit("k");
            reveal_strlit("l");
            reveal_strlit("m");
            reveal_strlit("n");
            reveal_strlit("o");
            reveal_strlit("p");
            reveal_strlit("q");
            reveal_strlit("r");
            reveal_strlit("s");
            reveal_strlit("t");
            reveal_strlit("u");
            reveal_strlit("v");
            reveal_strlit("w");
            reveal_strlit("x");
            reveal_strlit("y");
            reveal_strlit("z");
        }
        if c == '\\' {
            out.append("/");
        } else if 'A' <= c && c <= 'Z' {
            out.append(lower_letter(c));
        } else {
            out.append(s.substring_char(i, i + 1));
        }
        assert(out@ =~= prev.push(lower_slash(c)));
        assert(fold_path(s@.take(i + 1)) =~= fold_path(s@.take(i as int)).push(lower_slash(c)));
        i += 1;
    }
    assert(s@.take(n as int) =~= s@);
    out
}

fn lower_letter(c: char) -> (r: &'static str)
    requires
        'A' <= c && c <= 'Z',
    ensures
        r@ == seq![lower_slash(c)],
{
    let table = "abcdefghijklmnopqrstuvwxyz";
    proof {
        reveal_strlit("abcdefghijklmnopqrstuvwxyz");
    }
    let k = (c as u32 - 'A' as u32) as usize;
    let r = table.substring_char(k, k + 1);
    assert(r@ =~= seq![lower_slash(c)]);
    r
}

/// Whether `candidate` is the project root or lies under it.
pub fn is_inside(candidate: &str, root: &str) -> (r: bool)
    ensures
        r == is_inside_spec(candidate@, root@),
{
    let n = fold_path_exec(candidate);
    let rf = fold_path_exec(root);
    let mut len = rf.as_str().unicode_len();
    let ghost full = rf@;
    assert(full.take(len as int) =~= full);
    while len > 0 && rf.as_str().get_char(len - 1) == '/'
        invariant
            len <= full.len(),
            full == rf@,
            trim_slashes(full) == trim_slashes(full.take(len as int)),
        decreases len,
    {
        assert(full.take(len as int).drop_last() =~= full.take(len - 1));
        len -= 1;
    }
    let r = rf.as_str().substring_char(0, len);
    assert(r@ == full.take(len as int));
    assert(trim_slashes(full.take(len as int)) == full.take(len as int));
    if str_eq(n.as_str(), r) {
        return true;
    }
    let mut with_slash = r.to_string();
    with_slash.append("/");
    proof {
        reveal_strlit("/");
    }
    assert(with_slash@ =~= r@ + seq!['/']);
    crate::stage::starts_with_path(n.as_str(), with_slash.as_str())
}

/// The first absolute path outside the project among the strings of a
/// value (arrays and objects searched in order).
pub open spec fn path_escape(j: JVal, root: Seq<char>) -> Option<Seq<char>>
    decreases j, 1int,
{
    match j {
        JVal::Str(s) => if looks_absolute_spec(s) && !is_inside_spec(s, root) {
            Some(s)
        } else {
            None
        },
        JVal::Arr(a) => first_escape_items(a, root, 0),
        JVal::Obj(fs) => first_escape_members(fs, root, 0),
        _ => None,
    }
}

pub open spec fn first_escape_items(a: Seq<JVal>, root: Seq<char>, i: int) -> Option<Seq<char>>
    decreases a, 0int, a.len() - i,
{
    if i < 0 || i >= a.len() {
        None
    } else {
        match path_escape(a[i], root) {
            Some(p) => Some(p),
            None => first_escape_items(a, root, i + 1),
        }
    }
}

pub open spec fn first_escape_members(fs: Seq<(Seq<char>, JVal)>, root: Seq<char>, i: int) -> Option<Seq<char>>
    decreases fs, 0int, fs.len() - i,
{
    if i < 0 || i >= fs.len() {
        None
    } else {
        match path_escape(fs[i].1, root) {
            Some(p) => Some(p),
            None => first_escape_members(fs, root, i + 1),
        }
    }
}

/// The first absolute path outside the project in a step's arguments.
pub fn find_path_escape(args: &Json, root: &str) -> (r: Option<String>)
    ensures
        crate::model::opt_str(r) == path_escape(args@, root@),
    decreases args,
{
    match args {
        Json::Str(s) => {
            if looks_absolute(s.as_str()) && !is_inside(s.as_str(), root) {
                Some(s.clone())
            } else {
                None
            }
        },
        Json::Arr(a) => {
            let ghost av = crate::json::arr_view(a@);
            proof {
                crate::json::lemma_arr_view(*a);
            }
            let mut i: usize = 0;
            while i < a.len()
                invariant
                    i <= a.len(),
                    *args == Json::Arr(*a),
                    av == crate::json::arr_view(a@),
                    args@ == JVal::Arr(av),
                    first_escape_items(av, root@, 0) == first_escape_items(av, root@, i as int),
                decreases a.len() - i,
            {
                proof {
                    assert(decreases_to!(*args => (*args)->Arr_0));
                    assert(decreases_to!(*args => a@[i as int]));
                }
                assert(av[i as int] == a@[i as int]@);
                match find_path_escape(&a[i], root) {
                    Some(p) => {
                        return Some(p);
                    },
                    None => {},
                }
                i += 1;
            }
            None
        },
        Json::Obj(fs) => {
            let ghost fv = crate::json::fields_view(fs@);
            proof {
                crate::json::lemma_fields_view(*fs);
            }
            let mut i: usize = 0;
            while i < fs.len()
                invariant
                    i <= fs.len(),
                    *args == Json::Obj(*fs),
                    fv == crate::json::fields_view(fs@),
                    args@ == JVal::Obj(fv),
                    first_escape_members(fv, root@, 0) == first_escape_members(fv, root@, i as int),
                decreases fs.len() - i,
            {
                proof {
                    assert(decreases_to!(*args => (*args)->Obj_0));
                    assert(decreases_to!(*args => fs@[i as int].1));
                }
                assert(fv[i as int].1 == fs@[i as int].1@);
                match find_path_escape(&fs[i].1, root) {
                    Some(p) => {
                        return Some(p);
                    },
                    None => {},
                }
                i += 1;
            }
            None
        },
        _ => None,
    }
}

/// The allow list from tool names.
pub fn allow_list(names: &[&str]) -> (r: Vec<String>)
    ensures
        r@.len() == names@.len(),
        forall|i: int| 0 <= i < names@.len() ==> #[trigger] r@[i]@ == names@[i]@,
{
    let mut out: Vec<String> = Vec::new();
    let mut i: usize = 0;
    while i < names.len()
        invariant
            i <= names.len(),
            out@.len() == i,
            forall|k: int| 0 <= k < i ==> #[trigger] out@[k]@ == names@[k]@,
        decreases names.len() - i,
    {
        out.push(names[i].to_string());
        i += 1;
    }
    out
}

} // verus!

verus! {

/// Whether a result envelope says `ok: true`.
pub open spec fn envelope_ok(env: JVal) -> bool {
    env matches JVal::Obj(fs) && lookup(fs, "ok"@) == Some(JVal::Bool(true))
}

/// The string `code` of a result envelope, if it has one.
pub open spec fn envelope_code(env: JVal) -> Option<Seq<char>> {
    match env {
        JVal::Obj(fs) => match lookup(fs, "code"@) {
            Some(JVal::Str(c)) => Some(c),
            _ => None,
        },
        _ => None,
    }
}

pub open spec fn outcome_view(o: Result<Json, String>) -> Result<JVal, Seq<char>> {
    match o {
        Ok(env) => Ok(env@),
        Err(e) => Err(e@),
    }
}

/// A step report as (tool, ok, code).
pub open spec fn step_view(s: StepReport) -> (Seq<char>, bool, Option<Seq<char>>) {
    (s.tool@, s.ok, match s.code {
        Some(c) => Some(c@),
        None => None,
    })
}

/// The report of a step whose dispatch gave `outcome`: an envelope is read
/// for its `ok` and `code`; a dispatcher error is a failed step whose code
/// is the error text.
pub open spec fn report_spec(tool: Seq<char>, outcome: Result<JVal, Seq<char>>) -> (Seq<char>, bool, Option<Seq<char>>) {
    match outcome {
        Ok(env) => (tool, envelope_ok(env), envelope_code(env)),
        Err(e) => (tool, false, Some(e)),
    }
}

/// The report of one dispatched step.
pub fn step_report(tool: String, outcome: Result<Json, String>) -> (r: StepReport)
    ensures
        step_view(r) == report_spec(tool@, outcome_view(outcome)),
{
    match outcome {
        Ok(envelope) => {
            let (ok, code) = match &envelope {
                Json::Obj(efs) => {
                    proof {
                        crate::json::lemma_fields_view(*efs);
                    }
                    let ok = match get_field(efs, "ok") {
                        Some(Json::Bool(b)) => *b,
                        _ => false,
                    };
                    let code = match get_field(efs, "code") {
                        Some(Json::Str(c)) => Some(c.clone()),
                        _ => None,
                    };
                    (ok, code)
                },
                _ => (false, None),
            };
            StepReport { tool, ok, code }
        },
        Err(e) => StepReport { tool, ok: false, code: Some(e) },
    }
}

/// The calls a run hands the dispatcher when it executes the first `n`
/// steps: each step's tool and arguments, in order.
pub open spec fn step_calls(steps: Seq<JVal>, n: int) -> CallLog {
    Seq::new(n as nat, |k: int| (step_tool(steps[k])->0, step_args(steps[k])))
}

/// Step report `s`, the `k`-th of a run that had `dispatched` answered
/// steps, is what dispatch outcome `outcome` of tool `tool` gives: an
/// envelope for an answered step, a dispatcher error otherwise.
pub open spec fn reported_as(s: StepReport, tool: Seq<char>, outcome: Result<JVal, Seq<char>>, k: int, dispatched: int) -> bool {
    step_view(s) == report_spec(tool, outcome) && (outcome is Ok <==> k < dispatched)
}

#[verifier::external_type_specification]
#[verifier::external_body]
pub struct ExInstant(std::time::Instant);

/// `Instant::now`: a reading of the monotonic clock (nothing is promised of
/// its value).
#[verifier::external_body]
fn instant_now() -> std::time::Instant {
    std::time::Instant::now()
}

/// `Instant::elapsed` in whole milliseconds (nothing is promised of the
/// value: it depends on the clock).
#[verifier::external_body]
fn elapsed_ms(start: &std::time::Instant) -> u128 {
    start.elapsed().as_millis()
}

pub open spec fn script_format_ok(s: JVal) -> bool {
    s matches JVal::Obj(fs) && lookup(fs, "format"@) == Some(JVal::Str("cutforge-script-v1"@))
}

pub open spec fn script_steps(s: JVal) -> Option<Seq<JVal>> {
    match s {
        JVal::Obj(fs) => match lookup(fs, "steps"@) {
            Some(JVal::Arr(a)) => Some(a),
            _ => None,
        },
        _ => None,
    }
}

pub open spec fn step_tool(step: JVal) -> Option<Seq<char>> {
    match step {
        JVal::Obj(fs) => match lookup(fs, "tool"@) {
            Some(JVal::Str(t)) => Some(t),
            _ => None,
        },
        _ => None,
    }
}

/// A step's arguments (an empty object when it has none).
pub open spec fn step_args(step: JVal) -> JVal {
    match step {
        JVal::Obj(fs) => match lookup(fs, "args"@) {
            Some(a) => a,
            None => JVal::Obj(Seq::empty()),
        },
        _ => JVal::Obj(Seq::empty()),
    }
}

/// Why the sandbox stops a step before dispatch, if it does.
pub open spec fn step_check(step: JVal, allowed: Seq<Seq<char>>, p: Policy) -> Option<EscapeKindV> {
    match step_tool(step) {
        None => Some(EscapeKindV::BadFormat("步骤缺 tool"@)),
        Some(t) => if !allowed.contains(t) {
            Some(EscapeKindV::UnknownTool(t))
        } else if !p.allow_orchestrate && orchestrate_tool(t) {
            Some(EscapeKindV::OrchestrateDisabled(t))
        } else {
            match path_escape(step_args(step), p.project_root@) {
                Some(x) => Some(EscapeKindV::PathEscape(x)),
                None => None,
            }
        },
    }
}

pub open spec fn escape_view(r: Result<ScriptReport, EscapeKind>) -> Option<EscapeKindV> {
    match r {
        Ok(_) => None,
        Err(e) => Some(e@),
    }
}

fn contains_string(v: &Vec<String>, s: &str) -> (r: bool)
    ensures
        r == strings_view(v@).contains(s@),
{
    let mut i: usize = 0;
    while i < v.len()
        invariant
            i <= v.len(),
            forall|k: int| 0 <= k < i ==> v@[k]@ != s@,
        decreases v.len() - i,
    {
        if str_eq(v[i].as_str(), s) {
            assert(strings_view(v@)[i as int] == s@);
            return true;
        }
        i += 1;
    }
    assert forall|k: int| 0 <= k < strings_view(v@).len() implies strings_view(v@)[k] != s@ by {
        assert(strings_view(v@)[k] == v@[k]@);
    }
    false
}

fn check_step(step: &Json, allowed: &Vec<String>, policy: &Policy) -> (r: Result<(String, Json), EscapeKind>)
    ensures
        match r {
            Ok((t, a)) => step_check(step@, strings_view(allowed@), *policy) is None && step_tool(step@) == Some(t@)
                && a@ == step_args(step@),
            Err(e) => step_check(step@, strings_view(allowed@), *policy) == Some(e@),
        },
{
    let tool = match step {
        Json::Obj(fs) => {
            proof {
                crate::json::lemma_fields_view(*fs);
            }
            match get_field(fs, "tool") {
                Some(Json::Str(t)) => t.clone(),
                _ => {
                    return Err(EscapeKind::BadFormat("步骤缺 tool".to_string()));
                },
            }
        },
        _ => {
            return Err(EscapeKind::BadFormat("步骤缺 tool".to_string()));
        },
    };
    if !contains_string(allowed, tool.as_str()) {
        return Err(EscapeKind::UnknownTool(tool));
    }
    if !policy.allow_orchestrate && is_orchestrate_tool(tool.as_str()) {
        return Err(EscapeKind::OrchestrateDisabled(tool));
    }
    let args = match step {
        Json::Obj(fs) => match get_field(fs, "args") {
            Some(a) => a.deep_copy(),
            None => {
                let e: Vec<(String, Json)> = Vec::new();
                proof {
                    crate::json::lemma_fields_view(e);
                    assert(crate::json::fields_view(e@) =~= Seq::<(Seq<char>, JVal)>::empty());
                }
                Json::Obj(e)
            },
        },
        _ => {
            let e: Vec<(String, Json)> = Vec::new();
            Json::Obj(e)
        },
    };
    match find_path_escape(&args, policy.project_root.as_str()) {
        Some(p) => Err(EscapeKind::PathEscape(p)),
        None => Ok((tool, args)),
    }
}

/// What a finished run reports, given the allow list it checked against:
/// the executed steps, in order, each a step that passed every check; at
/// most one refused step, the one right after them, refused for the time
/// budget or for the reason its check gives; when nothing was refused and
/// every executed step got an answer, all steps executed; and each executed
/// step reports what its dispatch gave, an envelope for the answered ones and
/// a dispatcher error for the one after them, if any.
pub open spec fn run_ok(script: JVal, allowed: Seq<Seq<char>>, policy: Policy, rep: ScriptReport) -> bool {
    let steps = script_steps(script)->0;
    &&& rep.executed@.len() <= steps.len()
    &&& rep.dispatched <= rep.executed@.len() <= rep.dispatched + 1
    &&& forall|k: int|
        0 <= k < rep.executed@.len() ==> step_tool(steps[k]) == Some(#[trigger] rep.executed@[k].tool@)
            && step_check(steps[k], allowed, policy) is None
    &&& rep.rejected@.len() <= 1
    &&& rep.rejected@.len() == 1 ==> {
        let (i, msg) = rep.rejected@[0];
        &&& i == rep.executed@.len()
        &&& i < steps.len()
        &&& msg@ == escape_text(EscapeKindV::Timeout) || (step_check(steps[i as int], allowed, policy) matches Some(e)
            && msg@ == escape_text(e))
    }
    &&& rep.rejected@.len() == 0 && rep.dispatched == rep.executed@.len() ==> rep.executed@.len() == steps.len()
    &&& forall|k: int|
        #![trigger rep.executed@[k]]
        0 <= k < rep.executed@.len() ==> exists|o: Result<JVal, Seq<char>>|
            #[trigger] reported_as(rep.executed@[k], rep.executed@[k].tool@, o, k, rep.dispatched as int)
}

/// No escape reaches the dispatcher: every call a run hands the dispatcher
/// is, in order, the tool and arguments of a step that passed every policy
/// check, and a refused step comes after all of them.
pub proof fn law_escapes_never_dispatched(
    script: JVal,
    allowed: Seq<Seq<char>>,
    policy: Policy,
    rep: ScriptReport,
    before: CallLog,
    after: CallLog,
)
    requires
        script_steps(script) is Some,
        run_ok(script, allowed, policy, rep),
        after == before + step_calls(script_steps(script)->0, rep.executed@.len() as int),
    ensures
        after.len() == before.len() + rep.executed@.len(),
        forall|k: int|
            0 <= k < rep.executed@.len() ==> {
                let step = #[trigger] script_steps(script)->0[k];
                &&& step_check(step, allowed, policy) is None
                &&& after[before.len() + k] == (step_tool(step)->0, step_args(step))
            },
        forall|j: int| 0 <= j < rep.rejected@.len() ==> (#[trigger] rep.rejected@[j]).0 == rep.executed@.len(),
{
    let steps = script_steps(script)->0;
    assert forall|k: int| 0 <= k < rep.executed@.len() implies {
        let step = #[trigger] steps[k];
        &&& step_check(step, allowed, policy) is None
        &&& after[before.len() + k] == (step_tool(step)->0, step_args(step))
    } by {
        assert(step_tool(steps[k]) == Some(rep.executed@[k].tool@));
        assert(after[before.len() + k] == step_calls(steps, rep.executed@.len() as int)[k]);
    }
}

proof fn lemma_run_ok(script: JVal, allowed: Seq<Seq<char>>, policy: Policy, rep: ScriptReport, sv: Seq<JVal>)
    requires
        script_steps(script) == Some(sv),
        rep.executed@.len() <= sv.len(),
        rep.dispatched <= rep.executed@.len() <= rep.dispatched + 1,
        forall|k: int|
            0 <= k < rep.executed@.len() ==> step_tool(sv[k]) == Some(#[trigger] rep.executed@[k].tool@)
                && step_check(sv[k], allowed, policy) is None,
        rep.rejected@.len() <= 1,
        rep.rejected@.len() == 1 ==> {
            let (i, msg) = rep.rejected@[0];
            &&& i == rep.executed@.len()
            &&& i < sv.len()
            &&& msg@ == escape_text(EscapeKindV::Timeout) || (step_check(sv[i as int], allowed, policy) matches Some(e)
                && msg@ == escape_text(e))
        },
        rep.rejected@.len() == 0 && rep.dispatched == rep.executed@.len() ==> rep.executed@.len() == sv.len(),
        forall|k: int|
            #![trigger rep.executed@[k]]
            0 <= k < rep.executed@.len() ==> exists|o: Result<JVal, Seq<char>>|
                #[trigger] reported_as(rep.executed@[k], rep.executed@[k].tool@, o, k, rep.dispatched as int),
    ensures
        run_ok(script, allowed, policy, rep),
{
}

/// Runs a batch script against the allow list the dispatcher reports when
/// the run starts: the run is the one `run_steps` describes for that list,
/// so a step whose tool is not on it is refused before dispatch, and at
/// most one step is refused.
pub fn run_script<D: ToolDispatch>(script: &Json, dispatcher: &mut D, policy: &Policy) -> (r: Result<
    ScriptReport,
    EscapeKind,
>)
    ensures
        !script_format_ok(script@) ==> escape_view(r) == Some(EscapeKindV::BadFormat("缺 format: cutforge-script-v1"@)),
        script_format_ok(script@) && script_steps(script@) is None ==> escape_view(r) == Some(
            EscapeKindV::BadFormat("缺 steps 数组"@),
        ),
        script_format_ok(script@) && script_steps(script@) is Some && script_steps(script@)->0.len() > policy.max_steps
            ==> escape_view(r) == Some(EscapeKindV::StepOverflow),
        script_format_ok(script@) && script_steps(script@) is Some && script_steps(script@)->0.len() <= policy.max_steps
            ==> r is Ok,
        r matches Ok(rep) ==> run_ok(script@, old(dispatcher).allowed(), *policy, rep),
        r matches Ok(rep) ==> rep.rejected@.len() <= 1,
        r matches Ok(rep) ==> final(dispatcher).calls() == old(dispatcher).calls() + step_calls(
            script_steps(script@)->0,
            rep.executed@.len() as int,
        ),
        r is Err ==> final(dispatcher).calls() == old(dispatcher).calls(),
{
    let allowed = crate::oplog::copy_strings(dispatcher.allowed_tools());
    assert(strings_view(allowed@) == old(dispatcher).allowed());
    run_steps(script, &allowed, dispatcher, policy)
}

/// Runs a batch script against the allow list `allowed`. A script that is not well formed is refused as a
/// whole; a step that breaks the policy is reported in `rejected` and ends
/// the run (it never reaches the dispatcher). The allow list is the one the
/// dispatcher reports when the run starts.
#[verifier::rlimit(60)]
#[verifier::spinoff_prover]
pub fn run_steps<D: ToolDispatch>(script: &Json, allowed: &Vec<String>, dispatcher: &mut D, policy: &Policy) -> (r: Result<
    ScriptReport,
    EscapeKind,
>)
    ensures
        !script_format_ok(script@) ==> escape_view(r) == Some(EscapeKindV::BadFormat("缺 format: cutforge-script-v1"@)),
        script_format_ok(script@) && script_steps(script@) is None ==> escape_view(r) == Some(
            EscapeKindV::BadFormat("缺 steps 数组"@),
        ),
        script_format_ok(script@) && script_steps(script@) is Some && script_steps(script@)->0.len() > policy.max_steps
            ==> escape_view(r) == Some(EscapeKindV::StepOverflow),
        script_format_ok(script@) && script_steps(script@) is Some && script_steps(script@)->0.len() <= policy.max_steps
            ==> r is Ok,
        r matches Ok(rep) ==> run_ok(script@, strings_view(allowed@), *policy, rep),
        r matches Ok(rep) ==> final(dispatcher).calls() == old(dispatcher).calls() + step_calls(
            script_steps(script@)->0,
            rep.executed@.len() as int,
        ),
        r is Err ==> final(dispatcher).calls() == old(dispatcher).calls(),
{
    let fs = match script {
        Json::Obj(fs) => fs,
        _ => {
            return Err(EscapeKind::BadFormat("缺 format: cutforge-script-v1".to_string()));
        },
    };
    proof {
        crate::json::lemma_fields_view(*fs);
    }
    let format_ok = match get_field(fs, "format") {
        Some(Json::Str(f)) => str_eq(f.as_str(), "cutforge-script-v1"),
        _ => false,
    };
    if !format_ok {
        return Err(EscapeKind::BadFormat("缺 format: cutforge-script-v1".to_string()));
    }
    let steps = match get_field(fs, "steps") {
        Some(Json::Arr(a)) => a,
        _ => {
            return Err(EscapeKind::BadFormat("缺 steps 数组".to_string()));
        },
    };
    proof {
        crate::json::lemma_arr_view(*steps);
    }
    let ghost sv = crate::json::arr_view(steps@);
    assert(script_steps(script@) == Some(sv));
    if steps.len() > policy.max_steps {
        return Err(EscapeKind::StepOverflow);
    }
    let ghost allowed_v = strings_view(allowed@);
    let ghost calls0 = dispatcher.calls();
    assert(calls0 + step_calls(sv, 0) =~= calls0);
    let started = instant_now();
    let mut report = ScriptReport { executed: Vec::new(), rejected: Vec::new(), dispatched: 0 };
    let mut i: usize = 0;
    let mut stopped = false;
    while i < steps.len() && !stopped
        invariant
            i <= steps.len(),
            sv == crate::json::arr_view(steps@),
            strings_view(allowed@) == allowed_v,
            !stopped ==> report.executed@.len() == i && report.rejected@.len() == 0 && report.dispatched == i,
            stopped ==> report.executed@.len() <= steps.len() && report.dispatched <= report.executed@.len()
                <= report.dispatched + 1 && report.rejected@.len() <= 1 && (report.rejected@.len() == 1 ==> {
                let (k, msg) = report.rejected@[0];
                &&& k == report.executed@.len()
                &&& k < steps.len()
                &&& msg@ == escape_text(EscapeKindV::Timeout) || (step_check(sv[k as int], allowed_v, *policy) matches Some(
                    e,
                ) && msg@ == escape_text(e))
            }) && (report.rejected@.len() == 0 ==> report.dispatched + 1 == report.executed@.len()),
            forall|k: int|
                0 <= k < report.executed@.len() ==> step_tool(sv[k]) == Some(#[trigger] report.executed@[k].tool@)
                    && step_check(sv[k], allowed_v, *policy) is None,
            forall|k: int|
                #![trigger report.executed@[k]]
                0 <= k < report.executed@.len() ==> exists|o: Result<JVal, Seq<char>>|
                    #[trigger] reported_as(report.executed@[k], report.executed@[k].tool@, o, k, report.dispatched as int),
            dispatcher.calls() == calls0 + step_calls(sv, report.executed@.len() as int),
        decreases steps.len() - i + (if stopped { 0int } else { 1int }),
    {
        if elapsed_ms(&started) > policy.timeout_ms as u128 {
            report.rejected.push((i, EscapeKind::Timeout.message()));
            stopped = true;
        } else {
            assert(sv[i as int] == steps@[i as int]@);
            match check_step(&steps[i], &allowed, policy) {
                Err(e) => {
                    report.rejected.push((i, e.message()));
                    stopped = true;
                },
                Ok((tool, args)) => {
                    let ghost n = report.executed@.len() as int;
                    let ghost old_exec = report.executed@;
                    let ghost old_disp = report.dispatched as int;
                    let res = dispatcher.call(tool.as_str(), &args);
                    let ghost ov = outcome_view(res);
                    proof {
                        assert(step_calls(sv, n + 1) =~= step_calls(sv, n).push((tool@, args@)));
                        assert(calls0 + step_calls(sv, n + 1) =~= (calls0 + step_calls(sv, n)).push((tool@, args@)));
                    }
                    let answered = res.is_ok();
                    let sr = step_report(tool, res);
                    if answered {
                        report.dispatched += 1;
                        report.executed.push(sr);
                        i += 1;
                    } else {
                        report.executed.push(sr);
                        stopped = true;
                    }
                    proof {
                        assert(report.executed@[n] == sr);
                        assert(reported_as(report.executed@[n], report.executed@[n].tool@, ov, n, report.dispatched as int));
                        assert forall|k: int| #![trigger report.executed@[k]] 0 <= k < report.executed@.len() implies exists|o: Result<JVal, Seq<char>>|
                            #[trigger] reported_as(report.executed@[k], report.executed@[k].tool@, o, k, report.dispatched as int) by {
                            if k < n {
                                assert(report.executed@[k] == old_exec[k]);
                                let o = choose|o: Result<JVal, Seq<char>>| #[trigger] reported_as(old_exec[k], old_exec[k].tool@, o, k, old_disp);
                                assert(reported_as(report.executed@[k], report.executed@[k].tool@, o, k, report.dispatched as int));
                            } else {
                                assert(reported_as(report.executed@[k], report.executed@[k].tool@, ov, k, report.dispatched as int));
                            }
                        }
                    }
                },
            }
        }
    }
    assert(report.executed@.len() <= sv.len());
    proof {
        lemma_run_ok(script@, allowed_v, *policy, report, sv);
    }
    assert(report.rejected@.len() == 0 && report.dispatched == report.executed@.len() ==> report.executed@.len() == sv.len());
    Ok(report)
}

} // verus!
