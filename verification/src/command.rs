//! Commands: every change of state is one command, which the engine turns
//! into an op. There is no other way to write.

use vstd::prelude::*;
use crate::json::{Json, JNum, JVal, NumV, json_eq};
use crate::model::{Clip, ClipV, opt_str, opt_num};
use crate::codec::num_u;

verus! {

/// A clip property patch: only the fields present are changed.
#[derive(Debug)]
pub struct ClipPatch {
    pub start_ms: Option<u64>,
    pub duration_ms: Option<u64>,
    pub source_in_ms: Option<u64>,
    pub speed: Option<JNum>,
    pub volume: Option<JNum>,
    pub opacity: Option<JNum>,
    pub scale: Option<JNum>,
    pub text: Option<String>,
    pub freeze_ms: Option<u64>,
}

pub struct ClipPatchV {
    pub start_ms: Option<u64>,
    pub duration_ms: Option<u64>,
    pub source_in_ms: Option<u64>,
    pub speed: Option<NumV>,
    pub volume: Option<NumV>,
    pub opacity: Option<NumV>,
    pub scale: Option<NumV>,
    pub text: Option<Seq<char>>,
    pub freeze_ms: Option<u64>,
}

impl View for ClipPatch {
    type V = ClipPatchV;
    open spec fn view(&self) -> ClipPatchV {
        ClipPatchV {
            start_ms: self.start_ms,
            duration_ms: self.duration_ms,
            source_in_ms: self.source_in_ms,
            speed: opt_num(self.speed),
            volume: opt_num(self.volume),
            opacity: opt_num(self.opacity),
            scale: opt_num(self.scale),
            text: opt_str(self.text),
            freeze_ms: self.freeze_ms,
        }
    }
}

pub open spec fn patch_is_empty(p: ClipPatchV) -> bool {
    &&& p.start_ms is None
    &&& p.duration_ms is None
    &&& p.source_in_ms is None
    &&& p.speed is None
    &&& p.volume is None
    &&& p.opacity is None
    &&& p.scale is None
    &&& p.text is None
    &&& p.freeze_ms is None
}

/// The clip with the patch's fields written over it.
pub open spec fn patch_apply(p: ClipPatchV, c: ClipV) -> ClipV {
    ClipV {
        start_ms: match p.start_ms {
            Some(v) => v,
            None => c.start_ms,
        },
        duration_ms: match p.duration_ms {
            Some(v) => v,
            None => c.duration_ms,
        },
        source_in_ms: match p.source_in_ms {
            Some(v) => Some(v),
            None => c.source_in_ms,
        },
        speed: match p.speed {
            Some(v) => Some(v),
            None => c.speed,
        },
        volume: match p.volume {
            Some(v) => Some(v),
            None => c.volume,
        },
        opacity: match p.opacity {
            Some(v) => Some(v),
            None => c.opacity,
        },
        scale: match p.scale {
            Some(v) => Some(v),
            None => c.scale,
        },
        text: match p.text {
            Some(v) => Some(v),
            None => c.text,
        },
        freeze_ms: match p.freeze_ms {
            Some(v) => Some(v),
            None => c.freeze_ms,
        },
        ..c
    }
}

pub open spec fn u64_or_null(o: Option<u64>) -> JVal {
    match o {
        Some(n) => num_u(n),
        None => JVal::Null,
    }
}

pub open spec fn num_or_null(o: Option<NumV>) -> JVal {
    match o {
        Some(n) => JVal::Num(n),
        None => JVal::Null,
    }
}

pub open spec fn str_or_null(o: Option<Seq<char>>) -> JVal {
    match o {
        Some(s) => JVal::Str(s),
        None => JVal::Null,
    }
}

/// A field change `(/name, old, new)`, recorded only when the value differs.
pub open spec fn record(
    acc: Seq<(Seq<char>, JVal, JVal)>,
    name: Seq<char>,
    old: JVal,
    new: JVal,
) -> Seq<(Seq<char>, JVal, JVal)> {
    if old != new {
        acc.push((seq!['/'] + name, old, new))
    } else {
        acc
    }
}

/// The field-level changes a patch makes to a clip, in field order.
pub open spec fn patch_changes(p: ClipPatchV, c: ClipV) -> Seq<(Seq<char>, JVal, JVal)> {
    let a0 = Seq::empty();
    let a1 = match p.start_ms {
        Some(v) => record(a0, "startMs"@, num_u(c.start_ms), num_u(v)),
        None => a0,
    };
    let a2 = match p.duration_ms {
        Some(v) => record(a1, "durationMs"@, num_u(c.duration_ms), num_u(v)),
        None => a1,
    };
    let a3 = match p.source_in_ms {
        Some(v) => record(a2, "sourceInMs"@, u64_or_null(c.source_in_ms), num_u(v)),
        None => a2,
    };
    let a4 = match p.speed {
        Some(v) => record(a3, "speed"@, num_or_null(c.speed), JVal::Num(v)),
        None => a3,
    };
    let a5 = match p.volume {
        Some(v) => record(a4, "volume"@, num_or_null(c.volume), JVal::Num(v)),
        None => a4,
    };
    let a6 = match p.opacity {
        Some(v) => record(a5, "opacity"@, num_or_null(c.opacity), JVal::Num(v)),
        None => a5,
    };
    let a7 = match p.scale {
        Some(v) => record(a6, "scale"@, num_or_null(c.scale), JVal::Num(v)),
        None => a6,
    };
    let a8 = match p.text {
        Some(v) => record(a7, "text"@, str_or_null(c.text), JVal::Str(v)),
        None => a7,
    };
    match p.freeze_ms {
        Some(v) => record(a8, "freezeMs"@, u64_or_null(c.freeze_ms), num_u(v)),
        None => a8,
    }
}

pub open spec fn changes_view(v: Seq<(String, Json, Json)>) -> Seq<(Seq<char>, JVal, JVal)> {
    v.map_values(|x: (String, Json, Json)| (x.0@, x.1@, x.2@))
}

fn record_change(changes: &mut Vec<(String, Json, Json)>, name: &str, was: Json, now: Json)
    ensures
        changes_view(final(changes)@) == record(changes_view(old(changes)@), name@, was@, now@),
{
    let old = was;
    let new = now;
    if !json_eq(&old, &new) {
        proof {
            reveal_strlit("/");
        }
        let mut ptr = "/".to_string();
        ptr.append(name);
        assert(ptr@ =~= seq!['/'] + name@);
        let ghost prev = changes@;
        let ghost ov = old@;
        let ghost nv = new@;
        changes.push((ptr, old, new));
        assert(changes_view(changes@) =~= changes_view(prev).push((seq!['/'] + name@, ov, nv)));
    }
}

fn u64_j(n: u64) -> (r: Json)
    ensures
        r@ == num_u(n),
{
    Json::Num(JNum::PosInt(n))
}

fn u64_or_null_j(o: Option<u64>) -> (r: Json)
    ensures
        r@ == u64_or_null(o),
{
    match o {
        Some(n) => Json::Num(JNum::PosInt(n)),
        None => Json::Null,
    }
}

fn num_or_null_j(o: &Option<JNum>) -> (r: Json)
    ensures
        r@ == num_or_null(opt_num(*o)),
{
    match o {
        Some(n) => Json::Num(n.copy_num()),
        None => Json::Null,
    }
}

impl Default for ClipPatch {
    /// The empty patch: no field set.
    fn default() -> (r: ClipPatch)
        ensures
            patch_is_empty(r@),
    {
        ClipPatch {
            start_ms: None,
            duration_ms: None,
            source_in_ms: None,
            speed: None,
            volume: None,
            opacity: None,
            scale: None,
            text: None,
            freeze_ms: None,
        }
    }
}

impl ClipPatch {
    pub fn is_empty(&self) -> (r: bool)
        ensures
            r == patch_is_empty(self@),
    {
        self.start_ms.is_none() && self.duration_ms.is_none() && self.source_in_ms.is_none() && self.speed.is_none()
            && self.volume.is_none() && self.opacity.is_none() && self.scale.is_none() && self.text.is_none()
            && self.freeze_ms.is_none()
    }

    /// Applies the patch to `clip` and returns the field-level changes
    /// (pointer relative to the clip, old value, new value).
    pub fn apply_to(self, clip: &mut Clip) -> (r: Vec<(String, Json, Json)>)
        ensures
            final(clip)@ == patch_apply(self@, old(clip)@),
            changes_view(r@) == patch_changes(self@, old(clip)@),
    {
        let ghost c0 = clip@;
        let ghost p = self@;
        let mut changes: Vec<(String, Json, Json)> = Vec::new();
        assert(changes_view(changes@) =~= Seq::<(Seq<char>, JVal, JVal)>::empty());
        if let Some(v) = self.start_ms {
            let old = clip.start_ms;
            clip.start_ms = v;
            record_change(&mut changes, "startMs", u64_j(old), u64_j(v));
        }
        if let Some(v) = self.duration_ms {
            let old = clip.duration_ms;
            clip.duration_ms = v;
            record_change(&mut changes, "durationMs", u64_j(old), u64_j(v));
        }
        if let Some(v) = self.source_in_ms {
            let old = clip.source_in_ms;
            clip.source_in_ms = Some(v);
            record_change(&mut changes, "sourceInMs", u64_or_null_j(old), u64_j(v));
        }
        if let Some(v) = self.speed {
            let old = num_or_null_j(&clip.speed);
            let new = Json::Num(v.copy_num());
            clip.speed = Some(v);
            record_change(&mut changes, "speed", old, new);
        }
        if let Some(v) = self.volume {
            let old = num_or_null_j(&clip.volume);
            let new = Json::Num(v.copy_num());
            clip.volume = Some(v);
            record_change(&mut changes, "volume", old, new);
        }
        if let Some(v) = self.opacity {
            let old = num_or_null_j(&clip.opacity);
            let new = Json::Num(v.copy_num());
            clip.opacity = Some(v);
            record_change(&mut changes, "opacity", old, new);
        }
        if let Some(v) = self.scale {
            let old = num_or_null_j(&clip.scale);
            let new = Json::Num(v.copy_num());
            clip.scale = Some(v);
            record_change(&mut changes, "scale", old, new);
        }
        if let Some(v) = self.text {
            let old = match &clip.text {
                Some(t) => Json::Str(t.clone()),
                None => Json::Null,
            };
            let new = Json::Str(v.clone());
            clip.text = Some(v);
            record_change(&mut changes, "text", old, new);
        }
        if let Some(v) = self.freeze_ms {
            let old = clip.freeze_ms;
            clip.freeze_ms = Some(v);
            record_change(&mut changes, "freezeMs", u64_or_null_j(old), u64_j(v));
        }
        changes
    }
}

/// The high-level commands.
#[allow(inconsistent_fields)]
#[derive(Debug)]
pub enum Command {
    /// Change clip properties (idempotent: the same patch twice gives the
    /// same result).
    ClipUpdate { clip_id: String, patch: ClipPatch },
    /// Split a clip at an instant (splitting again where a clip already
    /// starts returns the existing result).
    ClipSplit { clip_id: String, t_ms: u64 },
    /// Delete a clip.
    ClipDelete { clip_id: String },
    /// Move a clip (new start; optionally to another track of the same kind).
    ClipMove { clip_id: String, new_start_ms: u64, to_track: Option<String> },
    /// Insert a clip (non-idempotent writes carry a request id).
    ClipInsert { to_track: String, clip: Clip, request_id: Option<String> },
    /// Merge two adjacent clips (left first, touching edges).
    ClipMerge { left_id: String, right_id: String },
}

} // verus!
