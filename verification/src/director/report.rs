//! What the host reads, as JSON.

use super::events::{gesture_name, handedness_name};
use crate::decimals::{decimal_of, signed_of};
use crate::features::gaze::state::{FocusResult, Gaze};
use crate::features::hand::gesture::GestureEvent;
use crate::ieee::{F32, F64};
use vstd::prelude::*;
use vstd::string::StringExecFns;

verus! {

use super::events::{gesture_text, handedness_text};
use crate::decimals::{decimal, signed};
use crate::features::gaze::state::status_name;

/// Numbers as texts, from the caller.
pub trait Print {
    /// With so many places behind the point.
    fn fixed(&self, v: F32, places: u32) -> String;

    fn fixed64(&self, v: F64, places: u32) -> String;
}

pub open spec fn truth_text(b: bool) -> Seq<char> {
    if b {
        "true"@
    } else {
        "false"@
    }
}

/// `s` is the text of an angle; "null" without one.
pub open spec fn angle_text<P: Print>(p: &P, v: Option<F32>, s: Seq<char>) -> bool {
    match v {
        Some(x) => exists|t: String| #[trigger]
            call_ensures(P::fixed, (p, x, 2u32), t) && s == t@,
        None => s == "null"@,
    }
}

fn angle<P: Print>(p: &P, v: Option<F32>) -> (s: String)
    ensures
        angle_text(p, v, s@),
{
    match v {
        Some(x) => p.fixed(x, 2),
        None => "null".to_owned(),
    }
}

/// The text of a result with the texts of its angles.
pub open spec fn focus_text(r: FocusResult, yaw: Seq<char>, pitch: Seq<char>) -> Seq<char> {
    "{\"status\":\""@ + status_name(r.status) + "\",\"attentive\":"@ + truth_text(r.attentive)
        + ",\"score\":"@ + decimal(r.score as nat) + ",\"monitorIndex\":"@ + signed(
        r.monitor_index as int,
    ) + ",\"yaw\":"@ + yaw + ",\"pitch\":"@ + pitch + "}"@
}

pub open spec fn yaw_of(g: Option<Gaze>) -> Option<F32> {
    match g {
        Some(g) => Some(g.yaw),
        None => None,
    }
}

pub open spec fn pitch_of(g: Option<Gaze>) -> Option<F32> {
    match g {
        Some(g) => Some(g.pitch),
        None => None,
    }
}

/// The last result of the focus; before any it is the first state.
pub fn focus_json<P: Print>(last: Option<FocusResult>, gaze: Option<Gaze>, p: &P) -> (s: String)
    ensures
        match last {
            None => s@
                == "{\"status\":\"INITIALIZING\",\"attentive\":false,\"score\":100,\"monitorIndex\":-1,\"yaw\":null,\"pitch\":null}"@,
            Some(r) => exists|yaw: Seq<char>, pitch: Seq<char>|
                angle_text(p, yaw_of(gaze), yaw) && angle_text(p, pitch_of(gaze), pitch) && s@
                    == #[trigger] focus_text(r, yaw, pitch),
        },
{
    let r: FocusResult = match last {
        Some(r) => r,
        None => {
            return "{\"status\":\"INITIALIZING\",\"attentive\":false,\"score\":100,\"monitorIndex\":-1,\"yaw\":null,\"pitch\":null}".to_owned();
        },
    };
    let (yaw, pitch): (Option<F32>, Option<F32>) = match gaze {
        Some(g) => (Some(g.yaw), Some(g.pitch)),
        None => (None, None),
    };
    let ty = angle(p, yaw);
    let tp = angle(p, pitch);
    let mut s = "{\"status\":\"".to_owned();
    s.append(r.status.as_str());
    s.append("\",\"attentive\":");
    s.append(
        if r.attentive {
            "true"
        } else {
            "false"
        },
    );
    s.append(",\"score\":");
    s.append(decimal_of(r.score as u64).as_str());
    s.append(",\"monitorIndex\":");
    s.append(signed_of(r.monitor_index as i64).as_str());
    s.append(",\"yaw\":");
    s.append(ty.as_str());
    s.append(",\"pitch\":");
    s.append(tp.as_str());
    s.append("}");
    assert(s@ =~= focus_text(r, ty@, tp@));
    s
}

/// The text of a gesture with the texts of its numbers.
pub open spec fn gesture_json_text(e: GestureEvent, confidence: Seq<char>, ts: Seq<char>) -> Seq<char> {
    "{\"gesture\":\""@ + gesture_text(e.gesture) + "\",\"confidence\":"@ + confidence
        + ",\"handedness\":\""@ + handedness_text(e.handedness) + "\",\"tsMs\":"@ + ts + "}"@
}

/// The numbers of a gesture: three places, and one.
pub open spec fn gesture_numbers<P: Print>(p: &P, e: GestureEvent, c: String, ts: String) -> bool {
    &&& call_ensures(P::fixed, (p, e.confidence, 3u32), c)
    &&& call_ensures(P::fixed64, (p, e.ts_ms, 1u32), ts)
}

/// A gesture.
pub fn gesture_json<P: Print>(e: GestureEvent, p: &P) -> (s: String)
    ensures
        exists|c: String, ts: String| #[trigger]
            gesture_numbers(p, e, c, ts) && s@ == gesture_json_text(e, c@, ts@),
{
    let c = p.fixed(e.confidence, 3);
    let ts = p.fixed64(e.ts_ms, 1);
    assert(gesture_numbers(p, e, c, ts));
    let mut s = "{\"gesture\":\"".to_owned();
    s.append(gesture_name(e.gesture));
    s.append("\",\"confidence\":");
    s.append(c.as_str());
    s.append(",\"handedness\":\"");
    s.append(handedness_name(e.handedness));
    s.append("\",\"tsMs\":");
    s.append(ts.as_str());
    s.append("}");
    assert(s@ =~= gesture_json_text(e, c@, ts@));
    s
}

} // verus!
