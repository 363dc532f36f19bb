//! The switches of the tasks. A key that is absent keeps its value, one that is null
//! is switched off, any other is set.

use crate::ieee::F32;
use crate::names::same_text;
use vstd::prelude::*;

verus! {

/// Bits of 10.
pub const DEFAULT_FPS: u32 = 0x4120_0000;

/// What is worn.
#[derive(Clone, Debug)]
pub struct FaceItems {
    pub enabled: bool,
    pub hat: String,
    pub eyewear: String,
    pub beard: String,
}

impl Default for FaceItems {
    fn default() -> (r: FaceItems)
        ensures
            !r.enabled,
            r.hat@ == "none"@,
            r.eyewear@ == "none"@,
            r.beard@ == "none"@,
    {
        FaceItems {
            enabled: false,
            hat: "none".to_owned(),
            eyewear: "none".to_owned(),
            beard: "none".to_owned(),
        }
    }
}

impl FaceItems {
    pub open spec fn worn(&self) -> bool {
        self.enabled && (self.hat@ != "none"@ || self.eyewear@ != "none"@ || self.beard@
            != "none"@)
    }

    /// Whether anything is worn.
    pub fn any(&self) -> (r: bool)
        ensures
            r == self.worn(),
    {
        self.enabled && (!same_text(self.hat.as_str(), "none") || !same_text(
            self.eyewear.as_str(),
            "none",
        ) || !same_text(self.beard.as_str(), "none"))
    }

    /// The same choice.
    pub fn copied(&self) -> (r: FaceItems)
        ensures
            r.enabled == self.enabled,
            r.hat@ == self.hat@,
            r.eyewear@ == self.eyewear@,
            r.beard@ == self.beard@,
    {
        FaceItems {
            enabled: self.enabled,
            hat: self.hat.clone(),
            eyewear: self.eyewear.clone(),
            beard: self.beard.clone(),
        }
    }
}

/// The gestures of the hands.
#[derive(Clone, Debug)]
pub struct HandDetection {
    pub enabled: bool,
    pub detect_fps: F32,
    /// The names of the gestures that count; all where there is none.
    pub gestures: Vec<String>,
}

impl Default for HandDetection {
    fn default() -> (r: HandDetection)
        ensures
            !r.enabled,
            r.detect_fps.bits == DEFAULT_FPS,
            r.gestures@.len() == 0,
    {
        HandDetection {
            enabled: false,
            detect_fps: F32 { bits: DEFAULT_FPS },
            gestures: Vec::new(),
        }
    }
}

/// The attention of the person.
#[derive(Clone, Copy, Debug, PartialEq, Eq, Structural)]
pub struct FocusDetection {
    pub enabled: bool,
    pub detect_fps: F32,
}

impl Default for FocusDetection {
    fn default() -> (r: FocusDetection)
        ensures
            r == (FocusDetection { enabled: false, detect_fps: F32 { bits: DEFAULT_FPS } }),
    {
        FocusDetection { enabled: false, detect_fps: F32 { bits: DEFAULT_FPS } }
    }
}

/// A change of the switches.
pub struct TasksPatch {
    pub face_items: Option<Option<FaceItems>>,
    pub hand_detection: Option<Option<HandDetection>>,
    pub focus_detection: Option<Option<FocusDetection>>,
}

impl Default for TasksPatch {
    fn default() -> (r: TasksPatch)
        ensures
            r.face_items is None,
            r.hand_detection is None,
            r.focus_detection is None,
    {
        TasksPatch { face_items: None, hand_detection: None, focus_detection: None }
    }
}

/// The switches. Only what is on is held.
pub struct Tasks {
    pub face_items: Option<FaceItems>,
    pub hand: Option<HandDetection>,
    pub focus: Option<FocusDetection>,
}

/// What is on of a choice that was set.
pub open spec fn items_on(v: Option<FaceItems>) -> Option<FaceItems> {
    match v {
        Some(f) => if f.worn() {
            Some(f)
        } else {
            None
        },
        None => None,
    }
}

pub open spec fn hand_on(v: Option<HandDetection>) -> Option<HandDetection> {
    match v {
        Some(h) => if h.enabled {
            Some(h)
        } else {
            None
        },
        None => None,
    }
}

pub open spec fn focus_on(v: Option<FocusDetection>) -> Option<FocusDetection> {
    match v {
        Some(f) => if f.enabled {
            Some(f)
        } else {
            None
        },
        None => None,
    }
}

/// The switches after a change.
pub open spec fn merged(s: Tasks, p: TasksPatch) -> Tasks {
    Tasks {
        face_items: match p.face_items {
            Some(v) => items_on(v),
            None => s.face_items,
        },
        hand: match p.hand_detection {
            Some(v) => hand_on(v),
            None => s.hand,
        },
        focus: match p.focus_detection {
            Some(v) => focus_on(v),
            None => s.focus,
        },
    }
}

/// What a change switched off.
#[derive(Clone, Copy, Debug, PartialEq, Eq, Structural)]
pub struct SwitchedOff {
    pub hand: bool,
    pub focus: bool,
    /// What is worn was set.
    pub items_set: bool,
}

impl Tasks {
    pub fn new() -> (r: Tasks)
        ensures
            r == (Tasks { face_items: None, hand: None, focus: None }),
    {
        Tasks { face_items: None, hand: None, focus: None }
    }

    /// Merges a change; what it switched off.
    pub fn apply(&mut self, p: TasksPatch) -> (r: SwitchedOff)
        ensures
            *final(self) == merged(*old(self), p),
            r.hand == (p.hand_detection is Some && final(self).hand is None),
            r.focus == (p.focus_detection is Some && final(self).focus is None),
            r.items_set == p.face_items is Some,
    {
        let mut r = SwitchedOff { hand: false, focus: false, items_set: false };
        if let Some(v) = p.face_items {
            self.face_items = match v {
                Some(f) => if f.any() {
                    Some(f)
                } else {
                    None
                },
                None => None,
            };
            r.items_set = true;
        }
        if let Some(v) = p.hand_detection {
            self.hand = match v {
                Some(h) => if h.enabled {
                    Some(h)
                } else {
                    None
                },
                None => None,
            };
            r.hand = self.hand.is_none();
        }
        if let Some(v) = p.focus_detection {
            self.focus = match v {
                Some(f) => if f.enabled {
                    Some(f)
                } else {
                    None
                },
                None => None,
            };
            r.focus = self.focus.is_none();
        }
        r
    }
}

/// What is held is on.
pub open spec fn only_on(s: Tasks) -> bool {
    &&& s.face_items matches Some(f) ==> f.worn()
    &&& s.hand matches Some(h) ==> h.enabled
    &&& s.focus matches Some(f) ==> f.enabled
}

/// An empty change changes nothing.
pub proof fn law_empty_patch_keeps(s: Tasks, p: TasksPatch)
    requires
        p.face_items is None,
        p.hand_detection is None,
        p.focus_detection is None,
    ensures
        merged(s, p) == s,
{
}

/// A second time the same change changes nothing.
pub proof fn law_patch_is_idempotent(s: Tasks, p: TasksPatch)
    ensures
        merged(merged(s, p), p) == merged(s, p),
{
}

/// Null switches off.
pub proof fn law_null_switches_off(s: Tasks, p: TasksPatch)
    ensures
        p.face_items == Some(None::<FaceItems>) ==> merged(s, p).face_items is None,
        p.hand_detection == Some(None::<HandDetection>) ==> merged(s, p).hand is None,
        p.focus_detection == Some(None::<FocusDetection>) ==> merged(s, p).focus is None,
{
}

/// Only what is on is ever held.
pub proof fn law_only_what_is_on_is_held(s: Tasks, p: TasksPatch)
    requires
        only_on(s),
    ensures
        only_on(merged(s, p)),
{
}

} // verus!
