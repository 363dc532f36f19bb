//! The models that the host gave, and what has to be loaded of them.

use crate::names::same_text;
use vstd::prelude::*;

verus! {

/// The names of the models.
pub const MODEL_KINDS: [&'static str; 7] = [
    "seg", "face_det", "face_lm", "gaze", "gaze_bs", "hand_det", "hand_lm",
];

#[derive(Clone, Copy, Debug, PartialEq, Eq, Structural)]
pub enum ModelKind {
    Seg,
    FaceDet,
    FaceLm,
    Gaze,
    GazeBs,
    HandDet,
    HandLm,
}

pub open spec fn kind_text(k: ModelKind) -> Seq<char> {
    match k {
        ModelKind::Seg => "seg"@,
        ModelKind::FaceDet => "face_det"@,
        ModelKind::FaceLm => "face_lm"@,
        ModelKind::Gaze => "gaze"@,
        ModelKind::GazeBs => "gaze_bs"@,
        ModelKind::HandDet => "hand_det"@,
        ModelKind::HandLm => "hand_lm"@,
    }
}

/// The kind of a name; nothing for a name that is none.
pub fn model_kind(name: &str) -> (r: Option<ModelKind>)
    ensures
        match r {
            Some(k) => name@ == kind_text(k),
            None => forall|k: ModelKind| name@ != #[trigger] kind_text(k),
        },
{
    if same_text(name, "seg") {
        Some(ModelKind::Seg)
    } else if same_text(name, "face_det") {
        Some(ModelKind::FaceDet)
    } else if same_text(name, "face_lm") {
        Some(ModelKind::FaceLm)
    } else if same_text(name, "gaze") {
        Some(ModelKind::Gaze)
    } else if same_text(name, "gaze_bs") {
        Some(ModelKind::GazeBs)
    } else if same_text(name, "hand_det") {
        Some(ModelKind::HandDet)
    } else if same_text(name, "hand_lm") {
        Some(ModelKind::HandLm)
    } else {
        None
    }
}

/// The bytes of the models.
pub struct Models {
    pub seg: Option<Vec<u8>>,
    pub face_det: Option<Vec<u8>>,
    pub face_lm: Option<Vec<u8>>,
    pub gaze: Option<Vec<u8>>,
    pub gaze_bs: Option<Vec<u8>>,
    pub hand_det: Option<Vec<u8>>,
    pub hand_lm: Option<Vec<u8>>,
}

/// What to do before a task can run.
#[derive(Clone, Copy, Debug, PartialEq, Eq, Structural)]
pub enum Need {
    /// Nothing.
    Ready,
    /// Its models have to be loaded.
    Load,
    /// A model is missing: the task is left out.
    Missing,
}

pub open spec fn need(loaded: bool, given: bool) -> Need {
    if loaded {
        Need::Ready
    } else if given {
        Need::Load
    } else {
        Need::Missing
    }
}

pub(crate) fn need_of(loaded: bool, given: bool) -> (r: Need)
    ensures
        r == need(loaded, given),
{
    if loaded {
        Need::Ready
    } else if given {
        Need::Load
    } else {
        Need::Missing
    }
}

impl Models {
    pub fn new() -> (r: Models)
        ensures
            r == (Models {
                seg: None,
                face_det: None,
                face_lm: None,
                gaze: None,
                gaze_bs: None,
                hand_det: None,
                hand_lm: None,
            }),
    {
        Models {
            seg: None,
            face_det: None,
            face_lm: None,
            gaze: None,
            gaze_bs: None,
            hand_det: None,
            hand_lm: None,
        }
    }

    pub open spec fn at(&self, k: ModelKind) -> Option<Vec<u8>> {
        match k {
            ModelKind::Seg => self.seg,
            ModelKind::FaceDet => self.face_det,
            ModelKind::FaceLm => self.face_lm,
            ModelKind::Gaze => self.gaze,
            ModelKind::GazeBs => self.gaze_bs,
            ModelKind::HandDet => self.hand_det,
            ModelKind::HandLm => self.hand_lm,
        }
    }

    /// Takes the bytes of a model, in place of any earlier ones.
    pub fn set(&mut self, k: ModelKind, bytes: Vec<u8>)
        ensures
            final(self).at(k) == Some(bytes),
            forall|j: ModelKind| j != k ==> #[trigger] final(self).at(j) == old(self).at(j),
    {
        match k {
            ModelKind::Seg => self.seg = Some(bytes),
            ModelKind::FaceDet => self.face_det = Some(bytes),
            ModelKind::FaceLm => self.face_lm = Some(bytes),
            ModelKind::Gaze => self.gaze = Some(bytes),
            ModelKind::GazeBs => self.gaze_bs = Some(bytes),
            ModelKind::HandDet => self.hand_det = Some(bytes),
            ModelKind::HandLm => self.hand_lm = Some(bytes),
        }
    }

    /// The bytes of a model.
    pub fn get(&self, k: ModelKind) -> (r: Option<&Vec<u8>>)
        ensures
            match r {
                Some(b) => self.at(k) == Some(*b),
                None => self.at(k) is None,
            },
    {
        let m: &Option<Vec<u8>> = match k {
            ModelKind::Seg => &self.seg,
            ModelKind::FaceDet => &self.face_det,
            ModelKind::FaceLm => &self.face_lm,
            ModelKind::Gaze => &self.gaze,
            ModelKind::GazeBs => &self.gaze_bs,
            ModelKind::HandDet => &self.hand_det,
            ModelKind::HandLm => &self.hand_lm,
        };
        match m {
            Some(b) => Some(b),
            None => None,
        }
    }
}

} // verus!
