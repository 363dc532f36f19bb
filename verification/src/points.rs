//! Points by the bits of their coordinates.

use crate::ieee::F32;
use vstd::prelude::*;

verus! {

#[derive(Clone, Copy, Debug, PartialEq, Eq, Structural)]
pub struct V2 {
    pub x: F32,
    pub y: F32,
}

#[derive(Clone, Copy, Debug, PartialEq, Eq, Structural)]
pub struct V3 {
    pub x: F32,
    pub y: F32,
    pub z: F32,
}

} // verus!
