//! Mixing a mask with a frame: what the mixer is told, and when what it holds has to
//! be made anew.

use crate::detect::kernels::TensorDesc;
use crate::packing::bytes_of_words;
use vstd::prelude::*;

verus! {

use crate::packing::packed;

/// What is shown.
#[derive(Clone, Copy, Debug, PartialEq, Eq, Structural)]
pub struct CompositeOpts {
    /// The channel of the mask.
    pub channel: u32,
    /// 0 mixes, 1 shows the mask.
    pub mode: u32,
    /// 0 a gradient, 1 black, 2 the frame blurred.
    pub bg: u32,
}

impl Default for CompositeOpts {
    fn default() -> (r: CompositeOpts)
        ensures
            r == (CompositeOpts { channel: 0, mode: 0, bg: 0 }),
    {
        CompositeOpts { channel: 0, mode: 0, bg: 0 }
    }
}

/// The mask on the device: its size, and the frame that it was bound with.
#[derive(Clone, Copy, Debug, PartialEq, Eq, Structural)]
pub struct Staged {
    pub w: u32,
    pub h: u32,
    pub bound: Option<u32>,
}

/// The frame on the device: its size, and which one it is.
#[derive(Clone, Copy, Debug, PartialEq, Eq, Structural)]
pub struct FrameSlot {
    pub w: u32,
    pub h: u32,
    pub gen_id: u32,
}

#[derive(Clone, Copy, Debug, PartialEq, Eq, Structural)]
pub enum CompositeError {
    /// The rows of the mask cannot be copied.
    Unaligned { bytes: u32, w: u32, cg: u32 },
    /// There is no frame yet.
    NoFrame,
}

pub struct Compositor {
    pub staging: Option<Staged>,
    pub frame: Option<FrameSlot>,
}

/// What a draw has to do.
#[derive(Clone, Debug)]
pub struct Draw {
    pub params: Vec<u8>,
    /// Texels of a row, rows, and bytes of a row.
    pub tw: u32,
    pub th: u32,
    pub bytes_per_row: u32,
    /// The mask has to be made anew.
    pub remake: bool,
    /// It has to be bound anew.
    pub rebind: bool,
}

pub open spec fn draw_words(d: TensorDesc, o: CompositeOpts) -> Seq<u32> {
    seq![d.w, d.h, d.groups() as u32, o.channel, o.mode, o.bg, 0u32, 0u32]
}

/// Texels of a row of the mask.
pub open spec fn texels(d: TensorDesc) -> int {
    d.w * d.groups()
}

impl Compositor {
    pub fn new() -> (r: Compositor)
        ensures
            r.staging is None,
            r.frame is None,
    {
        Compositor { staging: None, frame: None }
    }

    /// Makes sure of a frame of this size: whether it has to be made anew. A new frame
    /// has a new number.
    pub fn with_frame_texture(&mut self, w: u32, h: u32) -> (remake: bool)
        ensures
            remake == !(old(self).frame matches Some(f) && f.w == w && f.h == h),
            !remake ==> *final(self) == *old(self),
            remake ==> final(self).frame == Some(
                FrameSlot {
                    w,
                    h,
                    gen_id: match old(self).frame {
                        Some(f) => if f.gen_id == u32::MAX {
                            0
                        } else {
                            (f.gen_id + 1) as u32
                        },
                        None => 0,
                    },
                },
            ),
            final(self).staging == old(self).staging,
    {
        let gen_id: u32 = match &self.frame {
            Some(f) => {
                if f.w == w && f.h == h {
                    return false;
                }
                if f.gen_id == u32::MAX {
                    0
                } else {
                    f.gen_id + 1
                }
            },
            None => 0,
        };
        self.frame = Some(FrameSlot { w, h, gen_id });
        true
    }

    /// What a draw of a mask has to do. Rows that cannot be copied are refused before
    /// anything is made; without a frame the mask is made, and nothing is drawn.
    pub fn draw(&mut self, desc: &TensorDesc, opts: CompositeOpts) -> (r: Result<
        Draw,
        CompositeError,
    >)
        requires
            texels(*desc) * 16 <= u32::MAX,
        ensures
            ({
                let tw = texels(*desc);
                let same = old(self).staging matches Some(s) && s.w == tw && s.h == desc.h;
                if tw * 16 % 256 != 0 {
                    &&& r matches Err(CompositeError::Unaligned { bytes, w, cg }) && bytes == tw * 16
                        && w == desc.w && cg == desc.groups()
                    &&& *final(self) == *old(self)
                } else {
                    &&& final(self).staging matches Some(s) && s.w == tw && s.h == desc.h
                    &&& final(self).frame == old(self).frame
                    &&& match old(self).frame {
                        None => r matches Err(CompositeError::NoFrame) && final(self).staging->Some_0
                            == (if same {
                            old(self).staging->Some_0
                        } else {
                            Staged { w: tw as u32, h: desc.h, bound: None }
                        }),
                        Some(f) => {
                            &&& r matches Ok(d) && d.tw == tw && d.th == desc.h && d.bytes_per_row
                                == tw * 16 && d.remake == !same && packed(
                                draw_words(*desc, opts),
                                d.params@,
                            ) && d.rebind == !(same && old(self).staging->Some_0.bound == Some(
                                f.gen_id,
                            ))
                            &&& final(self).staging->Some_0.bound == Some(f.gen_id)
                        },
                    }
                }
            }),
    {
        let cg: u32 = desc.cg();
        let words: Vec<u32> = vec![
            desc.w, desc.h, cg, opts.channel, opts.mode, opts.bg, 0, 0,
        ];
        assert(words@ =~= draw_words(*desc, opts));
        let params = bytes_of_words(words.as_slice());
        let tw: u32 = desc.w * cg;
        let bytes_per_row: u32 = tw * 16;
        if bytes_per_row % 256 != 0 {
            return Err(CompositeError::Unaligned { bytes: bytes_per_row, w: desc.w, cg });
        }
        let mut staged: Staged = Staged { w: tw, h: desc.h, bound: None };
        let mut remake = true;
        if let Some(s) = self.staging {
            if s.w == tw && s.h == desc.h {
                staged = s;
                remake = false;
            }
        }
        self.staging = Some(staged);
        match self.frame {
            None => Err(CompositeError::NoFrame),
            Some(f) => {
                let rebind = match staged.bound {
                    Some(g) => g != f.gen_id,
                    None => true,
                };
                self.staging = Some(Staged { w: tw, h: desc.h, bound: Some(f.gen_id) });
                Ok(Draw { params, tw, th: desc.h, bytes_per_row, remake, rebind })
            },
        }
    }
}

} // verus!
