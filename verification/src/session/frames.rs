//! What happens around the runs of a model: a lost device, failures, frame times.

use crate::clock::FrameClock;
use crate::error::TaskError;
use crate::ieee::{F32, F64};
use crate::reals::Reals;
use crate::trace::Num;
use vstd::prelude::*;

verus! {

use crate::clock::recorded;
use crate::trace::{bits, eval, val};

/// A thousand.
pub const THOUSAND: u32 = 0x447a_0000;

pub open spec fn ms_at<R: Reals>(ar: &R, secs: F64, s: F32, ms: F32) -> bool {
    call_ensures(R::narrow, (ar, secs), s) && eval(ar, val(s).times(bits(THOUSAND)), ms)
}

/// `ms` are the milliseconds of a time in seconds.
pub open spec fn ms_is<R: Reals>(ar: &R, secs: F64, ms: F32) -> bool {
    exists|s: F32| #[trigger] ms_at(ar, secs, s, ms)
}

fn millis<R: Reals>(secs: F64, ar: &R) -> (ms: F32)
    ensures
        ms_is(ar, secs, ms),
{
    let s = ar.narrow(secs);
    let ms = Num::new(s, ar).times(Num::bits(THOUSAND, ar), ar).v;
    assert(ms_at(ar, secs, s, ms));
    ms
}

/// A lost device is an error that carries the reason.
pub fn ensure_device(lost: Option<String>) -> (r: Result<(), TaskError>)
    ensures
        match lost {
            Some(why) => r == Err::<(), TaskError>(TaskError::DeviceLost(why)),
            None => r is Ok,
        },
{
    match lost {
        Some(why) => Err(TaskError::DeviceLost(why)),
        None => Ok(()),
    }
}

/// The clock of a model on a GPU, where a run is submitted first and waited for
/// later.
pub struct GpuFrames {
    pub clock: FrameClock,
    /// A run was submitted and not waited for.
    pub mark: bool,
}

/// `b` is the clock `a` with one more frame of this many seconds.
pub open spec fn timed_frame<R: Reals>(ar: &R, a: FrameClock, secs: F64, b: FrameClock) -> bool {
    exists|ms: F32|
        #[trigger] ms_is(ar, secs, ms) && b.wf() && b.times@ == recorded(a.times@, ms) && b.frames
            == (if a.frames == u32::MAX {
            0
        } else {
            a.frames + 1
        })
}

impl GpuFrames {
    pub fn new() -> (r: GpuFrames)
        ensures
            r.clock.wf(),
            r.clock.times@ == Seq::<F32>::empty(),
            r.clock.frames == 0,
            !r.mark,
    {
        GpuFrames { clock: FrameClock::new(), mark: false }
    }

    /// Starts a run, unless the device is lost.
    pub fn infer(&mut self, lost: Option<String>) -> (r: Result<(), TaskError>)
        ensures
            match lost {
                Some(why) => r == Err::<(), TaskError>(TaskError::DeviceLost(why)) && *final(self)
                    == *old(self),
                None => r is Ok && *final(self) == (GpuFrames { mark: true, ..*old(self) }),
            },
    {
        match ensure_device(lost) {
            Err(e) => Err(e),
            Ok(_) => {
                self.mark = true;
                Ok(())
            },
        }
    }

    /// Ends a frame after the wait for it: a submitted run is recorded with the
    /// seconds since it was submitted.
    pub fn finish_frame<R: Reals>(
        &mut self,
        lost: Option<String>,
        waited: Result<(), String>,
        secs: F64,
        ar: &R,
    ) -> (r: Result<(), TaskError>)
        requires
            old(self).clock.wf(),
        ensures
            match (lost, waited) {
                (Some(why), _) => r == Err::<(), TaskError>(TaskError::DeviceLost(why))
                    && *final(self) == *old(self),
                (None, Err(e)) => r == Err::<(), TaskError>(TaskError::Gpu(e)) && *final(self)
                    == *old(self),
                (None, Ok(_)) => {
                    &&& r is Ok
                    &&& !final(self).mark
                    &&& if old(self).mark {
                        timed_frame(ar, old(self).clock, secs, final(self).clock)
                    } else {
                        final(self).clock == old(self).clock
                    }
                },
            },
    {
        match ensure_device(lost) {
            Err(e) => {
                return Err(e);
            },
            Ok(_) => {},
        }
        match waited {
            Err(e) => {
                return Err(TaskError::Gpu(e));
            },
            Ok(_) => {},
        }
        if self.mark {
            self.mark = false;
            let ms = millis(secs, ar);
            self.clock.record(ms);
        }
        Ok(())
    }
}

/// One frame on a CPU: the input is set, then the model runs. The seconds of a run
/// that succeeded are recorded.
pub fn infer_frame<R: Reals>(
    clock: &mut FrameClock,
    set: Result<(), String>,
    ran: Result<F64, String>,
    ar: &R,
) -> (r: Result<(), TaskError>)
    requires
        old(clock).wf(),
    ensures
        match (set, ran) {
            (Err(e), _) => r == Err::<(), TaskError>(TaskError::Cpu(e)) && *final(clock) == *old(
                clock,
            ),
            (Ok(_), Err(e)) => r == Err::<(), TaskError>(TaskError::Cpu(e)) && *final(clock)
                == *old(clock),
            (Ok(_), Ok(secs)) => r is Ok && timed_frame(ar, *old(clock), secs, *final(clock)),
        },
{
    match set {
        Err(e) => {
            return Err(TaskError::Cpu(e));
        },
        Ok(_) => {},
    }
    match ran {
        Err(e) => Err(TaskError::Cpu(e)),
        Ok(secs) => {
            let ms = millis(secs, ar);
            clock.record(ms);
            Ok(())
        },
    }
}

} // verus!
