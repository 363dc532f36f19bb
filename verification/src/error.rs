//! Why a task failed: the ground on which a host falls back.

use vstd::prelude::*;

verus! {

use vstd::string::StringExecFns;

#[derive(Debug)]
pub enum TaskError {
    /// No GPU: fall back to the CPU.
    NoGpu(String),
    /// The device was lost while running.
    DeviceLost(String),
    /// A model could not be loaded or run.
    Runtime(String),
    /// The GPU layer failed.
    Gpu(String),
    /// The CPU layer failed: there is nothing left to fall back to.
    Cpu(String),
    Other(String),
}

/// The text of an error.
pub open spec fn message_of(e: TaskError) -> Seq<char> {
    match e {
        TaskError::NoGpu(s) => "GPU 초기화 실패: "@ + s@,
        TaskError::DeviceLost(s) => "디바이스 유실: "@ + s@,
        TaskError::Runtime(s) => "런타임: "@ + s@,
        TaskError::Gpu(s) => "GPU: "@ + s@,
        TaskError::Cpu(s) => "CPU: "@ + s@,
        TaskError::Other(s) => s@,
    }
}

fn joined(a: &str, b: &String) -> (r: String)
    ensures
        r@ == a@ + b@,
{
    let mut s = a.to_owned();
    s.append(b.as_str());
    s
}

impl TaskError {
    pub fn message(&self) -> (r: String)
        ensures
            r@ == message_of(*self),
    {
        match self {
            TaskError::NoGpu(s) => joined("GPU 초기화 실패: ", s),
            TaskError::DeviceLost(s) => joined("디바이스 유실: ", s),
            TaskError::Runtime(s) => joined("런타임: ", s),
            TaskError::Gpu(s) => joined("GPU: ", s),
            TaskError::Cpu(s) => joined("CPU: ", s),
            TaskError::Other(s) => s.clone(),
        }
    }
}

} // verus!
