//! The texts of what stops a graph.

use super::error::shape_of;
use super::graph::{Fault, FeGraph, NodeDecl, RunError};
use crate::decimals::decimal_of;
use vstd::prelude::*;
use vstd::string::StringExecFns;

verus! {

use super::error::{message_of, shape_text};
use super::graph::FaultView;
use crate::decimals::decimal;

/// The name at place `i`; none behind the end.
pub open spec fn name_at(names: Seq<String>, i: int) -> Seq<char> {
    if 0 <= i < names.len() {
        names[i]@
    } else {
        Seq::empty()
    }
}

fn add_name(s: &mut String, names: &Vec<String>, i: usize)
    ensures
        final(s)@ == old(s)@ + name_at(names@, i as int),
{
    if i < names.len() {
        s.append(names[i].as_str());
    }
}

/// The text of a node that could not run.
pub open spec fn fault_text<T>(n: NodeDecl<T>, f: FaultView) -> Seq<char> {
    match f {
        FaultView::MissingTensor(i) => "audio-graph: 텐서 없음: "@ + name_at(n.inputs@, i as int),
        FaultView::MissingInts(i) => "audio-graph: int 상수 없음: "@ + name_at(n.inputs@, i as int),
        FaultView::Op(e) => message_of(e),
        FaultView::Reshape(e) => "audio-graph: "@ + message_of(e) + " (in="@ + name_at(n.inputs@, 0)
            + ")"@,
        FaultView::NoPerm => "audio-graph: "@ + n.name@ + ": perm 없음"@,
        FaultView::SqueezeAxis(d) => "audio-graph: "@ + n.name@ + ": squeeze 축 "@ + decimal(d as nat)
            + "≠1"@,
        FaultView::Group => "audio-graph: "@ + n.name@ + ": group>1 미지원"@,
        FaultView::Unsupported => "audio-graph: "@ + n.name@ + ": 미지원 op "@ + n.op@,
        FaultView::Unfit => "audio-graph: "@ + n.name@ + ": 피연산자 부적합"@,
    }
}

impl Fault {
    /// The text of the fault of node `n`.
    pub fn message<T>(&self, n: &NodeDecl<T>) -> (r: String)
        ensures
            r@ == fault_text(*n, self@),
    {
        let mut s: String;
        match self {
            Fault::MissingTensor(i) => {
                s = "audio-graph: 텐서 없음: ".to_owned();
                add_name(&mut s, &n.inputs, *i);
            },
            Fault::MissingInts(i) => {
                s = "audio-graph: int 상수 없음: ".to_owned();
                add_name(&mut s, &n.inputs, *i);
            },
            Fault::Op(e) => {
                s = e.message();
            },
            Fault::Reshape(e) => {
                s = "audio-graph: ".to_owned();
                s.append(e.message().as_str());
                s.append(" (in=");
                add_name(&mut s, &n.inputs, 0);
                s.append(")");
            },
            Fault::NoPerm => {
                s = "audio-graph: ".to_owned();
                s.append(n.name.as_str());
                s.append(": perm 없음");
            },
            Fault::SqueezeAxis(d) => {
                s = "audio-graph: ".to_owned();
                s.append(n.name.as_str());
                s.append(": squeeze 축 ");
                s.append(decimal_of(*d as u64).as_str());
                s.append("≠1");
            },
            Fault::Group => {
                s = "audio-graph: ".to_owned();
                s.append(n.name.as_str());
                s.append(": group>1 미지원");
            },
            Fault::Unsupported => {
                s = "audio-graph: ".to_owned();
                s.append(n.name.as_str());
                s.append(": 미지원 op ");
                s.append(n.op.as_str());
            },
            Fault::Unfit => {
                s = "audio-graph: ".to_owned();
                s.append(n.name.as_str());
                s.append(": 피연산자 부적합");
            },
        }
        s
    }
}

/// The text of a run of `g` that stopped.
pub open spec fn run_text<T>(g: FeGraph<T>, e: RunError) -> Seq<char> {
    match e {
        RunError::InputSize(i, s) => if i < g.inputs@.len() {
            "audio-graph: 입력 "@ + g.inputs@[i as int].name@ + " 크기 불일치 "@ + shape_text(s@)
                + "≠"@ + shape_text(g.inputs@[i as int].shape@)
        } else {
            "audio-graph: "@
        },
        RunError::Node(k, f) => if k < g.nodes@.len() {
            fault_text(g.nodes@[k as int], f@)
        } else {
            "audio-graph: "@
        },
        RunError::MissingOutput(i) => "audio-graph: 출력 없음: "@ + name_at(g.outputs@, i as int),
    }
}

impl<T> FeGraph<T> {
    /// The text of a run that stopped, with the names of this graph.
    pub fn message(&self, e: &RunError) -> (r: String)
        ensures
            r@ == run_text(*self, *e),
    {
        match e {
            RunError::InputSize(i, shape) => {
                let mut s = "audio-graph: ".to_owned();
                if *i < self.inputs.len() {
                    s = "audio-graph: 입력 ".to_owned();
                    s.append(self.inputs[*i].name.as_str());
                    s.append(" 크기 불일치 ");
                    s.append(shape_of(shape.as_slice()).as_str());
                    s.append("≠");
                    s.append(shape_of(self.inputs[*i].shape.as_slice()).as_str());
                }
                s
            },
            RunError::Node(k, f) => {
                if *k < self.nodes.len() {
                    f.message(&self.nodes[*k])
                } else {
                    "audio-graph: ".to_owned()
                }
            },
            RunError::MissingOutput(i) => {
                let mut s = "audio-graph: 출력 없음: ".to_owned();
                add_name(&mut s, &self.outputs, *i);
                s
            },
        }
    }
}

} // verus!
