//! From the frame to the input of the segmentation model.

use crate::packing::bytes_of_words;
use crate::text::replace_all;
use vstd::prelude::*;
use vstd::string::StringExecFns;

verus! {

use crate::packing::packed;
use crate::text::replaced;

/// The source of the kernel for inputs in half precision.
pub fn src_f16(src: &str) -> (r: String)
    ensures
        r@ == "enable f16;\n"@ + replaced(
            replaced(src@, "array<vec4f>"@, "array<vec4<f16>>"@),
            "out[(gid.y * p.w + gid.x) * p.cg] = vec4f(rgb, 0.0);"@,
            "out[(gid.y * p.w + gid.x) * p.cg] = vec4<f16>(vec4f(rgb, 0.0));"@,
        ),
{
    proof {
        reveal_strlit("array<vec4f>");
        reveal_strlit("out[(gid.y * p.w + gid.x) * p.cg] = vec4f(rgb, 0.0);");
    }
    let a = replace_all(src, "array<vec4f>", "array<vec4<f16>>");
    let b = replace_all(
        a.as_str(),
        "out[(gid.y * p.w + gid.x) * p.cg] = vec4f(rgb, 0.0);",
        "out[(gid.y * p.w + gid.x) * p.cg] = vec4<f16>(vec4f(rgb, 0.0));",
    );
    let mut out = "enable f16;\n".to_owned();
    out.append(b.as_str());
    out
}

/// The parameters of the kernel: the size of the input and its groups of channels.
pub fn write_params(w: u32, h: u32, cg: u32) -> (b: Vec<u8>)
    ensures
        packed(seq![w, h, cg, 0u32], b@),
{
    let words: Vec<u32> = vec![w, h, cg, 0];
    assert(words@ =~= seq![w, h, cg, 0u32]);
    bytes_of_words(words.as_slice())
}

} // verus!
