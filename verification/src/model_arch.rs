//! Which architectures this crate handles.

use vstd::prelude::*;

verus! {

/// The entry of the Qwen3 family: the dense and mixture-of-experts models of
/// Qwen3.5 and Qwen3.6, and the gated-delta-net hybrid of Qwen3-Coder-Next.
#[derive(Debug, Clone, Copy, PartialEq, Eq, Structural)]
pub struct Qwen3MoEModelArch;

impl Qwen3MoEModelArch {
    /// The architectures that a file may name.
    pub fn supported_archs(&self) -> (r: Vec<&'static str>)
        ensures
            r@ == seq!["qwen35moe", "qwen3moe", "qwen3next"],
    {
        let mut r: Vec<&'static str> = Vec::new();
        r.push("qwen35moe");
        r.push("qwen3moe");
        r.push("qwen3next");
        proof {
            assert(r@ =~= seq!["qwen35moe", "qwen3moe", "qwen3next"]);
        }
        r
    }

    pub fn description(&self) -> (r: &'static str)
        ensures
            r == "Qwen3 family (Qwen3.5/3.6 dense + MoE, Qwen3-Coder-Next GDN hybrid)",
    {
        "Qwen3 family (Qwen3.5/3.6 dense + MoE, Qwen3-Coder-Next GDN hybrid)"
    }
}

} // verus!
