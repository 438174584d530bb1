//! Bringing tensors from the file to a device: in which type each one is
//! stored there, what of the file it takes, and in which order they go.
//!
//! The lists say which tensors are due. A caller finds the bytes of each in the
//! file, has the plan made, carries out its uploads, and hands back where each
//! tensor went; from that the weights are put together.

use crate::arith::{lemma_sum_concat, sum};
use crate::config::Qwen3MoEConfig;
use crate::convert::q8_bytes;
use crate::device::DevicePtr;
use crate::layout::{
    DenseAttnTensors, DenseFfnTensors, FullAttnTensors, GdnTensors, LayerAttnBlock,
    LayerDescriptor, ModelLayout, MoeFfnTensors, ResolvedTensor, SharedExpertTensors,
};
use crate::load_error::LoadError;
use crate::plan::{done, each, fail, flat, lemma_each_stops, lemma_ran_then2, ran, Run};
use crate::tensor::{
    dims_product, lemma_product_le_padded, padded_product, product, GgmlDType, QK8_0,
};
use crate::text::{
    contains_str, ends_with, owned, spec_contains, spec_ends_with, str_eq, strip_suffix,
};
use crate::weights::{
    bytes_of, lemma_bytes_concat, opt_list, sizes_of, AttnWeights, DenseAttnWeights,
    DenseFfnWeights, DeviceTensor, FfnWeights, FullAttnWeights, GdnWeights, LayerWeights,
    SharedExpertWeights,
};
use vstd::prelude::*;

verus! {

/// What becomes of a tensor's bytes on their way to the device.
#[derive(Debug, Clone, Copy, PartialEq, Eq, Structural)]
pub enum Conversion {
    AsIs,
    SingleToHalf,
    SingleToQ8,
    Bf16ToQ8,
    Mxfp4ToQ8,
    Q41ToQ8,
    /// The alpha rows of a fused tensor, quantised.
    AlphaRows,
    /// The beta rows of a fused tensor, quantised.
    BetaRows,
}

/// How a tensor is stored on the device.
#[derive(Debug, Clone, Copy, PartialEq, Eq, Structural)]
pub struct Target {
    pub conversion: Conversion,
    pub dtype: GgmlDType,
    pub bytes: usize,
}

/// One upload: the tensor of the file it reads and what it stores.
#[derive(Debug, Clone)]
pub struct Upload {
    pub name: String,
    pub target: Target,
}

/// Which type a tensor has to have on the device.
#[derive(Debug, Clone, Copy, PartialEq, Eq, Structural)]
pub enum Rule {
    /// The type of the file.
    AsStored,
    /// The type of the file, or Q8_0 where no kernel reads that type.
    Raw,
    /// F16.
    Half,
    /// Q8_0.
    Q8,
    /// F16 where the file has F32.
    Router,
    /// Two Q8_0 tensors, the alpha and the beta rows.
    Split,
}

/// Whether tensors keep the type of the file.
#[derive(Debug, Clone, Copy, PartialEq, Eq, Structural)]
pub enum Policy {
    Verbatim,
    ForKernels,
}

/// The rule under a policy.
pub open spec fn under(policy: Policy, rule: Rule) -> Rule {
    match policy {
        Policy::Verbatim => Rule::AsStored,
        Policy::ForKernels => rule,
    }
}

fn rule_under(policy: Policy, rule: Rule) -> (r: Rule)
    ensures
        r == under(policy, rule),
{
    match policy {
        Policy::Verbatim => Rule::AsStored,
        Policy::ForKernels => rule,
    }
}

/// One tensor that is due, and the rule for it.
#[derive(Debug, Clone, Copy)]
pub struct Item<'a> {
    pub tensor: &'a ResolvedTensor,
    pub rule: Rule,
}

/// The tensor's sizes fit the machine.
pub open spec fn sizes_fit(r: ResolvedTensor) -> bool {
    &&& padded_product(r.dims@) * r.dtype.spec_type_size() <= usize::MAX
    &&& r.size_bytes <= usize::MAX
}

/// Elements of a tensor.
pub open spec fn elems(r: ResolvedTensor) -> nat {
    product(r.dims@)
}

fn elem_count(r: &ResolvedTensor) -> (n: usize)
    requires
        sizes_fit(*r),
    ensures
        n == elems(*r),
        n * r.dtype.spec_type_size() <= usize::MAX,
        n <= usize::MAX,
{
    proof {
        lemma_product_le_padded(r.dims@);
        let p = padded_product(r.dims@);
        let q = product(r.dims@);
        let t = r.dtype.spec_type_size();
        assert(t >= 1);
        assert(p <= p * t) by (nonlinear_arith)
            requires
                t >= 1,
                p >= 0,
        ;
        assert(q * t <= p * t) by (nonlinear_arith)
            requires
                q <= p,
                t >= 1,
        ;
    }
    dims_product(&r.dims)
}

/// The tensor holds experts.
pub open spec fn names_experts(name: Seq<char>) -> bool {
    spec_contains(name, "_exps"@)
}

/// Bytes of one half of a fused tensor after it is quantised.
pub open spec fn half_bytes(r: ResolvedTensor) -> nat {
    q8_bytes((elems(r) / 2) as nat)
}

/// How the tensor is stored under the rule, where it can be.
#[verifier::opaque]
pub open spec fn target_of(r: ResolvedTensor, rule: Rule) -> Target {
    let same = Target {
        conversion: Conversion::AsIs,
        dtype: r.dtype,
        bytes: r.size_bytes as usize,
    };
    let raw = if r.dtype == GgmlDType::BF16 {
        Target {
            conversion: Conversion::Bf16ToQ8,
            dtype: GgmlDType::Q8_0,
            bytes: q8_bytes(elems(r)) as usize,
        }
    } else if r.dtype == GgmlDType::Mxfp4 {
        Target {
            conversion: Conversion::Mxfp4ToQ8,
            dtype: GgmlDType::Q8_0,
            bytes: q8_bytes(elems(r)) as usize,
        }
    } else if r.dtype == GgmlDType::Q4_1 && names_experts(r.name@) {
        Target {
            conversion: Conversion::Q41ToQ8,
            dtype: GgmlDType::Q8_0,
            bytes: q8_bytes(elems(r)) as usize,
        }
    } else {
        same
    };
    match rule {
        Rule::AsStored => same,
        Rule::Raw => raw,
        Rule::Half => if r.dtype == GgmlDType::F32 {
            Target {
                conversion: Conversion::SingleToHalf,
                dtype: GgmlDType::F16,
                bytes: (elems(r) * 2) as usize,
            }
        } else {
            same
        },
        Rule::Q8 => if r.dtype == GgmlDType::F32 {
            Target {
                conversion: Conversion::SingleToQ8,
                dtype: GgmlDType::Q8_0,
                bytes: q8_bytes(elems(r)) as usize,
            }
        } else {
            same
        },
        Rule::Router => if r.dtype == GgmlDType::F32 {
            Target {
                conversion: Conversion::SingleToHalf,
                dtype: GgmlDType::F16,
                bytes: (elems(r) * 2) as usize,
            }
        } else {
            raw
        },
        Rule::Split => Target {
            conversion: Conversion::AlphaRows,
            dtype: GgmlDType::Q8_0,
            bytes: half_bytes(r) as usize,
        },
    }
}

/// How the tensor is stored under the rule.
pub fn target(r: &ResolvedTensor, rule: Rule) -> (t: Target)
    requires
        sizes_fit(*r),
    ensures
        t == target_of(*r, rule),
{
    proof {
        reveal(target_of);
    }
    let same = Target {
        conversion: Conversion::AsIs,
        dtype: r.dtype,
        bytes: r.size_bytes as usize,
    };
    if r.dtype == GgmlDType::F32 && (rule == Rule::Half || rule == Rule::Router) {
        return Target {
            conversion: Conversion::SingleToHalf,
            dtype: GgmlDType::F16,
            bytes: elem_count(r) * 2,
        };
    }
    if r.dtype == GgmlDType::F32 && rule == Rule::Q8 {
        return Target {
            conversion: Conversion::SingleToQ8,
            dtype: GgmlDType::Q8_0,
            bytes: elem_count(r) / 32 * 34,
        };
    }
    match rule {
        Rule::AsStored => same,
        Rule::Half | Rule::Q8 => same,
        Rule::Split => {
            let n: usize = elem_count(r) / 2;
            Target {
                conversion: Conversion::AlphaRows,
                dtype: GgmlDType::Q8_0,
                bytes: n / 32 * 34,
            }
        },
        Rule::Raw | Rule::Router => {
            if r.dtype == GgmlDType::BF16 {
                let n: usize = elem_count(r);
                Target {
                    conversion: Conversion::Bf16ToQ8,
                    dtype: GgmlDType::Q8_0,
                    bytes: n / 32 * 34,
                }
            } else if r.dtype == GgmlDType::Mxfp4 {
                let n: usize = elem_count(r);
                Target {
                    conversion: Conversion::Mxfp4ToQ8,
                    dtype: GgmlDType::Q8_0,
                    bytes: n / 32 * 34,
                }
            } else if r.dtype == GgmlDType::Q4_1 && contains_str(r.name.as_str(), "_exps") {
                let n: usize = elem_count(r);
                Target {
                    conversion: Conversion::Q41ToQ8,
                    dtype: GgmlDType::Q8_0,
                    bytes: n / 32 * 34,
                }
            } else {
                same
            }
        },
    }
}

/// Why a tensor cannot be stored as the file has it.
pub open spec fn stored_error(r: ResolvedTensor, have: nat) -> Option<LoadError> {
    if have < r.size_bytes {
        Some(
            LoadError::ShortSlice {
                name: r.name,
                have: have as usize,
                want: r.size_bytes as usize,
            },
        )
    } else {
        None
    }
}

/// Why a tensor cannot be stored in a type that kernels read.
pub open spec fn raw_error(r: ResolvedTensor, have: nat) -> Option<LoadError> {
    let n = elems(r);
    if r.dtype == GgmlDType::BF16 {
        if have < n * 2 {
            Some(
                LoadError::Bf16Short {
                    name: r.name,
                    have: have as usize,
                    want: (n * 2) as usize,
                    elems: n as usize,
                },
            )
        } else if n % 32 != 0 {
            Some(LoadError::Bf16Blocks { name: r.name, elems: n as usize })
        } else {
            None
        }
    } else if r.dtype == GgmlDType::Mxfp4 {
        if n % 32 != 0 {
            Some(LoadError::Mxfp4Blocks { name: r.name, elems: n as usize })
        } else if have < n / 32 * 17 {
            Some(
                LoadError::Mxfp4Short {
                    name: r.name,
                    have: have as usize,
                    want: (n / 32 * 17) as usize,
                },
            )
        } else {
            None
        }
    } else if r.dtype == GgmlDType::Q4_1 && names_experts(r.name@) {
        if n % 32 != 0 {
            Some(LoadError::Q41Blocks { name: r.name, elems: n as usize })
        } else if have < n / 32 * 20 {
            Some(
                LoadError::Q41Short {
                    name: r.name,
                    have: have as usize,
                    want: (n / 32 * 20) as usize,
                },
            )
        } else {
            None
        }
    } else {
        stored_error(r, have)
    }
}

/// Why a tensor cannot be stored as F16.
pub open spec fn half_error(r: ResolvedTensor, have: nat) -> Option<LoadError> {
    if r.dtype == GgmlDType::F16 {
        stored_error(r, have)
    } else if r.dtype != GgmlDType::F32 {
        Some(LoadError::F16Dtype { name: r.name, dtype: r.dtype })
    } else if have / 4 < elems(r) {
        Some(
            LoadError::F16Short {
                name: r.name,
                have: (have / 4) as usize,
                want: elems(r) as usize,
            },
        )
    } else {
        None
    }
}

/// Why a tensor cannot be stored as Q8_0.
pub open spec fn q8_error(r: ResolvedTensor, have: nat) -> Option<LoadError> {
    if r.dtype == GgmlDType::Q8_0 {
        stored_error(r, have)
    } else if r.dtype != GgmlDType::F32 {
        Some(LoadError::Q8Dtype { name: r.name, dtype: r.dtype })
    } else if have / 4 < elems(r) {
        Some(
            LoadError::Q8Short {
                name: r.name,
                have: (have / 4) as usize,
                want: elems(r) as usize,
            },
        )
    } else if elems(r) % 32 != 0 {
        Some(LoadError::Q8Blocks { name: r.name, elems: elems(r) as usize })
    } else {
        None
    }
}

/// A fused tensor has a row for alpha and one for beta of each value head.
pub open spec fn ba_rows_match(dims: Seq<u64>, cfg: &Qwen3MoEConfig) -> bool {
    &&& dims.len() == 2
    &&& cfg.gdn matches Some(g) && dims[0] == 2 * g.num_v_heads
}

/// The rows of a fused tensor can be counted.
pub open spec fn ba_rows_fit(dims: Seq<u64>, cfg: &Qwen3MoEConfig) -> bool {
    dims.len() == 2 ==> (cfg.gdn matches Some(g) ==> 2 * g.num_v_heads <= usize::MAX)
}

/// The rows of a fused tensor can be counted, and where its heads are grouped there
/// are key heads.
pub open spec fn split_counted(dims: Seq<u64>, cfg: &Qwen3MoEConfig) -> bool {
    &&& ba_rows_fit(dims, cfg)
    &&& ba_rows_match(dims, cfg) ==> cfg.gdn->0.num_k_heads > 0
}

/// Why a fused tensor cannot be taken apart.
pub open spec fn split_error(r: ResolvedTensor, cfg: &Qwen3MoEConfig) -> Option<LoadError> {
    if r.dims@.len() != 2 {
        Some(LoadError::BaDims { name: r.name })
    } else {
        match cfg.gdn {
            None => Some(LoadError::BaNoGdn { arch: cfg.arch }),
            Some(g) => if r.dims@[0] != 2 * g.num_v_heads {
                Some(
                    LoadError::BaRows {
                        name: r.name,
                        rows: r.dims@[0] as usize,
                        want: (2 * g.num_v_heads) as usize,
                    },
                )
            } else if g.num_v_heads % g.num_k_heads != 0 {
                Some(
                    LoadError::BaHeads { num_v_heads: g.num_v_heads, num_k_heads: g.num_k_heads },
                )
            } else if r.dims@[1] % 32 != 0 {
                Some(LoadError::BaCols { name: r.name, cols: r.dims@[1] as usize })
            } else if !spec_ends_with(r.name@, ".ssm_ba.weight"@) {
                Some(LoadError::BaName { name: r.name })
            } else {
                None
            },
        }
    }
}

/// Why a tensor cannot be stored under the rule, `have` bytes of it being in the file.
pub open spec fn load_error(
    r: ResolvedTensor,
    rule: Rule,
    have: nat,
    cfg: &Qwen3MoEConfig,
) -> Option<LoadError> {
    match rule {
        Rule::AsStored => stored_error(r, have),
        Rule::Raw => raw_error(r, have),
        Rule::Half => half_error(r, have),
        Rule::Q8 => q8_error(r, have),
        Rule::Router => if r.dtype == GgmlDType::F32 {
            half_error(r, have)
        } else {
            raw_error(r, have)
        },
        Rule::Split => split_error(r, cfg),
    }
}

/// An absent error as success.
pub open spec fn outcome(e: Option<LoadError>) -> Result<(), LoadError> {
    match e {
        None => Ok(()),
        Some(e) => Err(e),
    }
}

fn check_stored(r: &ResolvedTensor, have: usize) -> (res: Result<(), LoadError>)
    requires
        sizes_fit(*r),
    ensures
        res == outcome(stored_error(*r, have as nat)),
{
    if have < r.size_bytes as usize {
        return Err(
            LoadError::ShortSlice { name: r.name.clone(), have, want: r.size_bytes as usize },
        );
    }
    Ok(())
}

fn check_raw(r: &ResolvedTensor, have: usize) -> (res: Result<(), LoadError>)
    requires
        sizes_fit(*r),
    ensures
        res == outcome(raw_error(*r, have as nat)),
{
    if r.dtype == GgmlDType::BF16 {
        let n: usize = elem_count(r);
        if have < n * 2 {
            return Err(
                LoadError::Bf16Short { name: r.name.clone(), have, want: n * 2, elems: n },
            );
        }
        if n % QK8_0 != 0 {
            return Err(LoadError::Bf16Blocks { name: r.name.clone(), elems: n });
        }
        Ok(())
    } else if r.dtype == GgmlDType::Mxfp4 {
        let n: usize = elem_count(r);
        if n % QK8_0 != 0 {
            return Err(LoadError::Mxfp4Blocks { name: r.name.clone(), elems: n });
        }
        if have < n / 32 * 17 {
            return Err(LoadError::Mxfp4Short { name: r.name.clone(), have, want: n / 32 * 17 });
        }
        Ok(())
    } else if r.dtype == GgmlDType::Q4_1 && contains_str(r.name.as_str(), "_exps") {
        let n: usize = elem_count(r);
        if n % QK8_0 != 0 {
            return Err(LoadError::Q41Blocks { name: r.name.clone(), elems: n });
        }
        if have < n / 32 * 20 {
            return Err(LoadError::Q41Short { name: r.name.clone(), have, want: n / 32 * 20 });
        }
        Ok(())
    } else {
        check_stored(r, have)
    }
}

fn check_half(r: &ResolvedTensor, have: usize) -> (res: Result<(), LoadError>)
    requires
        sizes_fit(*r),
    ensures
        res == outcome(half_error(*r, have as nat)),
{
    if r.dtype == GgmlDType::F16 {
        return check_stored(r, have);
    }
    if r.dtype != GgmlDType::F32 {
        return Err(LoadError::F16Dtype { name: r.name.clone(), dtype: r.dtype });
    }
    let n: usize = elem_count(r);
    if have / 4 < n {
        return Err(LoadError::F16Short { name: r.name.clone(), have: have / 4, want: n });
    }
    Ok(())
}

fn check_q8(r: &ResolvedTensor, have: usize) -> (res: Result<(), LoadError>)
    requires
        sizes_fit(*r),
    ensures
        res == outcome(q8_error(*r, have as nat)),
{
    if r.dtype == GgmlDType::Q8_0 {
        return check_stored(r, have);
    }
    if r.dtype != GgmlDType::F32 {
        return Err(LoadError::Q8Dtype { name: r.name.clone(), dtype: r.dtype });
    }
    let n: usize = elem_count(r);
    if have / 4 < n {
        return Err(LoadError::Q8Short { name: r.name.clone(), have: have / 4, want: n });
    }
    if n % QK8_0 != 0 {
        return Err(LoadError::Q8Blocks { name: r.name.clone(), elems: n });
    }
    Ok(())
}

/// The dims of a tensor of rows fit the machine.
pub proof fn lemma_dims_fit(r: ResolvedTensor)
    requires
        sizes_fit(r),
        r.dims@.len() == 2,
    ensures
        r.dims@[0] <= usize::MAX,
        r.dims@[1] <= usize::MAX,
        elems(r) == r.dims@[0] * r.dims@[1],
{
    let d = r.dims@;
    let t = r.dtype.spec_type_size();
    assert(d.drop_last().drop_last() =~= Seq::<u64>::empty());
    assert(product(d.drop_last().drop_last()) == 1);
    assert(product(d.drop_last()) == d[0]) by (nonlinear_arith)
        requires
            product(d.drop_last()) == product(d.drop_last().drop_last()) * d[0] as nat,
            product(d.drop_last().drop_last()) == 1,
    ;
    assert(padded_product(d.drop_last().drop_last()) == 1);
    let a = if d[0] == 0 {
        1nat
    } else {
        d[0] as nat
    };
    let b = if d[1] == 0 {
        1nat
    } else {
        d[1] as nat
    };
    assert(padded_product(d.drop_last()) == a) by (nonlinear_arith)
        requires
            padded_product(d.drop_last()) == padded_product(d.drop_last().drop_last()) * a,
            padded_product(d.drop_last().drop_last()) == 1,
    ;
    let p = padded_product(d);
    assert(p == a * b);
    assert(a <= p && b <= p) by (nonlinear_arith)
        requires
            p == a * b,
            a >= 1,
            b >= 1,
    ;
    assert(p <= p * t) by (nonlinear_arith)
        requires
            t >= 1,
            p >= 0,
    ;
}

fn check_split(r: &ResolvedTensor, cfg: &Qwen3MoEConfig) -> (res: Result<(), LoadError>)
    requires
        sizes_fit(*r),
        split_counted(r.dims@, cfg),
    ensures
        res == outcome(split_error(*r, cfg)),
{
    if r.dims.len() != 2 {
        return Err(LoadError::BaDims { name: r.name.clone() });
    }
    proof {
        lemma_dims_fit(*r);
    }
    let rows: usize = r.dims[0] as usize;
    let cols: usize = r.dims[1] as usize;
    match &cfg.gdn {
        None => Err(LoadError::BaNoGdn { arch: cfg.arch.clone() }),
        Some(g) => {
            if rows != 2 * g.num_v_heads {
                return Err(
                    LoadError::BaRows { name: r.name.clone(), rows, want: 2 * g.num_v_heads },
                );
            }
            if g.num_v_heads % g.num_k_heads != 0 {
                return Err(
                    LoadError::BaHeads { num_v_heads: g.num_v_heads, num_k_heads: g.num_k_heads },
                );
            }
            if cols % QK8_0 != 0 {
                return Err(LoadError::BaCols { name: r.name.clone(), cols });
            }
            if !ends_with(r.name.as_str(), ".ssm_ba.weight") {
                return Err(LoadError::BaName { name: r.name.clone() });
            }
            Ok(())
        },
    }
}

/// Whether a tensor can be stored under the rule, `have` bytes of it being in
/// the file.
pub fn check(r: &ResolvedTensor, rule: Rule, have: usize, cfg: &Qwen3MoEConfig) -> (res: Result<
    (),
    LoadError,
>)
    requires
        sizes_fit(*r),
        rule == Rule::Split ==> split_counted(r.dims@, cfg),
    ensures
        res == outcome(load_error(*r, rule, have as nat, cfg)),
{
    match rule {
        Rule::AsStored => check_stored(r, have),
        Rule::Raw => check_raw(r, have),
        Rule::Half => check_half(r, have),
        Rule::Q8 => check_q8(r, have),
        Rule::Router => {
            if r.dtype == GgmlDType::F32 {
                check_half(r, have)
            } else {
                check_raw(r, have)
            }
        },
        Rule::Split => check_split(r, cfg),
    }
}

/// The uploads of one tensor.
pub open spec fn uploads_of(item: Item) -> Seq<Upload> {
    let t = target_of(*item.tensor, item.rule);
    if item.rule == Rule::Split {
        seq![
            Upload { name: item.tensor.name, target: t },
            Upload {
                name: item.tensor.name,
                target: Target { conversion: Conversion::BetaRows, ..t },
            },
        ]
    } else {
        seq![Upload { name: item.tensor.name, target: t }]
    }
}

/// Preparing one tensor.
pub open spec fn item_run(item: Item, have: nat, cfg: &Qwen3MoEConfig) -> Run<Upload, LoadError> {
    match load_error(*item.tensor, item.rule, have, cfg) {
        Some(e) => fail(e),
        None => done(uploads_of(item)),
    }
}

fn plan_item(
    item: &Item,
    have: usize,
    cfg: &Qwen3MoEConfig,
    out: &mut Vec<Upload>,
) -> (res: Result<(), LoadError>)
    requires
        sizes_fit(*item.tensor),
        item.rule == Rule::Split ==> split_counted(item.tensor.dims@, cfg),
    ensures
        ran(old(out)@, final(out)@, res, item_run(*item, have as nat, cfg)),
{
    match check(item.tensor, item.rule, have, cfg) {
        Ok(_) => {},
        Err(e) => {
            proof {
                assert(out@ =~= old(out)@ + Seq::<Upload>::empty());
            }
            return Err(e);
        },
    }
    let t = target(item.tensor, item.rule);
    out.push(Upload { name: item.tensor.name.clone(), target: t });
    if item.rule == Rule::Split {
        out.push(
            Upload {
                name: item.tensor.name.clone(),
                target: Target { conversion: Conversion::BetaRows, dtype: t.dtype, bytes: t.bytes },
            },
        );
    }
    proof {
        assert(out@ =~= old(out)@ + uploads_of(*item));
    }
    Ok(())
}

/// Every tensor of the list fits the machine.
pub open spec fn items_fit(items: Seq<Item>) -> bool {
    forall|i: int| 0 <= i < items.len() ==> sizes_fit(*(#[trigger] items[i]).tensor)
}

/// The rows and heads of every fused tensor of the list can be counted.
pub open spec fn splits_counted(items: Seq<Item>, cfg: &Qwen3MoEConfig) -> bool {
    forall|i: int|
        0 <= i < items.len() && (#[trigger] items[i]).rule == Rule::Split ==> split_counted(
            items[i].tensor.dims@,
            cfg,
        )
}

/// Preparing the tensors of a list, of which the file holds `haves` bytes.
pub open spec fn items_run(items: Seq<Item>, haves: Seq<usize>, cfg: &Qwen3MoEConfig) -> Run<
    Upload,
    LoadError,
> {
    each(items.len(), |i: int| item_run(items[i], haves[i] as nat, cfg))
}

/// Lists the uploads of the tensors of a list. It stops at the first tensor
/// that cannot be stored; the uploads before it are listed.
pub fn plan_items(
    items: &Vec<Item>,
    haves: &Vec<usize>,
    cfg: &Qwen3MoEConfig,
    out: &mut Vec<Upload>,
) -> (res: Result<(), LoadError>)
    requires
        items@.len() == haves@.len(),
        items_fit(items@),
        splits_counted(items@, cfg),
    ensures
        ran(old(out)@, final(out)@, res, items_run(items@, haves@, cfg)),
{
    let ghost base = out@;
    let ghost f = |i: int| item_run(items@[i], haves@[i] as nat, cfg);
    let n: usize = items.len();
    let mut i: usize = 0;
    proof {
        assert(out@ =~= base + each(0, f).ops);
    }
    while i < n
        invariant
            i <= n,
            n == items@.len(),
            base == old(out)@,
            f == (|i: int| item_run(items@[i], haves@[i] as nat, cfg)),
            ran(base, out@, Ok::<(), LoadError>(()), each(i as nat, f)),
            items@.len() == haves@.len(),
            items_fit(items@),
            splits_counted(items@, cfg),
        decreases n - i,
    {
        let ghost mid = out@;
        match plan_item(&items[i], haves[i], cfg, out) {
            Ok(_) => {
                proof {
                    lemma_ran_then2(base, mid, out@, Ok(()), each(i as nat, f), f(i as int));
                }
            },
            Err(e) => {
                proof {
                    lemma_ran_then2(base, mid, out@, Err(e), each(i as nat, f), f(i as int));
                    lemma_each_stops((i + 1) as nat, n as nat, f);
                }
                return Err(e);
            },
        }
        i = i + 1;
    }
    Ok(())
}

/// An optional tensor as a list.
pub open spec fn opt_item<'a>(t: &'a Option<ResolvedTensor>, rule: Rule) -> Seq<Item<'a>> {
    match t {
        Some(t) => seq![Item { tensor: t, rule }],
        None => seq![],
    }
}

fn push_item<'a>(out: &mut Vec<Item<'a>>, t: &'a ResolvedTensor, rule: Rule)
    ensures
        final(out)@ == old(out)@ + seq![Item { tensor: t, rule }],
{
    out.push(Item { tensor: t, rule });
    proof {
        assert(out@ =~= old(out)@ + seq![Item { tensor: t, rule }]);
    }
}

fn push_opt_item<'a>(out: &mut Vec<Item<'a>>, t: &'a Option<ResolvedTensor>, rule: Rule)
    ensures
        final(out)@ == old(out)@ + opt_item(t, rule),
{
    if let Some(t) = t {
        out.push(Item { tensor: t, rule });
    }
    proof {
        assert(out@ =~= old(out)@ + opt_item(t, rule));
    }
}

/// The tensors of a plain self-attention block.
pub open spec fn dense_attn_items<'a>(d: &'a DenseAttnTensors, policy: Policy) -> Seq<Item<'a>> {
    seq![Item { tensor: &d.attn_q, rule: under(policy, Rule::Raw) }]
        + seq![Item { tensor: &d.attn_k, rule: under(policy, Rule::Raw) }]
        + seq![Item { tensor: &d.attn_v, rule: under(policy, Rule::Raw) }]
        + seq![Item { tensor: &d.attn_output, rule: under(policy, Rule::Raw) }]
        + seq![Item { tensor: &d.attn_q_norm, rule: under(policy, Rule::Half) }]
        + seq![Item { tensor: &d.attn_k_norm, rule: under(policy, Rule::Half) }]
        + opt_item(&d.attn_q_bias, under(policy, Rule::Raw))
        + opt_item(&d.attn_k_bias, under(policy, Rule::Raw))
        + opt_item(&d.attn_v_bias, under(policy, Rule::Raw))
}

fn list_dense_attn<'a>(d: &'a DenseAttnTensors, policy: Policy, out: &mut Vec<Item<'a>>)
    ensures
        final(out)@ == old(out)@ + dense_attn_items(d, policy),
{
    push_item(out, &d.attn_q, rule_under(policy, Rule::Raw));
    push_item(out, &d.attn_k, rule_under(policy, Rule::Raw));
    push_item(out, &d.attn_v, rule_under(policy, Rule::Raw));
    push_item(out, &d.attn_output, rule_under(policy, Rule::Raw));
    push_item(out, &d.attn_q_norm, rule_under(policy, Rule::Half));
    push_item(out, &d.attn_k_norm, rule_under(policy, Rule::Half));
    push_opt_item(out, &d.attn_q_bias, rule_under(policy, Rule::Raw));
    push_opt_item(out, &d.attn_k_bias, rule_under(policy, Rule::Raw));
    push_opt_item(out, &d.attn_v_bias, rule_under(policy, Rule::Raw));
    proof {
        assert(out@ =~= old(out)@ + dense_attn_items(d, policy));
    }
}

/// The tensors of a gated full-attention block.
pub open spec fn full_attn_items<'a>(f: &'a FullAttnTensors, policy: Policy) -> Seq<Item<'a>> {
    seq![Item { tensor: &f.attn_q, rule: under(policy, Rule::Raw) }]
        + seq![Item { tensor: &f.attn_k, rule: under(policy, Rule::Raw) }]
        + seq![Item { tensor: &f.attn_v, rule: under(policy, Rule::Raw) }]
        + seq![Item { tensor: &f.attn_output, rule: under(policy, Rule::Raw) }]
        + seq![Item { tensor: &f.attn_q_norm, rule: under(policy, Rule::Half) }]
        + seq![Item { tensor: &f.attn_k_norm, rule: under(policy, Rule::Half) }]
}

fn list_full_attn<'a>(f: &'a FullAttnTensors, policy: Policy, out: &mut Vec<Item<'a>>)
    ensures
        final(out)@ == old(out)@ + full_attn_items(f, policy),
{
    push_item(out, &f.attn_q, rule_under(policy, Rule::Raw));
    push_item(out, &f.attn_k, rule_under(policy, Rule::Raw));
    push_item(out, &f.attn_v, rule_under(policy, Rule::Raw));
    push_item(out, &f.attn_output, rule_under(policy, Rule::Raw));
    push_item(out, &f.attn_q_norm, rule_under(policy, Rule::Half));
    push_item(out, &f.attn_k_norm, rule_under(policy, Rule::Half));
    proof {
        assert(out@ =~= old(out)@ + full_attn_items(f, policy));
    }
}

/// The projections into a gated delta net.
pub open spec fn gdn_in_items<'a>(g: &'a GdnTensors, policy: Policy) -> Seq<Item<'a>> {
    seq![Item { tensor: &g.attn_qkv, rule: under(policy, Rule::Raw) }]
        + seq![Item { tensor: &g.attn_gate, rule: under(policy, Rule::Raw) }]
}

fn list_gdn_in<'a>(g: &'a GdnTensors, policy: Policy, out: &mut Vec<Item<'a>>)
    ensures
        final(out)@ == old(out)@ + gdn_in_items(g, policy),
{
    push_item(out, &g.attn_qkv, rule_under(policy, Rule::Raw));
    push_item(out, &g.attn_gate, rule_under(policy, Rule::Raw));
    proof {
        assert(out@ =~= old(out)@ + gdn_in_items(g, policy));
    }
}

/// The tensors of the gates, kept apart or fused as the file has them.
pub open spec fn gdn_gates_items<'a>(g: &'a GdnTensors, policy: Policy) -> Seq<Item<'a>> {
    opt_item(&g.ssm_alpha, under(policy, Rule::Q8))
        + opt_item(&g.ssm_beta, under(policy, Rule::Q8))
        + opt_item(&g.ssm_ba, under(policy, Rule::Raw))
}

fn list_gdn_gates<'a>(g: &'a GdnTensors, policy: Policy, out: &mut Vec<Item<'a>>)
    ensures
        final(out)@ == old(out)@ + gdn_gates_items(g, policy),
{
    push_opt_item(out, &g.ssm_alpha, rule_under(policy, Rule::Q8));
    push_opt_item(out, &g.ssm_beta, rule_under(policy, Rule::Q8));
    push_opt_item(out, &g.ssm_ba, rule_under(policy, Rule::Raw));
    proof {
        assert(out@ =~= old(out)@ + gdn_gates_items(g, policy));
    }
}

/// The other tensors of a gated delta net.
pub open spec fn gdn_rest_items<'a>(g: &'a GdnTensors, policy: Policy) -> Seq<Item<'a>> {
    seq![Item { tensor: &g.ssm_a, rule: under(policy, Rule::Raw) }]
        + seq![Item { tensor: &g.ssm_dt_bias, rule: under(policy, Rule::Raw) }]
        + seq![Item { tensor: &g.ssm_conv1d, rule: under(policy, Rule::Raw) }]
        + seq![Item { tensor: &g.ssm_norm, rule: under(policy, Rule::Raw) }]
        + seq![Item { tensor: &g.ssm_out, rule: under(policy, Rule::Raw) }]
}

fn list_gdn_rest<'a>(g: &'a GdnTensors, policy: Policy, out: &mut Vec<Item<'a>>)
    ensures
        final(out)@ == old(out)@ + gdn_rest_items(g, policy),
{
    push_item(out, &g.ssm_a, rule_under(policy, Rule::Raw));
    push_item(out, &g.ssm_dt_bias, rule_under(policy, Rule::Raw));
    push_item(out, &g.ssm_conv1d, rule_under(policy, Rule::Raw));
    push_item(out, &g.ssm_norm, rule_under(policy, Rule::Raw));
    push_item(out, &g.ssm_out, rule_under(policy, Rule::Raw));
    proof {
        assert(out@ =~= old(out)@ + gdn_rest_items(g, policy));
    }
}

/// The tensors of a shared expert.
pub open spec fn shared_items<'a>(s: &'a SharedExpertTensors, policy: Policy) -> Seq<Item<'a>> {
    seq![Item { tensor: &s.ffn_gate_inp_shexp, rule: under(policy, Rule::Raw) }]
        + seq![Item { tensor: &s.ffn_gate_shexp, rule: under(policy, Rule::Raw) }]
        + seq![Item { tensor: &s.ffn_up_shexp, rule: under(policy, Rule::Raw) }]
        + seq![Item { tensor: &s.ffn_down_shexp, rule: under(policy, Rule::Raw) }]
}

fn list_shared<'a>(s: &'a SharedExpertTensors, policy: Policy, out: &mut Vec<Item<'a>>)
    ensures
        final(out)@ == old(out)@ + shared_items(s, policy),
{
    push_item(out, &s.ffn_gate_inp_shexp, rule_under(policy, Rule::Raw));
    push_item(out, &s.ffn_gate_shexp, rule_under(policy, Rule::Raw));
    push_item(out, &s.ffn_up_shexp, rule_under(policy, Rule::Raw));
    push_item(out, &s.ffn_down_shexp, rule_under(policy, Rule::Raw));
    proof {
        assert(out@ =~= old(out)@ + shared_items(s, policy));
    }
}

/// The tensors of a dense FFN.
pub open spec fn dense_ffn_items<'a>(d: &'a DenseFfnTensors, policy: Policy) -> Seq<Item<'a>> {
    seq![Item { tensor: &d.ffn_gate, rule: under(policy, Rule::Raw) }]
        + seq![Item { tensor: &d.ffn_up, rule: under(policy, Rule::Raw) }]
        + seq![Item { tensor: &d.ffn_down, rule: under(policy, Rule::Raw) }]
}

fn list_dense_ffn<'a>(d: &'a DenseFfnTensors, policy: Policy, out: &mut Vec<Item<'a>>)
    ensures
        final(out)@ == old(out)@ + dense_ffn_items(d, policy),
{
    push_item(out, &d.ffn_gate, rule_under(policy, Rule::Raw));
    push_item(out, &d.ffn_up, rule_under(policy, Rule::Raw));
    push_item(out, &d.ffn_down, rule_under(policy, Rule::Raw));
    proof {
        assert(out@ =~= old(out)@ + dense_ffn_items(d, policy));
    }
}

/// The router and the experts.
pub open spec fn experts_items<'a>(f: &'a MoeFfnTensors, policy: Policy) -> Seq<Item<'a>> {
    opt_item(&f.ffn_gate_inp, under(policy, Rule::Router))
        + opt_item(&f.ffn_gate_exps, under(policy, Rule::Raw))
        + opt_item(&f.ffn_up_exps, under(policy, Rule::Raw))
        + opt_item(&f.ffn_down_exps, under(policy, Rule::Raw))
}

fn list_experts<'a>(f: &'a MoeFfnTensors, policy: Policy, out: &mut Vec<Item<'a>>)
    ensures
        final(out)@ == old(out)@ + experts_items(f, policy),
{
    push_opt_item(out, &f.ffn_gate_inp, rule_under(policy, Rule::Router));
    push_opt_item(out, &f.ffn_gate_exps, rule_under(policy, Rule::Raw));
    push_opt_item(out, &f.ffn_up_exps, rule_under(policy, Rule::Raw));
    push_opt_item(out, &f.ffn_down_exps, rule_under(policy, Rule::Raw));
    proof {
        assert(out@ =~= old(out)@ + experts_items(f, policy));
    }
}

/// The norms of a layer.
pub open spec fn norm_items<'a>(l: &'a LayerDescriptor, policy: Policy) -> Seq<Item<'a>> {
    seq![Item { tensor: &l.attn_norm, rule: under(policy, Rule::Half) }]
        + opt_item(&l.post_attention_norm, under(policy, Rule::Half))
        + opt_item(&l.ffn_norm, under(policy, Rule::Half))
}

fn list_norm<'a>(l: &'a LayerDescriptor, policy: Policy, out: &mut Vec<Item<'a>>)
    ensures
        final(out)@ == old(out)@ + norm_items(l, policy),
{
    push_item(out, &l.attn_norm, rule_under(policy, Rule::Half));
    push_opt_item(out, &l.post_attention_norm, rule_under(policy, Rule::Half));
    push_opt_item(out, &l.ffn_norm, rule_under(policy, Rule::Half));
    proof {
        assert(out@ =~= old(out)@ + norm_items(l, policy));
    }
}

/// The gates are fused in the file and have to be taken apart.
pub open spec fn splits(g: &GdnTensors, policy: Policy) -> bool {
    policy == Policy::ForKernels && g.ssm_alpha is None && g.ssm_beta is None && g.ssm_ba is Some
}

fn is_split(g: &GdnTensors, policy: Policy) -> (r: bool)
    ensures
        r == splits(g, policy),
{
    policy == Policy::ForKernels && g.ssm_alpha.is_none() && g.ssm_beta.is_none()
        && g.ssm_ba.is_some()
}

/// The tensors of a gated delta net. For the kernels the gates go first.
pub open spec fn gdn_items<'a>(g: &'a GdnTensors, policy: Policy) -> Seq<Item<'a>> {
    if splits(g, policy) {
        opt_item(&g.ssm_ba, Rule::Split) + gdn_in_items(g, policy) + gdn_rest_items(g, policy)
    } else if policy == Policy::ForKernels {
        gdn_gates_items(g, policy) + gdn_in_items(g, policy) + gdn_rest_items(g, policy)
    } else {
        gdn_in_items(g, policy) + gdn_gates_items(g, policy) + gdn_rest_items(g, policy)
    }
}

fn list_gdn<'a>(g: &'a GdnTensors, policy: Policy, out: &mut Vec<Item<'a>>)
    ensures
        final(out)@ == old(out)@ + gdn_items(g, policy),
{
    if is_split(g, policy) {
        push_opt_item(out, &g.ssm_ba, Rule::Split);
        list_gdn_in(g, policy, out);
    } else if policy == Policy::ForKernels {
        list_gdn_gates(g, policy, out);
        list_gdn_in(g, policy, out);
    } else {
        list_gdn_in(g, policy, out);
        list_gdn_gates(g, policy, out);
    }
    list_gdn_rest(g, policy, out);
    proof {
        assert(out@ =~= old(out)@ + gdn_items(g, policy));
    }
}

/// The tensors of an attention block.
pub open spec fn attn_items<'a>(a: &'a LayerAttnBlock, policy: Policy) -> Seq<Item<'a>> {
    match a {
        LayerAttnBlock::Dense(d) => dense_attn_items(d, policy),
        LayerAttnBlock::FullAttn(f) => full_attn_items(f, policy),
        LayerAttnBlock::Gdn(g) => gdn_items(g, policy),
    }
}

/// The tensors of an FFN: a dense one first.
pub open spec fn ffn_items<'a>(f: &'a MoeFfnTensors, policy: Policy) -> Seq<Item<'a>> {
    (match &f.dense {
        Some(d) => dense_ffn_items(d, policy),
        None => seq![],
    }) + experts_items(f, policy) + (match &f.shared {
        Some(s) => shared_items(s, policy),
        None => seq![],
    })
}

/// The tensors of a layer.
pub open spec fn layer_items<'a>(l: &'a LayerDescriptor, policy: Policy) -> Seq<Item<'a>> {
    norm_items(l, policy) + attn_items(&l.attn, policy) + ffn_items(&l.ffn, policy)
}

fn list_ffn<'a>(f: &'a MoeFfnTensors, policy: Policy, out: &mut Vec<Item<'a>>)
    ensures
        final(out)@ == old(out)@ + ffn_items(f, policy),
{
    if let Some(d) = &f.dense {
        list_dense_ffn(d, policy, out);
    }
    list_experts(f, policy, out);
    if let Some(s) = &f.shared {
        list_shared(s, policy, out);
    }
    proof {
        let dense = match &f.dense {
            Some(d) => dense_ffn_items(d, policy),
            None => seq![],
        };
        let shared = match &f.shared {
            Some(s) => shared_items(s, policy),
            None => seq![],
        };
        lemma_three_parts(old(out)@, dense, experts_items(f, policy), shared);
    }
}

fn list_attn<'a>(a: &'a LayerAttnBlock, policy: Policy, out: &mut Vec<Item<'a>>)
    ensures
        final(out)@ == old(out)@ + attn_items(a, policy),
{
    match a {
        LayerAttnBlock::Dense(d) => {
            list_dense_attn(d, policy, out);
        },
        LayerAttnBlock::FullAttn(f) => {
            list_full_attn(f, policy, out);
        },
        LayerAttnBlock::Gdn(g) => {
            list_gdn(g, policy, out);
        },
    }
}

proof fn lemma_three_parts<T>(base: Seq<T>, a: Seq<T>, b: Seq<T>, c: Seq<T>)
    ensures
        base + a + b + c == base + (a + b + c),
{
    assert(base + a + b + c =~= base + (a + b + c));
}

/// Lists the tensors of a layer in the order of their upload.
pub fn list_layer<'a>(l: &'a LayerDescriptor, policy: Policy, out: &mut Vec<Item<'a>>)
    ensures
        final(out)@ == old(out)@ + layer_items(l, policy),
{
    list_norm(l, policy, out);
    list_attn(&l.attn, policy, out);
    list_ffn(&l.ffn, policy, out);
    proof {
        lemma_three_parts(
            old(out)@,
            norm_items(l, policy),
            attn_items(&l.attn, policy),
            ffn_items(&l.ffn, policy),
        );
    }
}

/// The tensors of a whole model: those outside the layers first.
pub open spec fn model_items<'a>(layout: &'a ModelLayout) -> Seq<Item<'a>> {
    seq![
        Item { tensor: &layout.token_embd, rule: Rule::AsStored },
        Item { tensor: &layout.output_norm, rule: Rule::AsStored },
    ] + opt_item(&layout.output, Rule::AsStored) + flat(
        layout.layers@.len(),
        |i: int| layer_items(&layout.layers@[i], Policy::Verbatim),
    )
}

/// Lists the tensors of a whole model in the order of their upload to one device.
pub fn list_model<'a>(layout: &'a ModelLayout) -> (out: Vec<Item<'a>>)
    ensures
        out@ == model_items(layout),
{
    let mut out: Vec<Item<'a>> = Vec::new();
    push_item(&mut out, &layout.token_embd, Rule::AsStored);
    push_item(&mut out, &layout.output_norm, Rule::AsStored);
    push_opt_item(&mut out, &layout.output, Rule::AsStored);
    let ghost base = seq![
        Item { tensor: &layout.token_embd, rule: Rule::AsStored },
        Item { tensor: &layout.output_norm, rule: Rule::AsStored },
    ] + opt_item(&layout.output, Rule::AsStored);
    let ghost f = |i: int| layer_items(&layout.layers@[i], Policy::Verbatim);
    let mut i: usize = 0;
    proof {
        assert(out@ =~= base + flat(0, f));
    }
    while i < layout.layers.len()
        invariant
            i <= layout.layers@.len(),
            f == (|i: int| layer_items(&layout.layers@[i], Policy::Verbatim)),
            out@ == base + flat(i as nat, f),
        decreases layout.layers@.len() - i,
    {
        list_layer(&layout.layers[i], Policy::Verbatim, &mut out);
        proof {
            assert(out@ =~= base + flat((i + 1) as nat, f));
        }
        i = i + 1;
    }
    out
}

/// The rank needs the embedding.
pub open spec fn embeds(cfg: &Qwen3MoEConfig, first: bool, last: bool) -> bool {
    first || (last && cfg.tied_lm_head)
}

/// The tensors of a pipeline rank: its layers, then what it needs of the others.
pub open spec fn rank_items<'a>(
    layout: &'a ModelLayout,
    cfg: &Qwen3MoEConfig,
    owned: Seq<usize>,
    first: bool,
    last: bool,
) -> Seq<Item<'a>> {
    flat(
        owned.len(),
        |i: int| layer_items(&layout.layers@[owned[i] as int], Policy::ForKernels),
    ) + (if embeds(cfg, first, last) {
        seq![Item { tensor: &layout.token_embd, rule: Rule::Raw }]
    } else {
        seq![]
    }) + (if last {
        seq![Item { tensor: &layout.output_norm, rule: Rule::Half }]
    } else {
        seq![]
    }) + (if last {
        opt_item(&layout.output, Rule::Raw)
    } else {
        seq![]
    })
}

/// Lists the tensors of a pipeline rank in the order of their upload. `owned`
/// are the rank's layers.
pub fn list_rank<'a>(
    layout: &'a ModelLayout,
    cfg: &Qwen3MoEConfig,
    owned: &Vec<usize>,
    first: bool,
    last: bool,
) -> (out: Vec<Item<'a>>)
    requires
        forall|i: int| 0 <= i < owned@.len() ==> #[trigger] owned@[i] < layout.layers@.len(),
    ensures
        out@ == rank_items(layout, cfg, owned@, first, last),
{
    let mut out: Vec<Item<'a>> = Vec::new();
    let ghost f = |i: int| layer_items(&layout.layers@[owned@[i] as int], Policy::ForKernels);
    let mut i: usize = 0;
    while i < owned.len()
        invariant
            i <= owned@.len(),
            forall|i: int| 0 <= i < owned@.len() ==> #[trigger] owned@[i] < layout.layers@.len(),
            f == (|i: int| layer_items(&layout.layers@[owned@[i] as int], Policy::ForKernels)),
            out@ == flat(i as nat, f),
        decreases owned@.len() - i,
    {
        list_layer(&layout.layers[owned[i]], Policy::ForKernels, &mut out);
        i = i + 1;
    }
    if first || (last && cfg.tied_lm_head) {
        push_item(&mut out, &layout.token_embd, Rule::Raw);
    }
    if last {
        push_item(&mut out, &layout.output_norm, Rule::Half);
        push_opt_item(&mut out, &layout.output, Rule::Raw);
    }
    proof {
        assert(out@ =~= rank_items(layout, cfg, owned@, first, last));
    }
    out
}

/// Where an uploaded tensor went.
#[derive(Debug, Clone)]
pub struct PlacedTensor {
    pub name: String,
    pub ptr: DevicePtr,
}

/// Where the tensor of that name went: the first entry counts, and a tensor
/// without one is nowhere.
pub open spec fn ptr_of(placed: Seq<PlacedTensor>, name: Seq<char>) -> DevicePtr
    decreases placed.len(),
{
    if placed.len() == 0 {
        DevicePtr(0)
    } else if placed[0].name@ == name {
        placed[0].ptr
    } else {
        ptr_of(placed.drop_first(), name)
    }
}

proof fn lemma_ptr_of_at(placed: Seq<PlacedTensor>, name: Seq<char>, k: int)
    requires
        0 <= k <= placed.len(),
        forall|j: int| 0 <= j < k ==> (#[trigger] placed[j]).name@ != name,
    ensures
        k == placed.len() ==> ptr_of(placed, name) == DevicePtr(0),
        k < placed.len() && placed[k].name@ == name ==> ptr_of(placed, name) == placed[k].ptr,
    decreases placed.len(),
{
    if k > 0 {
        let t = placed.drop_first();
        assert forall|j: int| 0 <= j < k - 1 implies (#[trigger] t[j]).name@ != name by {
            assert(t[j] == placed[j + 1]);
        }
        lemma_ptr_of_at(t, name, k - 1);
        if k < placed.len() {
            assert(t[k - 1] == placed[k]);
        }
        assert(placed[0].name@ != name);
    }
}

/// Where the tensor of that name went.
pub fn find_ptr(placed: &Vec<PlacedTensor>, name: &str) -> (r: DevicePtr)
    ensures
        r == ptr_of(placed@, name@),
{
    let mut i: usize = 0;
    while i < placed.len()
        invariant
            i <= placed@.len(),
            forall|j: int| 0 <= j < i ==> (#[trigger] placed@[j]).name@ != name@,
        decreases placed@.len() - i,
    {
        if str_eq(placed[i].name.as_str(), name) {
            proof {
                lemma_ptr_of_at(placed@, name@, i as int);
            }
            return placed[i].ptr;
        }
        i = i + 1;
    }
    proof {
        lemma_ptr_of_at(placed@, name@, placed@.len() as int);
    }
    DevicePtr(0)
}

/// The tensor on the device that a tensor of the file became under a rule.
pub open spec fn is_on_device(
    d: DeviceTensor,
    r: ResolvedTensor,
    rule: Rule,
    placed: Seq<PlacedTensor>,
) -> bool {
    &&& d.name@ == r.name@
    &&& d.dims@ == r.dims@
    &&& d.dtype == target_of(r, rule).dtype
    &&& d.bytes == target_of(r, rule).bytes
    &&& d.ptr == ptr_of(placed, r.name@)
}

/// The same of an optional tensor.
pub open spec fn opt_on_device(
    d: Option<DeviceTensor>,
    r: Option<ResolvedTensor>,
    rule: Rule,
    placed: Seq<PlacedTensor>,
) -> bool {
    match r {
        Some(r) => d is Some && is_on_device(d->0, r, rule, placed),
        None => d is None,
    }
}

/// A copy of dims.
pub fn copy_dims(dims: &Vec<u64>) -> (r: Vec<u64>)
    ensures
        r@ == dims@,
{
    let mut r: Vec<u64> = Vec::new();
    let mut i: usize = 0;
    while i < dims.len()
        invariant
            i <= dims@.len(),
            r@ == dims@.take(i as int),
        decreases dims@.len() - i,
    {
        r.push(dims[i]);
        proof {
            assert(dims@.take(i as int + 1) =~= dims@.take(i as int).push(dims@[i as int]));
        }
        i = i + 1;
    }
    proof {
        assert(dims@.take(dims@.len() as int) =~= dims@);
    }
    r
}

/// The tensor on the device that a tensor of the file became under a rule.
pub fn on_device(r: &ResolvedTensor, rule: Rule, placed: &Vec<PlacedTensor>) -> (d: DeviceTensor)
    requires
        sizes_fit(*r),
    ensures
        is_on_device(d, *r, rule, placed@),
{
    let t = target(r, rule);
    DeviceTensor {
        ptr: find_ptr(placed, r.name.as_str()),
        dtype: t.dtype,
        dims: copy_dims(&r.dims),
        bytes: t.bytes,
        name: r.name.clone(),
    }
}

/// An optional tensor fits the machine.
pub open spec fn opt_fits(r: Option<ResolvedTensor>) -> bool {
    r matches Some(r) ==> sizes_fit(r)
}

fn opt_device(r: &Option<ResolvedTensor>, rule: Rule, placed: &Vec<PlacedTensor>) -> (d: Option<
    DeviceTensor,
>)
    requires
        opt_fits(*r),
    ensures
        opt_on_device(d, *r, rule, placed@),
{
    match r {
        Some(r) => Some(on_device(r, rule, placed)),
        None => None,
    }
}

/// The tensors of the block fit the machine.
pub open spec fn dense_attn_fits(d: &DenseAttnTensors) -> bool {
    &&& sizes_fit(d.attn_q)
    &&& sizes_fit(d.attn_k)
    &&& sizes_fit(d.attn_v)
    &&& sizes_fit(d.attn_output)
    &&& sizes_fit(d.attn_q_norm)
    &&& sizes_fit(d.attn_k_norm)
    &&& opt_fits(d.attn_q_bias)
    &&& opt_fits(d.attn_k_bias)
    &&& opt_fits(d.attn_v_bias)
}

/// The weights are the block's tensors.
pub open spec fn dense_attn_on_device(
    w: &DenseAttnWeights,
    d: &DenseAttnTensors,
    policy: Policy,
    placed: Seq<PlacedTensor>,
) -> bool {
    &&& is_on_device(w.attn_q, d.attn_q, under(policy, Rule::Raw), placed)
    &&& is_on_device(w.attn_k, d.attn_k, under(policy, Rule::Raw), placed)
    &&& is_on_device(w.attn_v, d.attn_v, under(policy, Rule::Raw), placed)
    &&& is_on_device(w.attn_output, d.attn_output, under(policy, Rule::Raw), placed)
    &&& is_on_device(w.attn_q_norm, d.attn_q_norm, under(policy, Rule::Half), placed)
    &&& is_on_device(w.attn_k_norm, d.attn_k_norm, under(policy, Rule::Half), placed)
    &&& opt_on_device(w.attn_q_bias, d.attn_q_bias, under(policy, Rule::Raw), placed)
    &&& opt_on_device(w.attn_k_bias, d.attn_k_bias, under(policy, Rule::Raw), placed)
    &&& opt_on_device(w.attn_v_bias, d.attn_v_bias, under(policy, Rule::Raw), placed)
}

fn dense_attn_weights(
    d: &DenseAttnTensors,
    policy: Policy,
    placed: &Vec<PlacedTensor>,
) -> (w: DenseAttnWeights)
    requires
        dense_attn_fits(d),
    ensures
        dense_attn_on_device(&w, d, policy, placed@),
{
    DenseAttnWeights {
        attn_q: on_device(&d.attn_q, rule_under(policy, Rule::Raw), placed),
        attn_k: on_device(&d.attn_k, rule_under(policy, Rule::Raw), placed),
        attn_v: on_device(&d.attn_v, rule_under(policy, Rule::Raw), placed),
        attn_output: on_device(&d.attn_output, rule_under(policy, Rule::Raw), placed),
        attn_q_norm: on_device(&d.attn_q_norm, rule_under(policy, Rule::Half), placed),
        attn_k_norm: on_device(&d.attn_k_norm, rule_under(policy, Rule::Half), placed),
        attn_q_bias: opt_device(&d.attn_q_bias, rule_under(policy, Rule::Raw), placed),
        attn_k_bias: opt_device(&d.attn_k_bias, rule_under(policy, Rule::Raw), placed),
        attn_v_bias: opt_device(&d.attn_v_bias, rule_under(policy, Rule::Raw), placed),
    }
}

/// The tensors of the block fit the machine.
pub open spec fn full_attn_fits(f: &FullAttnTensors) -> bool {
    &&& sizes_fit(f.attn_q)
    &&& sizes_fit(f.attn_k)
    &&& sizes_fit(f.attn_v)
    &&& sizes_fit(f.attn_output)
    &&& sizes_fit(f.attn_q_norm)
    &&& sizes_fit(f.attn_k_norm)
}

/// The weights are the block's tensors.
pub open spec fn full_attn_on_device(
    w: &FullAttnWeights,
    f: &FullAttnTensors,
    policy: Policy,
    placed: Seq<PlacedTensor>,
) -> bool {
    &&& is_on_device(w.attn_q, f.attn_q, under(policy, Rule::Raw), placed)
    &&& is_on_device(w.attn_k, f.attn_k, under(policy, Rule::Raw), placed)
    &&& is_on_device(w.attn_v, f.attn_v, under(policy, Rule::Raw), placed)
    &&& is_on_device(w.attn_output, f.attn_output, under(policy, Rule::Raw), placed)
    &&& is_on_device(w.attn_q_norm, f.attn_q_norm, under(policy, Rule::Half), placed)
    &&& is_on_device(w.attn_k_norm, f.attn_k_norm, under(policy, Rule::Half), placed)
}

fn full_attn_weights(
    f: &FullAttnTensors,
    policy: Policy,
    placed: &Vec<PlacedTensor>,
) -> (w: FullAttnWeights)
    requires
        full_attn_fits(f),
    ensures
        full_attn_on_device(&w, f, policy, placed@),
{
    FullAttnWeights {
        attn_q: on_device(&f.attn_q, rule_under(policy, Rule::Raw), placed),
        attn_k: on_device(&f.attn_k, rule_under(policy, Rule::Raw), placed),
        attn_v: on_device(&f.attn_v, rule_under(policy, Rule::Raw), placed),
        attn_output: on_device(&f.attn_output, rule_under(policy, Rule::Raw), placed),
        attn_q_norm: on_device(&f.attn_q_norm, rule_under(policy, Rule::Half), placed),
        attn_k_norm: on_device(&f.attn_k_norm, rule_under(policy, Rule::Half), placed),
    }
}

/// The tensors of the block fit the machine.
pub open spec fn shared_fits(s: &SharedExpertTensors) -> bool {
    &&& sizes_fit(s.ffn_gate_inp_shexp)
    &&& sizes_fit(s.ffn_gate_shexp)
    &&& sizes_fit(s.ffn_up_shexp)
    &&& sizes_fit(s.ffn_down_shexp)
}

/// The weights are the expert's tensors.
pub open spec fn shared_on_device(
    w: &SharedExpertWeights,
    s: &SharedExpertTensors,
    policy: Policy,
    placed: Seq<PlacedTensor>,
) -> bool {
    &&& is_on_device(w.ffn_gate_inp_shexp, s.ffn_gate_inp_shexp, under(policy, Rule::Raw), placed)
    &&& is_on_device(w.ffn_gate_shexp, s.ffn_gate_shexp, under(policy, Rule::Raw), placed)
    &&& is_on_device(w.ffn_up_shexp, s.ffn_up_shexp, under(policy, Rule::Raw), placed)
    &&& is_on_device(w.ffn_down_shexp, s.ffn_down_shexp, under(policy, Rule::Raw), placed)
}

fn shared_weights(
    s: &SharedExpertTensors,
    policy: Policy,
    placed: &Vec<PlacedTensor>,
) -> (w: SharedExpertWeights)
    requires
        shared_fits(s),
    ensures
        shared_on_device(&w, s, policy, placed@),
{
    SharedExpertWeights {
        ffn_gate_inp_shexp: on_device(&s.ffn_gate_inp_shexp, rule_under(policy, Rule::Raw), placed),
        ffn_gate_shexp: on_device(&s.ffn_gate_shexp, rule_under(policy, Rule::Raw), placed),
        ffn_up_shexp: on_device(&s.ffn_up_shexp, rule_under(policy, Rule::Raw), placed),
        ffn_down_shexp: on_device(&s.ffn_down_shexp, rule_under(policy, Rule::Raw), placed),
    }
}

/// The tensors of the block fit the machine.
pub open spec fn dense_ffn_fits(d: &DenseFfnTensors) -> bool {
    &&& sizes_fit(d.ffn_gate)
    &&& sizes_fit(d.ffn_up)
    &&& sizes_fit(d.ffn_down)
}

/// The weights are the FFN's tensors.
pub open spec fn dense_ffn_on_device(
    w: &DenseFfnWeights,
    d: &DenseFfnTensors,
    policy: Policy,
    placed: Seq<PlacedTensor>,
) -> bool {
    &&& is_on_device(w.ffn_gate, d.ffn_gate, under(policy, Rule::Raw), placed)
    &&& is_on_device(w.ffn_up, d.ffn_up, under(policy, Rule::Raw), placed)
    &&& is_on_device(w.ffn_down, d.ffn_down, under(policy, Rule::Raw), placed)
}

fn dense_ffn_weights(
    d: &DenseFfnTensors,
    policy: Policy,
    placed: &Vec<PlacedTensor>,
) -> (w: DenseFfnWeights)
    requires
        dense_ffn_fits(d),
    ensures
        dense_ffn_on_device(&w, d, policy, placed@),
{
    DenseFfnWeights {
        ffn_gate: on_device(&d.ffn_gate, rule_under(policy, Rule::Raw), placed),
        ffn_up: on_device(&d.ffn_up, rule_under(policy, Rule::Raw), placed),
        ffn_down: on_device(&d.ffn_down, rule_under(policy, Rule::Raw), placed),
    }
}

/// The name of one half of a fused tensor.
pub open spec fn half_name(fused: Seq<char>, half: Seq<char>) -> Seq<char> {
    fused.take(fused.len() - ".ssm_ba.weight"@.len()) + half
}

/// One half of a fused tensor on the device.
pub open spec fn half_on_device(
    d: DeviceTensor,
    r: ResolvedTensor,
    half: Seq<char>,
    placed: Seq<PlacedTensor>,
) -> bool {
    &&& d.name@ == half_name(r.name@, half)
    &&& d.dims@ == seq![(r.dims@[0] / 2) as u64, r.dims@[1]]
    &&& d.dtype == GgmlDType::Q8_0
    &&& d.bytes == half_bytes(r)
    &&& d.ptr == ptr_of(placed, half_name(r.name@, half))
}

/// The tensor is a fused one.
pub open spec fn is_fused(r: ResolvedTensor) -> bool {
    r.dims@.len() == 2 && spec_ends_with(r.name@, ".ssm_ba.weight"@)
}

/// The name of one half of a fused tensor.
pub fn name_of_half(fused: &str, half: &str) -> (r: String)
    requires
        spec_ends_with(fused@, ".ssm_ba.weight"@),
    ensures
        r@ == half_name(fused@, half@),
{
    match strip_suffix(fused, ".ssm_ba.weight") {
        Some(stem) => {
            let mut s = owned(stem);
            s.append(half);
            s
        },
        None => owned(half),
    }
}

fn half_device(r: &ResolvedTensor, half: &str, placed: &Vec<PlacedTensor>) -> (d: DeviceTensor)
    requires
        sizes_fit(*r),
        is_fused(*r),
    ensures
        half_on_device(d, *r, half@, placed@),
{
    let name = name_of_half(r.name.as_str(), half);
    let n: usize = elem_count(r) / 2;
    let mut dims: Vec<u64> = Vec::new();
    dims.push(r.dims[0] / 2);
    dims.push(r.dims[1]);
    let ptr = find_ptr(placed, name.as_str());
    proof {
        assert(dims@ =~= seq![(r.dims@[0] / 2) as u64, r.dims@[1]]);
    }
    DeviceTensor { ptr, dtype: GgmlDType::Q8_0, dims, bytes: n / 32 * 34, name }
}

/// The tensors of the block fit the machine, and a fused one is one.
pub open spec fn gdn_fits(g: &GdnTensors) -> bool {
    &&& sizes_fit(g.attn_qkv)
    &&& sizes_fit(g.attn_gate)
    &&& sizes_fit(g.ssm_a)
    &&& sizes_fit(g.ssm_dt_bias)
    &&& sizes_fit(g.ssm_conv1d)
    &&& sizes_fit(g.ssm_norm)
    &&& sizes_fit(g.ssm_out)
    &&& opt_fits(g.ssm_alpha)
    &&& opt_fits(g.ssm_beta)
    &&& opt_fits(g.ssm_ba)
}

/// The gates on the device: alpha and beta apart where the file has them fused
/// and the kernels read them.
pub open spec fn gates_on_device(
    w: &GdnWeights,
    g: &GdnTensors,
    policy: Policy,
    placed: Seq<PlacedTensor>,
) -> bool {
    if splits(g, policy) {
        &&& w.ssm_alpha is Some && half_on_device(
            w.ssm_alpha->0,
            g.ssm_ba->0,
            ".ssm_alpha.weight"@,
            placed,
        )
        &&& w.ssm_beta is Some && half_on_device(
            w.ssm_beta->0,
            g.ssm_ba->0,
            ".ssm_beta.weight"@,
            placed,
        )
        &&& w.ssm_ba is None
    } else {
        &&& opt_on_device(w.ssm_alpha, g.ssm_alpha, under(policy, Rule::Q8), placed)
        &&& opt_on_device(w.ssm_beta, g.ssm_beta, under(policy, Rule::Q8), placed)
        &&& opt_on_device(w.ssm_ba, g.ssm_ba, under(policy, Rule::Raw), placed)
    }
}

/// The weights are the block's tensors.
pub open spec fn gdn_on_device(
    w: &GdnWeights,
    g: &GdnTensors,
    policy: Policy,
    placed: Seq<PlacedTensor>,
) -> bool {
    let raw = under(policy, Rule::Raw);
    &&& is_on_device(w.attn_qkv, g.attn_qkv, raw, placed)
    &&& is_on_device(w.attn_gate, g.attn_gate, raw, placed)
    &&& is_on_device(w.ssm_a, g.ssm_a, raw, placed)
    &&& is_on_device(w.ssm_dt_bias, g.ssm_dt_bias, raw, placed)
    &&& is_on_device(w.ssm_conv1d, g.ssm_conv1d, raw, placed)
    &&& is_on_device(w.ssm_norm, g.ssm_norm, raw, placed)
    &&& is_on_device(w.ssm_out, g.ssm_out, raw, placed)
    &&& gates_on_device(w, g, policy, placed)
}

fn gdn_weights(g: &GdnTensors, policy: Policy, placed: &Vec<PlacedTensor>) -> (w: GdnWeights)
    requires
        gdn_fits(g),
        splits(g, policy) ==> is_fused(g.ssm_ba->0),
    ensures
        gdn_on_device(&w, g, policy, placed@),
{
    let raw = rule_under(policy, Rule::Raw);
    let q8 = rule_under(policy, Rule::Q8);
    let mut w = GdnWeights {
        attn_qkv: on_device(&g.attn_qkv, raw, placed),
        attn_gate: on_device(&g.attn_gate, raw, placed),
        ssm_a: on_device(&g.ssm_a, raw, placed),
        ssm_dt_bias: on_device(&g.ssm_dt_bias, raw, placed),
        ssm_conv1d: on_device(&g.ssm_conv1d, raw, placed),
        ssm_norm: on_device(&g.ssm_norm, raw, placed),
        ssm_out: on_device(&g.ssm_out, raw, placed),
        ssm_alpha: None,
        ssm_beta: None,
        ssm_ba: None,
    };
    if is_split(g, policy) {
        if let Some(ba) = &g.ssm_ba {
            w.ssm_alpha = Some(half_device(ba, ".ssm_alpha.weight", placed));
            w.ssm_beta = Some(half_device(ba, ".ssm_beta.weight", placed));
        }
    } else {
        w.ssm_alpha = opt_device(&g.ssm_alpha, q8, placed);
        w.ssm_beta = opt_device(&g.ssm_beta, q8, placed);
        w.ssm_ba = opt_device(&g.ssm_ba, raw, placed);
    }
    w
}

/// The tensors of the block fit the machine.
pub open spec fn attn_fits(a: &LayerAttnBlock) -> bool {
    match a {
        LayerAttnBlock::Dense(d) => dense_attn_fits(d),
        LayerAttnBlock::FullAttn(f) => full_attn_fits(f),
        LayerAttnBlock::Gdn(g) => gdn_fits(g),
    }
}

/// A fused tensor that is taken apart is one.
pub open spec fn fused_ok(a: &LayerAttnBlock, policy: Policy) -> bool {
    a matches LayerAttnBlock::Gdn(g) ==> splits(&g, policy) ==> is_fused(g.ssm_ba->0)
}

/// The weights are the block's tensors.
pub open spec fn attn_on_device(
    w: &AttnWeights,
    a: &LayerAttnBlock,
    policy: Policy,
    placed: Seq<PlacedTensor>,
) -> bool {
    match a {
        LayerAttnBlock::Dense(d) => w matches AttnWeights::Dense(x) && dense_attn_on_device(
            &x,
            d,
            policy,
            placed,
        ),
        LayerAttnBlock::FullAttn(f) => w matches AttnWeights::FullAttn(x) && full_attn_on_device(
            &x,
            f,
            policy,
            placed,
        ),
        LayerAttnBlock::Gdn(g) => w matches AttnWeights::Gdn(x) && gdn_on_device(
            &x,
            g,
            policy,
            placed,
        ),
    }
}

/// The tensors of the FFN fit the machine.
pub open spec fn ffn_fits(f: &MoeFfnTensors) -> bool {
    &&& opt_fits(f.ffn_gate_inp)
    &&& opt_fits(f.ffn_gate_exps)
    &&& opt_fits(f.ffn_up_exps)
    &&& opt_fits(f.ffn_down_exps)
    &&& f.shared matches Some(s) ==> shared_fits(&s)
    &&& f.dense matches Some(d) ==> dense_ffn_fits(&d)
}

/// The weights are the FFN's tensors.
pub open spec fn ffn_on_device(
    w: &FfnWeights,
    f: &MoeFfnTensors,
    policy: Policy,
    placed: Seq<PlacedTensor>,
) -> bool {
    let raw = under(policy, Rule::Raw);
    &&& opt_on_device(w.ffn_gate_inp, f.ffn_gate_inp, under(policy, Rule::Router), placed)
    &&& opt_on_device(w.ffn_gate_exps, f.ffn_gate_exps, raw, placed)
    &&& opt_on_device(w.ffn_up_exps, f.ffn_up_exps, raw, placed)
    &&& opt_on_device(w.ffn_down_exps, f.ffn_down_exps, raw, placed)
    &&& match f.shared {
        Some(s) => w.shared is Some && shared_on_device(&w.shared->0, &s, policy, placed),
        None => w.shared is None,
    }
    &&& match f.dense {
        Some(d) => w.dense is Some && dense_ffn_on_device(&w.dense->0, &d, policy, placed),
        None => w.dense is None,
    }
}

/// The tensors of the layer fit the machine.
pub open spec fn layer_fits(l: &LayerDescriptor) -> bool {
    &&& sizes_fit(l.attn_norm)
    &&& opt_fits(l.post_attention_norm)
    &&& opt_fits(l.ffn_norm)
    &&& attn_fits(&l.attn)
    &&& ffn_fits(&l.ffn)
}

/// The weights are the layer's tensors.
pub open spec fn layer_on_device(
    w: &LayerWeights,
    l: &LayerDescriptor,
    policy: Policy,
    placed: Seq<PlacedTensor>,
) -> bool {
    let half = under(policy, Rule::Half);
    &&& w.layer_idx == l.layer_idx
    &&& is_on_device(w.attn_norm, l.attn_norm, half, placed)
    &&& opt_on_device(w.post_attention_norm, l.post_attention_norm, half, placed)
    &&& opt_on_device(w.ffn_norm, l.ffn_norm, half, placed)
    &&& attn_on_device(&w.attn, &l.attn, policy, placed)
    &&& ffn_on_device(&w.ffn, &l.ffn, policy, placed)
}

/// Puts the weights of a layer together.
pub fn layer_weights(l: &LayerDescriptor, policy: Policy, placed: &Vec<PlacedTensor>) -> (w:
    LayerWeights)
    requires
        layer_fits(l),
        fused_ok(&l.attn, policy),
    ensures
        layer_on_device(&w, l, policy, placed@),
{
    let half = rule_under(policy, Rule::Half);
    let raw = rule_under(policy, Rule::Raw);
    let attn = match &l.attn {
        LayerAttnBlock::Dense(d) => AttnWeights::Dense(dense_attn_weights(d, policy, placed)),
        LayerAttnBlock::FullAttn(f) => AttnWeights::FullAttn(full_attn_weights(f, policy, placed)),
        LayerAttnBlock::Gdn(g) => AttnWeights::Gdn(gdn_weights(g, policy, placed)),
    };
    let shared = match &l.ffn.shared {
        Some(s) => Some(shared_weights(s, policy, placed)),
        None => None,
    };
    let dense = match &l.ffn.dense {
        Some(d) => Some(dense_ffn_weights(d, policy, placed)),
        None => None,
    };
    LayerWeights {
        layer_idx: l.layer_idx,
        attn_norm: on_device(&l.attn_norm, half, placed),
        post_attention_norm: opt_device(&l.post_attention_norm, half, placed),
        ffn_norm: opt_device(&l.ffn_norm, half, placed),
        attn,
        ffn: FfnWeights {
            ffn_gate_inp: opt_device(
                &l.ffn.ffn_gate_inp,
                rule_under(policy, Rule::Router),
                placed,
            ),
            ffn_gate_exps: opt_device(&l.ffn.ffn_gate_exps, raw, placed),
            ffn_up_exps: opt_device(&l.ffn.ffn_up_exps, raw, placed),
            ffn_down_exps: opt_device(&l.ffn.ffn_down_exps, raw, placed),
            shared,
            dense,
        },
    }
}

/// Bytes that a tensor takes on the device.
pub open spec fn weight(item: Item) -> nat {
    let b = target_of(*item.tensor, item.rule).bytes as nat;
    if item.rule == Rule::Split {
        2 * b
    } else {
        b
    }
}

/// Bytes of each tensor of a list.
pub open spec fn weights(items: Seq<Item>) -> Seq<nat> {
    Seq::new(items.len(), |i: int| weight(items[i]))
}

/// Bytes that the tensors of a list take on the device.
pub open spec fn weigh(items: Seq<Item>) -> nat {
    sum(weights(items))
}

/// Lists weigh what their parts weigh.
pub proof fn lemma_weigh_concat(a: Seq<Item>, b: Seq<Item>)
    ensures
        weigh(a + b) == weigh(a) + weigh(b),
{
    assert(weights(a + b) =~= weights(a) + weights(b));
    lemma_sum_concat(weights(a), weights(b));
}

proof fn lemma_opt_weighs(
    d: Option<DeviceTensor>,
    r: Option<ResolvedTensor>,
    rule: Rule,
    placed: Seq<PlacedTensor>,
)
    requires
        opt_on_device(d, r, rule, placed),
        rule != Rule::Split,
    ensures
        bytes_of(opt_list(d)) == weigh(opt_item(&r, rule)),
{
    assert(sizes_of(opt_list(d)) =~= weights(opt_item(&r, rule)));
}

/// Three optional tensors behind a list.
proof fn lemma_three_weigh(
    head: Seq<DeviceTensor>,
    d1: Option<DeviceTensor>,
    d2: Option<DeviceTensor>,
    d3: Option<DeviceTensor>,
    i_head: Seq<Item>,
    r1: Option<ResolvedTensor>,
    r2: Option<ResolvedTensor>,
    r3: Option<ResolvedTensor>,
    rule1: Rule,
    rule2: Rule,
    rule3: Rule,
    placed: Seq<PlacedTensor>,
)
    requires
        bytes_of(head) == weigh(i_head),
        opt_on_device(d1, r1, rule1, placed),
        opt_on_device(d2, r2, rule2, placed),
        opt_on_device(d3, r3, rule3, placed),
        rule1 != Rule::Split,
        rule2 != Rule::Split,
        rule3 != Rule::Split,
    ensures
        bytes_of(head + opt_list(d1) + opt_list(d2) + opt_list(d3)) == weigh(
            i_head + opt_item(&r1, rule1) + opt_item(&r2, rule2) + opt_item(&r3, rule3),
        ),
{
    lemma_opt_weighs(d1, r1, rule1, placed);
    lemma_opt_weighs(d2, r2, rule2, placed);
    lemma_opt_weighs(d3, r3, rule3, placed);
    lemma_bytes_concat(head, opt_list(d1));
    lemma_bytes_concat(head + opt_list(d1), opt_list(d2));
    lemma_bytes_concat(head + opt_list(d1) + opt_list(d2), opt_list(d3));
    let i1 = opt_item(&r1, rule1);
    let i2 = opt_item(&r2, rule2);
    let i3 = opt_item(&r3, rule3);
    lemma_weigh_concat(i_head, i1);
    lemma_weigh_concat(i_head + i1, i2);
    lemma_weigh_concat(i_head + i1 + i2, i3);
}

proof fn lemma_dense_attn_weighs(
    w: DenseAttnWeights,
    d: DenseAttnTensors,
    policy: Policy,
    placed: Seq<PlacedTensor>,
)
    requires
        dense_attn_on_device(&w, &d, policy, placed),
    ensures
        bytes_of(w.tensors()) == weigh(dense_attn_items(&d, policy)),
{
    let raw = under(policy, Rule::Raw);
    let half = under(policy, Rule::Half);
    let head = seq![
        w.attn_q,
        w.attn_k,
        w.attn_v,
        w.attn_output,
        w.attn_q_norm,
        w.attn_k_norm,
    ];
    let i_head = seq![Item { tensor: &d.attn_q, rule: raw }] + seq![
        Item { tensor: &d.attn_k, rule: raw },
    ] + seq![Item { tensor: &d.attn_v, rule: raw }] + seq![
        Item { tensor: &d.attn_output, rule: raw },
    ] + seq![Item { tensor: &d.attn_q_norm, rule: half }] + seq![
        Item { tensor: &d.attn_k_norm, rule: half },
    ];
    assert(sizes_of(head) =~= weights(i_head));
    lemma_three_weigh(
        head,
        w.attn_q_bias,
        w.attn_k_bias,
        w.attn_v_bias,
        i_head,
        d.attn_q_bias,
        d.attn_k_bias,
        d.attn_v_bias,
        raw,
        raw,
        raw,
        placed,
    );
}

proof fn lemma_full_attn_weighs(
    w: FullAttnWeights,
    f: FullAttnTensors,
    policy: Policy,
    placed: Seq<PlacedTensor>,
)
    requires
        full_attn_on_device(&w, &f, policy, placed),
    ensures
        bytes_of(w.tensors()) == weigh(full_attn_items(&f, policy)),
{
    assert(sizes_of(w.tensors()) =~= weights(full_attn_items(&f, policy)));
}

proof fn lemma_shared_weighs(
    w: SharedExpertWeights,
    s: SharedExpertTensors,
    policy: Policy,
    placed: Seq<PlacedTensor>,
)
    requires
        shared_on_device(&w, &s, policy, placed),
    ensures
        bytes_of(w.tensors()) == weigh(shared_items(&s, policy)),
{
    assert(sizes_of(w.tensors()) =~= weights(shared_items(&s, policy)));
}

proof fn lemma_dense_ffn_weighs(
    w: DenseFfnWeights,
    d: DenseFfnTensors,
    policy: Policy,
    placed: Seq<PlacedTensor>,
)
    requires
        dense_ffn_on_device(&w, &d, policy, placed),
    ensures
        bytes_of(w.tensors()) == weigh(dense_ffn_items(&d, policy)),
{
    assert(sizes_of(w.tensors()) =~= weights(dense_ffn_items(&d, policy)));
}

proof fn lemma_concat3<T>(a: Seq<T>, b: Seq<T>, c: Seq<T>, d: Seq<T>)
    ensures
        a + b + c + d == a + (b + c + d),
{
    assert(a + b + c + d =~= a + (b + c + d));
}

proof fn lemma_empty_front<T>(e: Seq<T>, a: Seq<T>)
    requires
        e.len() == 0,
    ensures
        e + a == a,
{
    assert(e + a =~= a);
}

proof fn lemma_norms_weigh(
    w: LayerWeights,
    l: LayerDescriptor,
    policy: Policy,
    placed: Seq<PlacedTensor>,
)
    requires
        layer_on_device(&w, &l, policy, placed),
    ensures
        bytes_of(w.norms()) == weigh(norm_items(&l, policy)),
{
    let half = under(policy, Rule::Half);
    let a = seq![w.attn_norm];
    let ia = seq![Item { tensor: &l.attn_norm, rule: half }];
    assert(sizes_of(a) =~= weights(ia));
    let none: Option<DeviceTensor> = None;
    let no: Option<ResolvedTensor> = None;
    lemma_three_weigh(
        a,
        w.post_attention_norm,
        w.ffn_norm,
        none,
        ia,
        l.post_attention_norm,
        l.ffn_norm,
        no,
        half,
        half,
        half,
        placed,
    );
    assert(w.norms() + opt_list(none) =~= w.norms());
    assert(norm_items(&l, policy) + opt_item(&no, half) =~= norm_items(&l, policy));
}

proof fn lemma_experts_weigh(
    w: FfnWeights,
    f: MoeFfnTensors,
    policy: Policy,
    placed: Seq<PlacedTensor>,
)
    requires
        ffn_on_device(&w, &f, policy, placed),
    ensures
        bytes_of(w.experts()) == weigh(experts_items(&f, policy)),
{
    let raw = under(policy, Rule::Raw);
    let router = under(policy, Rule::Router);
    lemma_opt_weighs(w.ffn_gate_inp, f.ffn_gate_inp, router, placed);
    lemma_three_weigh(
        opt_list(w.ffn_gate_inp),
        w.ffn_gate_exps,
        w.ffn_up_exps,
        w.ffn_down_exps,
        opt_item(&f.ffn_gate_inp, router),
        f.ffn_gate_exps,
        f.ffn_up_exps,
        f.ffn_down_exps,
        raw,
        raw,
        raw,
        placed,
    );
}

proof fn lemma_gdn_weighs(w: GdnWeights, g: GdnTensors, policy: Policy, placed: Seq<PlacedTensor>)
    requires
        gdn_on_device(&w, &g, policy, placed),
        gdn_fits(&g),
    ensures
        bytes_of(w.tensors()) == weigh(gdn_items(&g, policy)),
{
    let into = seq![w.attn_qkv, w.attn_gate];
    let rest = seq![w.ssm_a, w.ssm_dt_bias, w.ssm_conv1d, w.ssm_norm, w.ssm_out];
    let gates = opt_list(w.ssm_alpha) + opt_list(w.ssm_beta) + opt_list(w.ssm_ba);
    let seven = seq![
        w.attn_qkv,
        w.attn_gate,
        w.ssm_a,
        w.ssm_dt_bias,
        w.ssm_conv1d,
        w.ssm_norm,
        w.ssm_out,
    ];
    assert(seven =~= into + rest);
    lemma_concat3(seven, opt_list(w.ssm_alpha), opt_list(w.ssm_beta), opt_list(w.ssm_ba));
    assert(w.tensors() == seven + gates);
    lemma_bytes_concat(into + rest, gates);
    lemma_bytes_concat(into, rest);
    let i_in = gdn_in_items(&g, policy);
    let i_rest = gdn_rest_items(&g, policy);
    assert(sizes_of(into) =~= weights(i_in));
    assert(sizes_of(rest) =~= weights(i_rest));
    if splits(&g, policy) {
        let i_gates = opt_item(&g.ssm_ba, Rule::Split);
        let r = g.ssm_ba->0;
        lemma_half_fits(r);
        reveal(target_of);
        assert(gates =~= seq![w.ssm_alpha->0, w.ssm_beta->0]);
        let h = half_bytes(r);
        assert(sizes_of(gates) =~= seq![h, h]);
        assert(weights(i_gates) =~= seq![2 * h]);
        assert(seq![h, h].drop_last() =~= seq![h]);
        assert(seq![h].drop_last() =~= Seq::<nat>::empty());
        assert(seq![2 * h].drop_last() =~= Seq::<nat>::empty());
        reveal_with_fuel(sum, 3);
        assert(sum(seq![h, h]) == 2 * h);
        assert(sum(seq![2 * h]) == 2 * h);
        lemma_weigh_concat(i_gates + i_in, i_rest);
        lemma_weigh_concat(i_gates, i_in);
    } else {
        let i_gates = gdn_gates_items(&g, policy);
        let e = Seq::<DeviceTensor>::empty();
        let ei = Seq::<Item>::empty();
        assert(sizes_of(e) =~= weights(ei));
        lemma_three_weigh(
            e,
            w.ssm_alpha,
            w.ssm_beta,
            w.ssm_ba,
            ei,
            g.ssm_alpha,
            g.ssm_beta,
            g.ssm_ba,
            under(policy, Rule::Q8),
            under(policy, Rule::Q8),
            under(policy, Rule::Raw),
            placed,
        );
        lemma_empty_front(e, opt_list(w.ssm_alpha));
        lemma_empty_front(ei, opt_item(&g.ssm_alpha, under(policy, Rule::Q8)));
        if policy == Policy::ForKernels {
            lemma_weigh_concat(i_gates + i_in, i_rest);
            lemma_weigh_concat(i_gates, i_in);
        } else {
            lemma_weigh_concat(i_in + i_gates, i_rest);
            lemma_weigh_concat(i_in, i_gates);
        }
    }
}

proof fn lemma_half_fits(r: ResolvedTensor)
    requires
        sizes_fit(r),
    ensures
        half_bytes(r) <= usize::MAX,
{
    lemma_product_le_padded(r.dims@);
    let p = padded_product(r.dims@);
    let t = r.dtype.spec_type_size();
    assert(p <= p * t) by (nonlinear_arith)
        requires
            t >= 1,
            p >= 0,
    ;
}

/// A layer weighs on the device what its tensors weigh.
pub proof fn law_layer_weighs_its_uploads(
    w: LayerWeights,
    l: LayerDescriptor,
    policy: Policy,
    placed: Seq<PlacedTensor>,
)
    requires
        layer_on_device(&w, &l, policy, placed),
        layer_fits(&l),
    ensures
        bytes_of(w.tensors()) == weigh(layer_items(&l, policy)),
{
    let norms = w.norms();
    let attn = w.attn.tensors();
    let ex = w.ffn.experts();
    let de = w.ffn.dense_list();
    let sh = w.ffn.shared_list();
    lemma_bytes_concat(norms + attn + ex + de, sh);
    lemma_bytes_concat(norms + attn + ex, de);
    lemma_bytes_concat(norms + attn, ex);
    lemma_bytes_concat(norms, attn);
    let i_ex = experts_items(&l.ffn, policy);
    let i_de: Seq<Item> = match &l.ffn.dense {
        Some(d) => dense_ffn_items(d, policy),
        None => seq![],
    };
    let i_sh: Seq<Item> = match &l.ffn.shared {
        Some(s) => shared_items(s, policy),
        None => seq![],
    };
    let i_n = norm_items(&l, policy);
    let i_a = attn_items(&l.attn, policy);
    lemma_weigh_concat(i_n + i_a, ffn_items(&l.ffn, policy));
    lemma_weigh_concat(i_n, i_a);
    lemma_weigh_concat(i_de + i_ex, i_sh);
    lemma_weigh_concat(i_de, i_ex);
    lemma_norms_weigh(w, l, policy, placed);
    lemma_experts_weigh(w.ffn, l.ffn, policy, placed);
    match l.attn {
        LayerAttnBlock::Dense(d) => {
            lemma_dense_attn_weighs(w.attn->Dense_0, d, policy, placed);
        },
        LayerAttnBlock::FullAttn(f) => {
            lemma_full_attn_weighs(w.attn->FullAttn_0, f, policy, placed);
        },
        LayerAttnBlock::Gdn(g) => {
            lemma_gdn_weighs(w.attn->Gdn_0, g, policy, placed);
        },
    }
    if l.ffn.dense is Some {
        lemma_dense_ffn_weighs(w.ffn.dense->0, l.ffn.dense->0, policy, placed);
    } else {
        assert(sizes_of(de) =~= weights(i_de));
    }
    if l.ffn.shared is Some {
        lemma_shared_weighs(w.ffn.shared->0, l.ffn.shared->0, policy, placed);
    } else {
        assert(sizes_of(sh) =~= weights(i_sh));
    }
}

/// Layers weigh on the device what their tensors weigh.
pub proof fn lemma_layers_weigh(
    ws: Seq<LayerWeights>,
    ls: Seq<LayerDescriptor>,
    which: Seq<int>,
    policy: Policy,
    placed: Seq<PlacedTensor>,
    n: nat,
)
    requires
        n <= ws.len(),
        n <= which.len(),
        forall|i: int|
            0 <= i < n ==> layer_on_device(#[trigger] &ws[i], &ls[which[i]], policy, placed)
                && layer_fits(&ls[which[i]]),
    ensures
        bytes_of(flat(n, |i: int| ws[i].tensors())) == weigh(
            flat(n, |i: int| layer_items(&ls[which[i]], policy)),
        ),
    decreases n,
{
    let f = |i: int| ws[i].tensors();
    let g = |i: int| layer_items(&ls[which[i]], policy);
    if n > 0 {
        let m = (n - 1) as nat;
        lemma_layers_weigh(ws, ls, which, policy, placed, m);
        assert(layer_on_device(&ws[m as int], &ls[which[m as int]], policy, placed));
        law_layer_weighs_its_uploads(ws[m as int], ls[which[m as int]], policy, placed);
        lemma_bytes_concat(flat(m, f), f(m as int));
        lemma_weigh_concat(flat(m, g), g(m as int));
    } else {
        assert(sizes_of(flat(n, f)) =~= weights(flat(n, g)));
    }
}

} // verus!
