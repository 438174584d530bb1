//! A mesh of stages: the layers are dealt out over stages, and each stage
//! splits its layers over the ranks of a tensor-parallel mesh of its own.

use crate::arith::{lemma_sum_prefix, lemma_sum_step, sum};
use crate::config::Qwen3MoEConfig;
use crate::device::{push_rank_frees, rank_frees, RankFree, RankId};
use crate::forward::op::ForwardError;
use crate::forward::tp::{
    RankBuffers, ShardedForwardOneTokenScratchTp, ShardedForwardPrefillScratchTp,
};
use crate::layout::ModelLayout;
use crate::load_error::LoadError;
use crate::plan::{extend, flat};
use crate::session::{
    caches_bytes, gdn_sane, total_cache_bytes, KvLayout, LayerCache, SessionError,
};
use crate::state_ops::{
    caches_frees, first_ranks, list_frees, place_ranks_run_tp, place_ranks_tp, start_ops,
    start_ranks, views, PlacedCache, StateOp,
};
use crate::text::{dec, owned, push_dec};
use crate::tp_layout::{heads_countable, layout_error, Qwen35DenseTpLayout, TpLayoutError};
use crate::tp_sharded::{
    first_replicated, made_model, range_error, Qwen3MoETpModel, TpLoadOpts, TpRankParts,
};
use std::ops::Range;
use vstd::prelude::*;

verus! {

/// Why a staged mesh cannot be set up or taken down.
#[derive(Debug, Clone, PartialEq, Eq)]
pub enum HybridError {
    /// A side of the mesh has no ranks.
    Empty { pp_size: u32, tp_size: u32 },
    /// The mesh has another size than the devices.
    Devices { pp_size: u32, tp_size: u32, ranks: usize, devices: usize },
    /// The stages cannot be of one size.
    Layers { pp_size: u32, num_layers: usize },
    /// The model does not suit the ranks of a stage.
    Layout { layout: TpLayoutError },
    /// A stage cannot be loaded.
    Load { load: LoadError },
    /// The caches of a stage cannot be made.
    Session { session: SessionError },
    /// The working memory of a stage cannot be made.
    Forward { forward: ForwardError },
    /// The session is of another model.
    SessionStages { have: usize, want: usize },
    /// The working memory is of another model.
    OneTokenStages { have: usize, want: usize },
    /// The working memory is of another model.
    PrefillStages { have: usize, want: usize },
    /// There is no room for a token.
    MaxTokens,
}

impl HybridError {
    /// What `message` says.
    pub open spec fn spec_message(&self) -> Seq<char> {
        match self {
            HybridError::Empty { pp_size, tp_size } => "HybridMeshSpec: pp_size="@
                + dec(*pp_size as nat)
                + " tp_size="@
                + dec(*tp_size as nat)
                + " (both must be > 0)"@,
            HybridError::Devices { pp_size, tp_size, ranks, devices } => "HybridMeshSpec: pp_size="@
                + dec(*pp_size as nat)
                + " * tp_size="@
                + dec(*tp_size as nat)
                + " = "@
                + dec(*ranks as nat)
                + " but got "@
                + dec(*devices as nat)
                + " devices"@,
            HybridError::Layers { pp_size, num_layers } => "HybridMeshSpec: pp_size="@
                + dec(*pp_size as nat)
                + " must divide num_layers="@
                + dec(*num_layers as nat)
                + " (uniform stages only)"@,
            HybridError::Layout { layout } => layout.spec_message(),
            HybridError::Load { load } => load.spec_message(Seq::empty()),
            HybridError::Session { session } => session.spec_message(),
            HybridError::Forward { forward } => forward.spec_message(),
            HybridError::SessionStages { have, want } => "Qwen3MoEHybridSession::dispose: session has "@
                + dec(*have as nat)
                + " stages but model has "@
                + dec(*want as nat),
            HybridError::OneTokenStages { have, want } => "ShardedForwardOneTokenScratchHybrid::dispose: scratch has "@
                + dec(*have as nat)
                + " stages but model has "@
                + dec(*want as nat),
            HybridError::PrefillStages { have, want } => "ShardedForwardPrefillScratchHybrid::dispose: scratch has "@
                + dec(*have as nat)
                + " stages but model has "@
                + dec(*want as nat),
            HybridError::MaxTokens => "ShardedForwardPrefillScratchHybrid::new max_tokens must be >= 1"@,
        }
    }

    /// The error as a sentence.
    pub fn message(&self) -> (r: String)
        ensures
            r@ == self.spec_message(),
    {
        match self {
            HybridError::Empty { pp_size, tp_size } => {
                let mut s = owned("HybridMeshSpec: pp_size=");
                push_dec(&mut s, *pp_size as u64);
                s.append(" tp_size=");
                push_dec(&mut s, *tp_size as u64);
                s.append(" (both must be > 0)");
                s
            },
            HybridError::Devices { pp_size, tp_size, ranks, devices } => {
                let mut s = owned("HybridMeshSpec: pp_size=");
                push_dec(&mut s, *pp_size as u64);
                s.append(" * tp_size=");
                push_dec(&mut s, *tp_size as u64);
                s.append(" = ");
                push_dec(&mut s, *ranks as u64);
                s.append(" but got ");
                push_dec(&mut s, *devices as u64);
                s.append(" devices");
                s
            },
            HybridError::Layers { pp_size, num_layers } => {
                let mut s = owned("HybridMeshSpec: pp_size=");
                push_dec(&mut s, *pp_size as u64);
                s.append(" must divide num_layers=");
                push_dec(&mut s, *num_layers as u64);
                s.append(" (uniform stages only)");
                s
            },
            HybridError::Layout { layout } => {
                let mut s = layout.message();
                s
            },
            HybridError::Load { load } => {
                let mut s = load.message(&Vec::new());
                s
            },
            HybridError::Session { session } => {
                let mut s = session.message();
                s
            },
            HybridError::Forward { forward } => {
                let mut s = forward.message();
                s
            },
            HybridError::SessionStages { have, want } => {
                let mut s = owned("Qwen3MoEHybridSession::dispose: session has ");
                push_dec(&mut s, *have as u64);
                s.append(" stages but model has ");
                push_dec(&mut s, *want as u64);
                s
            },
            HybridError::OneTokenStages { have, want } => {
                let mut s = owned("ShardedForwardOneTokenScratchHybrid::dispose: scratch has ");
                push_dec(&mut s, *have as u64);
                s.append(" stages but model has ");
                push_dec(&mut s, *want as u64);
                s
            },
            HybridError::PrefillStages { have, want } => {
                let mut s = owned("ShardedForwardPrefillScratchHybrid::dispose: scratch has ");
                push_dec(&mut s, *have as u64);
                s.append(" stages but model has ");
                push_dec(&mut s, *want as u64);
                s
            },
            HybridError::MaxTokens => owned("ShardedForwardPrefillScratchHybrid::new max_tokens must be >= 1"),
        }
    }
}

/// A mesh of `pp_size` stages of `tp_size` ranks.
#[derive(Debug, Clone, Copy, PartialEq, Eq, Structural)]
pub struct HybridMeshSpec {
    pub pp_size: u32,
    pub tp_size: u32,
}

/// The first layer of a stage where `n` layers are dealt out over `stages` stages.
pub open spec fn stage_start(n: nat, stages: nat, stage: nat) -> nat {
    stage * (n / stages)
}

/// One past the last layer of a stage: the last stage takes what is left.
pub open spec fn stage_end(n: nat, stages: nat, stage: nat) -> nat {
    if stage + 1 == stages {
        n
    } else {
        stage_start(n, stages, stage + 1)
    }
}

/// Why a mesh does not suit a model and its devices.
pub open spec fn mesh_error(spec: HybridMeshSpec, num_layers: usize, num_devices: usize) -> Option<
    HybridError,
> {
    let (pp_size, tp_size) = (spec.pp_size, spec.tp_size);
    if pp_size == 0 || tp_size == 0 {
        Some(HybridError::Empty { pp_size, tp_size })
    } else if pp_size * tp_size != num_devices {
        Some(
            HybridError::Devices {
                pp_size,
                tp_size,
                ranks: (pp_size * tp_size) as usize,
                devices: num_devices,
            },
        )
    } else if num_layers as nat % pp_size as nat != 0 {
        Some(HybridError::Layers { pp_size, num_layers })
    } else {
        None
    }
}

impl HybridMeshSpec {
    /// The ranks of all stages.
    pub fn total_ranks(self) -> (r: usize)
        requires
            self.pp_size * self.tp_size <= usize::MAX,
        ensures
            r == self.pp_size * self.tp_size,
    {
        self.pp_size as usize * self.tp_size as usize
    }

    /// Whether the mesh suits a model of that many layers on that many devices.
    pub fn validate(self, num_layers: usize, num_devices: usize) -> (res: Result<(), HybridError>)
        requires
            self.pp_size * self.tp_size <= usize::MAX,
        ensures
            res == (match mesh_error(self, num_layers, num_devices) {
                Some(e) => Err::<(), HybridError>(e),
                None => Ok(()),
            }),
    {
        if self.pp_size == 0 || self.tp_size == 0 {
            return Err(HybridError::Empty { pp_size: self.pp_size, tp_size: self.tp_size });
        }
        if self.total_ranks() != num_devices {
            return Err(
                HybridError::Devices {
                    pp_size: self.pp_size,
                    tp_size: self.tp_size,
                    ranks: self.total_ranks(),
                    devices: num_devices,
                },
            );
        }
        if num_layers % self.pp_size as usize != 0 {
            return Err(HybridError::Layers { pp_size: self.pp_size, num_layers });
        }
        Ok(())
    }

    /// The layers of a stage.
    pub fn stage_layer_range(self, stage: u32, num_layers: usize) -> (r: Range<usize>)
        requires
            stage < self.pp_size,
        ensures
            r.start == stage_start(num_layers as nat, self.pp_size as nat, stage as nat),
            r.end == stage_end(num_layers as nat, self.pp_size as nat, stage as nat),
    {
        let per_stage: usize = num_layers / self.pp_size as usize;
        proof {
            lemma_stage_fits(num_layers as nat, self.pp_size as nat, stage as nat);
        }
        let start: usize = stage as usize * per_stage;
        let end: usize = if stage + 1 == self.pp_size {
            num_layers
        } else {
            start + per_stage
        };
        start..end
    }

    /// What a stage loads: its layers, the first stage also the embedding, the last
    /// one the output norm and head.
    pub fn stage_load_opts(self, stage: u32, num_layers: usize) -> (r: TpLoadOpts)
        requires
            stage < self.pp_size,
        ensures
            r == stage_opts(self, stage as nat, num_layers),
    {
        let range = self.stage_layer_range(stage, num_layers);
        TpLoadOpts {
            layer_range: Some(range),
            load_token_embd: stage == 0,
            load_output_head: stage + 1 == self.pp_size,
        }
    }

    /// The devices of a stage: each stage has its devices side by side.
    pub fn stage_device_ids<'a>(self, stage: u32, all: &'a [i32]) -> (r: &'a [i32])
        requires
            (stage + 1) * self.tp_size <= all@.len(),
        ensures
            r@ == all@.subrange(stage * self.tp_size, (stage + 1) * self.tp_size),
    {
        let tp: usize = self.tp_size as usize;
        let devices: usize = all.len();
        proof {
            assert((stage + 1) * tp == stage * tp + tp) by (nonlinear_arith);
            assert((stage + 1) * tp <= devices);
            assert(0 <= stage * tp) by (nonlinear_arith)
                requires
                    stage >= 0,
                    tp >= 0,
            ;
        }
        let start: usize = stage as usize * tp;
        vstd::slice::slice_subrange(all, start, start + tp)
    }
}

proof fn lemma_stage_fits(n: nat, stages: nat, stage: nat)
    requires
        stage < stages,
    ensures
        stage_start(n, stages, stage) + n / stages <= n,
        stage_start(n, stages, stage + 1) == stage_start(n, stages, stage) + n / stages,
{
    let q = n / stages;
    assert((stage + 1) * q == stage * q + q) by (nonlinear_arith);
    assert(q * stages <= n) by (nonlinear_arith)
        requires
            q == n / stages,
            stages > 0,
    ;
    assert((stage + 1) * q <= q * stages) by (nonlinear_arith)
        requires
            stage + 1 <= stages,
            q >= 0,
    ;
}

/// Every layer belongs to exactly one stage.
pub proof fn law_stages_partition_layers(n: nat, stages: nat, il: nat)
    requires
        stages > 0,
        il < n,
    ensures
        exists|s: nat|
            s < stages && #[trigger] stage_start(n, stages, s) <= il < stage_end(n, stages, s),
        forall|s: nat, t: nat|
            s < stages && t < stages && #[trigger] stage_start(n, stages, s) <= il < stage_end(
                n,
                stages,
                s,
            ) && #[trigger] stage_start(n, stages, t) <= il < stage_end(n, stages, t) ==> s == t,
{
    let q = n / stages;
    if q == 0 {
        let s = (stages - 1) as nat;
        assert(stage_start(n, stages, s) == 0) by (nonlinear_arith)
            requires
                stage_start(n, stages, s) == s * q,
                q == 0,
        ;
        assert(stage_start(n, stages, s) <= il < stage_end(n, stages, s));
    } else {
        let k = il / q;
        assert(k * q <= il < (k + 1) * q) by (nonlinear_arith)
            requires
                k == il / q,
                q > 0,
        ;
        if k + 1 < stages {
            assert(stage_start(n, stages, k) <= il < stage_end(n, stages, k));
        } else {
            let s = (stages - 1) as nat;
            assert(s * q <= k * q) by (nonlinear_arith)
                requires
                    s <= k,
                    q > 0,
            ;
            assert(stage_start(n, stages, s) <= il < stage_end(n, stages, s));
        }
    }
    assert forall|s: nat, t: nat|
        s < stages && t < stages && #[trigger] stage_start(n, stages, s) <= il < stage_end(
            n,
            stages,
            s,
        ) && #[trigger] stage_start(n, stages, t) <= il < stage_end(n, stages, t) implies s == t by {
        if s < t {
            lemma_stage_order(n, stages, s, t);
        } else if t < s {
            lemma_stage_order(n, stages, t, s);
        }
    }
}

proof fn lemma_stage_order(n: nat, stages: nat, s: nat, t: nat)
    requires
        s < t < stages,
    ensures
        stage_end(n, stages, s) <= stage_start(n, stages, t),
{
    let q = n / stages;
    assert((s + 1) * q <= t * q) by (nonlinear_arith)
        requires
            s + 1 <= t,
            q >= 0,
    ;
}

/// Stages of a mesh that suits its model all have the same number of layers.
pub proof fn law_stages_are_uniform(
    spec: HybridMeshSpec,
    num_layers: usize,
    devices: usize,
    stage: u32,
)
    requires
        mesh_error(spec, num_layers, devices) is None,
        stage < spec.pp_size,
    ensures
        stage_end(num_layers as nat, spec.pp_size as nat, stage as nat) - stage_start(
            num_layers as nat,
            spec.pp_size as nat,
            stage as nat,
        ) == num_layers as nat / spec.pp_size as nat,
{
    let n = num_layers as nat;
    let p = spec.pp_size as nat;
    lemma_stage_fits(n, p, stage as nat);
    assert(p * (n / p) == n) by (nonlinear_arith)
        requires
            n % p == 0,
            p > 0,
    ;
}

/// Every device belongs to exactly one stage.
pub proof fn law_stages_partition_devices(spec: HybridMeshSpec, d: nat)
    requires
        d < spec.pp_size * spec.tp_size,
    ensures
        exists|s: nat|
            s < spec.pp_size && #[trigger] (s * spec.tp_size as nat) <= d < (s + 1)
                * spec.tp_size as nat,
        forall|s: nat, t: nat|
            #[trigger] (s * spec.tp_size as nat) <= d < (s + 1) * spec.tp_size as nat
                && #[trigger] (t * spec.tp_size as nat) <= d < (t + 1) * spec.tp_size as nat ==> s
                == t,
{
    let w = spec.tp_size as nat;
    let p = spec.pp_size as nat;
    assert(w > 0) by (nonlinear_arith)
        requires
            d < p * w,
    ;
    let k = d / w;
    assert(k * w <= d < (k + 1) * w && k < p) by (nonlinear_arith)
        requires
            k == d / w,
            w > 0,
            d < p * w,
    ;
    assert forall|s: nat, t: nat|
        #[trigger] (s * w) <= d < (s + 1) * w && #[trigger] (t * w) <= d < (t + 1) * w implies s
        == t by {
        assert(s == t) by (nonlinear_arith)
            requires
                s * w <= d < (s + 1) * w,
                t * w <= d < (t + 1) * w,
                w > 0,
        ;
    }
}

/// An allocation of a rank of a stage to give back.
#[derive(Debug, Clone, Copy, PartialEq, Eq, Structural)]
pub struct StageFree {
    pub stage: u32,
    pub free: RankFree,
}

/// The allocations of one stage.
pub open spec fn stage_frees(stage: u32, frees: Seq<RankFree>) -> Seq<StageFree> {
    frees.map_values(|f: RankFree| StageFree { stage, free: f })
}

fn push_stage_frees(stage: u32, frees: &Vec<RankFree>, out: &mut Vec<StageFree>)
    ensures
        final(out)@ == old(out)@ + stage_frees(stage, frees@),
{
    let ghost base = out@;
    let ghost all = stage_frees(stage, frees@);
    let mut i: usize = 0;
    proof {
        assert(out@ =~= base + all.take(0));
    }
    while i < frees.len()
        invariant
            i <= frees@.len(),
            all == stage_frees(stage, frees@),
            out@ == base + all.take(i as int),
        decreases frees@.len() - i,
    {
        out.push(StageFree { stage, free: frees[i] });
        proof {
            assert(all.take(i as int + 1) =~= all.take(i as int).push(all[i as int]));
            assert(out@ =~= base + all.take(i as int + 1));
        }
        i = i + 1;
    }
    proof {
        assert(all.take(all.len() as int) =~= all);
    }
}

/// One stage: its layers on a mesh of its own.
pub struct Qwen3MoEHybridStage {
    pub stage_idx: u32,
    pub layer_range: Range<usize>,
    pub tp_model: Qwen3MoETpModel,
}

/// A model on a mesh of stages.
pub struct Qwen3MoEHybridModel {
    pub config: Qwen3MoEConfig,
    pub spec: HybridMeshSpec,
    pub stages: Vec<Qwen3MoEHybridStage>,
}

/// What was brought to the ranks of one stage.
pub struct StageInput {
    pub config: Qwen3MoEConfig,
    pub layout: ModelLayout,
    pub parts: Vec<TpRankParts>,
}

/// What a stage loads: its layers, the first stage also the embedding, the last
/// one the output norm and head.
pub open spec fn stage_opts(spec: HybridMeshSpec, stage: nat, num_layers: usize) -> TpLoadOpts {
    TpLoadOpts {
        layer_range: Some(
            Range {
                start: stage_start(num_layers as nat, spec.pp_size as nat, stage) as usize,
                end: stage_end(num_layers as nat, spec.pp_size as nat, stage) as usize,
            },
        ),
        load_token_embd: stage == 0,
        load_output_head: stage + 1 == spec.pp_size,
    }
}

/// Why a stage cannot be loaded: a layer with replicated experts in a model
/// with a shared expert.
pub open spec fn stage_failure(input: StageInput, spec: HybridMeshSpec, stage: nat) -> Option<
    LoadError,
> {
    let n = input.config.num_layers;
    let start = stage_start(n as nat, spec.pp_size as nat, stage);
    match first_replicated(
        input.parts@,
        start,
        start,
        stage_end(n as nat, spec.pp_size as nat, stage),
    ) {
        Some(il) if input.config.shared_expert_intermediate_size is Some => Some(
            LoadError::SharedFallback { layer: il as usize },
        ),
        _ => None,
    }
}

/// The failure of the first stage from `stage` on that cannot be loaded.
pub open spec fn first_failure(inputs: Seq<StageInput>, spec: HybridMeshSpec, stage: nat) -> Option<
    LoadError,
>
    decreases spec.pp_size - stage,
{
    if stage >= spec.pp_size {
        None
    } else {
        match stage_failure(inputs[stage as int], spec, stage) {
            Some(e) => Some(e),
            None => first_failure(inputs, spec, stage + 1),
        }
    }
}

/// A stage as it was brought.
pub open spec fn stage_made(
    s: &Qwen3MoEHybridStage,
    input: &StageInput,
    spec: HybridMeshSpec,
    stage: nat,
    devices: Seq<i32>,
) -> bool {
    let n = input.config.num_layers;
    &&& s.stage_idx == stage
    &&& s.layer_range.start == stage_start(n as nat, spec.pp_size as nat, stage)
    &&& s.layer_range.end == stage_end(n as nat, spec.pp_size as nat, stage)
    &&& s.tp_model.tp.made_for(&input.config, spec.tp_size)
    &&& made_model(
        &s.tp_model,
        input.config,
        input.layout,
        s.tp_model.tp,
        &stage_opts(spec, stage, n),
        stage_devices(devices, spec.tp_size, stage),
        input.parts@,
    )
}

/// The devices of a stage.
pub open spec fn stage_devices(devices: Seq<i32>, tp_size: u32, stage: nat) -> Seq<i32> {
    devices.subrange((stage * tp_size) as int, ((stage + 1) * tp_size) as int)
}

/// Each stage got what it has to load.
pub open spec fn inputs_meet(
    inputs: Seq<StageInput>,
    config: Qwen3MoEConfig,
    spec: HybridMeshSpec,
) -> bool {
    &&& inputs.len() == spec.pp_size
    &&& forall|s: int|
        0 <= s < inputs.len() ==> {
            &&& (#[trigger] inputs[s]).config == config
            &&& inputs[s].parts@.len() == spec.tp_size
            &&& forall|r: int|
                0 <= r < spec.tp_size ==> (#[trigger] inputs[s].parts@[r]).meets(
                    &stage_opts(spec, s as nat, config.num_layers),
                    &inputs[s].layout,
                    config.num_layers,
                )
        }
}

fn to_vec(s: &[i32]) -> (v: Vec<i32>)
    ensures
        v@ == s@,
{
    let mut v: Vec<i32> = Vec::new();
    let mut i: usize = 0;
    while i < s.len()
        invariant
            i <= s@.len(),
            v@ == s@.take(i as int),
        decreases s@.len() - i,
    {
        v.push(s[i]);
        proof {
            assert(s@.take(i as int + 1) =~= s@.take(i as int).push(s@[i as int]));
        }
        i = i + 1;
    }
    proof {
        assert(s@.take(s@.len() as int) =~= s@);
    }
    v
}

proof fn lemma_devices_fit(spec: HybridMeshSpec, stage: u32, n: nat)
    requires
        stage < spec.pp_size,
        spec.pp_size * spec.tp_size == n,
    ensures
        (stage + 1) * spec.tp_size <= n,
        0 <= stage * spec.tp_size,
        stage * spec.tp_size + spec.tp_size == (stage + 1) * spec.tp_size,
{
    let (s, p, t) = (stage as int, spec.pp_size as int, spec.tp_size as int);
    assert((s + 1) * t <= p * t && 0 <= s * t && s * t + t == (s + 1) * t) by (nonlinear_arith)
        requires
            0 <= s < p,
            t >= 0,
    ;
}

impl Qwen3MoEHybridModel {
    /// The model that what was brought to the stages makes up.
    pub fn load(
        config: Qwen3MoEConfig,
        device_ids: &[i32],
        spec: HybridMeshSpec,
        inputs: Vec<StageInput>,
    ) -> (res: Result<Self, HybridError>)
        requires
            spec.pp_size * spec.tp_size <= usize::MAX,
            mesh_error(spec, config.num_layers, device_ids@.len() as usize) is None
                ==> heads_countable(&config, spec.tp_size) && inputs_meet(inputs@, config, spec),
        ensures
            match mesh_error(spec, config.num_layers, device_ids@.len() as usize) {
                Some(e) => res == Err::<Self, HybridError>(e),
                None => match layout_error(&config, spec.tp_size) {
                    Some(e) => res == Err::<Self, HybridError>(HybridError::Layout { layout: e }),
                    None => match first_failure(inputs@, spec, 0) {
                        Some(e) => res == Err::<Self, HybridError>(HybridError::Load { load: e }),
                        None => res is Ok && ({
                            let m = res->Ok_0;
                            &&& m.config == config
                            &&& m.spec == spec
                            &&& m.stages@.len() == spec.pp_size
                            &&& forall|s: int|
                                0 <= s < m.stages@.len() ==> stage_made(
                                    #[trigger] &m.stages@[s],
                                    &inputs@[s],
                                    spec,
                                    s as nat,
                                    device_ids@,
                                )
                        }),
                    },
                },
            },
    {
        match spec.validate(config.num_layers, device_ids.len()) {
            Ok(_) => {},
            Err(e) => return Err(e),
        }
        let ghost all = inputs@;
        let mut left = inputs;
        let mut stages: Vec<Qwen3MoEHybridStage> = Vec::new();
        let mut stage: u32 = 0;
        let total: usize = device_ids.len();
        while stage < spec.pp_size
            invariant
                stage <= spec.pp_size,
                spec.pp_size > 0,
                total == device_ids@.len(),
                spec.pp_size * spec.tp_size == total,
                heads_countable(&config, spec.tp_size),
                mesh_error(spec, config.num_layers, total) is None,
                inputs_meet(all, config, spec),
                all == inputs@,
                left@ == all.skip(stage as int),
                stage > 0 ==> layout_error(&config, spec.tp_size) is None,
                first_failure(all, spec, 0) == first_failure(all, spec, stage as nat),
                stages@.len() == stage,
                forall|s: int|
                    0 <= s < stage ==> stage_made(
                        #[trigger] &stages@[s],
                        &all[s],
                        spec,
                        s as nat,
                        device_ids@,
                    ),
            decreases spec.pp_size - stage,
        {
            let input = left.remove(0);
            proof {
                assert(input == all[stage as int]);
                assert(left@ =~= all.skip(stage as int + 1));
                lemma_devices_fit(spec, stage, total as nat);
                lemma_stage_fits(
                    config.num_layers as nat,
                    spec.pp_size as nat,
                    stage as nat,
                );
                assert(all[stage as int].config == config);
            }
            let tp_layout = match Qwen35DenseTpLayout::new(&config, spec.tp_size) {
                Ok(l) => l,
                Err(e) => return Err(HybridError::Layout { layout: e }),
            };
            let devices = to_vec(spec.stage_device_ids(stage, device_ids));
            let layer_range = spec.stage_layer_range(stage, config.num_layers);
            let start: usize = layer_range.start;
            let end: usize = layer_range.end;
            let opts = spec.stage_load_opts(stage, config.num_layers);
            proof {
                assert(opts.start() == start);
                assert(opts.end(config.num_layers) == end);
                assert(devices@.len() == spec.tp_size);
                assert(range_error(config.num_layers, spec.tp_size, &opts, devices@.len()) is None);
                assert forall|r: int| 0 <= r < input.parts@.len() implies (
                    #[trigger] input.parts@[r]
                ).meets(
                    &opts,
                    &input.layout,
                    config.num_layers,
                ) by {
                    assert(all[stage as int].parts@[r].meets(
                        &stage_opts(spec, stage as nat, config.num_layers),
                        &all[stage as int].layout,
                        config.num_layers,
                    ));
                }
            }
            match Qwen3MoETpModel::load_with_opts(
                input.config,
                input.layout,
                tp_layout,
                &opts,
                &devices,
                input.parts,
            ) {
                Ok(tp_model) => {
                    stages.push(
                        Qwen3MoEHybridStage { stage_idx: stage, layer_range, tp_model },
                    );
                    proof {
                        assert(devices@ =~= stage_devices(device_ids@, spec.tp_size, stage as nat));
                        assert(stage_failure(all[stage as int], spec, stage as nat) is None);
                        assert(stage_made(
                            &stages@[stage as int],
                            &all[stage as int],
                            spec,
                            stage as nat,
                            device_ids@,
                        ));
                    }
                },
                Err(e) => {
                    proof {
                        assert(stage_failure(all[stage as int], spec, stage as nat) == Some(e));
                    }
                    return Err(HybridError::Load { load: e });
                },
            }
            stage = stage + 1;
        }
        Ok(Qwen3MoEHybridModel { config, spec, stages })
    }

    /// Bytes of each stage.
    pub open spec fn stage_sizes(&self) -> Seq<nat> {
        Seq::new(self.stages@.len(), |i: int| self.stages@[i].tp_model.spec_total_bytes())
    }

    /// Bytes over all stages.
    pub fn total_bytes(&self) -> (t: usize)
        requires
            sum(self.stage_sizes()) <= usize::MAX,
        ensures
            t == sum(self.stage_sizes()),
    {
        let ghost s = self.stage_sizes();
        let mut total: usize = 0;
        let mut i: usize = 0;
        proof {
            assert(s.take(0) =~= Seq::<nat>::empty());
        }
        while i < self.stages.len()
            invariant
                i <= self.stages@.len(),
                s == self.stage_sizes(),
                sum(s) <= usize::MAX,
                total == sum(s.take(i as int)),
            decreases self.stages@.len() - i,
        {
            proof {
                lemma_sum_step(s, i as int);
                lemma_sum_prefix(s, i as int + 1);
            }
            total = total + self.stages[i].tp_model.total_bytes();
            i = i + 1;
        }
        proof {
            assert(s.take(s.len() as int) =~= s);
        }
        total
    }

    /// The position of the first stage of that number from `i` on.
    pub open spec fn find_stage(stages: Seq<Qwen3MoEHybridStage>, stage_idx: u32, i: nat) -> Option<
        nat,
    >
        decreases stages.len() - i,
    {
        if i >= stages.len() {
            None
        } else if stages[i as int].stage_idx == stage_idx {
            Some(i)
        } else {
            Self::find_stage(stages, stage_idx, i + 1)
        }
    }

    /// Bytes of one stage.
    pub fn stage_bytes(&self, stage_idx: u32) -> (r: Option<usize>)
        requires
            forall|i: int|
                0 <= i < self.stages@.len() ==> (
                    #[trigger] self.stages@[i]
                ).tp_model.spec_total_bytes()
                    <= usize::MAX,
        ensures
            match Self::find_stage(self.stages@, stage_idx, 0) {
                Some(i) => r == Some(self.stages@[i as int].tp_model.spec_total_bytes() as usize),
                None => r is None,
            },
    {
        let mut i: usize = 0;
        while i < self.stages.len()
            invariant
                i <= self.stages@.len(),
                forall|i: int|
                    0 <= i < self.stages@.len() ==> (
                        #[trigger] self.stages@[i]
                    ).tp_model.spec_total_bytes()
                        <= usize::MAX,
                Self::find_stage(self.stages@, stage_idx, 0) == Self::find_stage(
                    self.stages@,
                    stage_idx,
                    i as nat,
                ),
            decreases self.stages@.len() - i,
        {
            if self.stages[i].stage_idx == stage_idx {
                return Some(self.stages[i].tp_model.total_bytes());
            }
            i = i + 1;
        }
        None
    }

    /// Gives up the model: lists the allocations of every stage to give back.
    pub fn dispose(self) -> (out: Vec<StageFree>)
        ensures
            out@ == flat(self.stages@.len(), |i: int| model_stage_frees(self.stages@[i])),
    {
        let ghost all = self.stages@;
        let ghost f = |i: int| model_stage_frees(all[i]);
        let mut left = self.stages;
        let n: usize = left.len();
        let mut out: Vec<StageFree> = Vec::new();
        let mut i: usize = 0;
        while i < n
            invariant
                i <= n,
                n == all.len(),
                left@ == all.skip(i as int),
                f == (|i: int| model_stage_frees(all[i])),
                out@ == flat(i as nat, f),
            decreases n - i,
        {
            let s = left.remove(0);
            proof {
                assert(s == all[i as int]);
                assert(left@ =~= all.skip(i as int + 1));
            }
            let stage = s.stage_idx;
            let frees = s.tp_model.dispose();
            push_stage_frees(stage, &frees, &mut out);
            i = i + 1;
        }
        out
    }
}

/// The allocations of the ranks of a mesh.
pub open spec fn mesh_frees(m: Qwen3MoETpModel) -> Seq<RankFree> {
    flat(
        m.shards@.len(),
        |i: int| rank_frees(m.shards@[i].rank, m.shards@[i].spec_frees()),
    )
}

/// The allocations of a stage of a model.
pub open spec fn model_stage_frees(s: Qwen3MoEHybridStage) -> Seq<StageFree> {
    stage_frees(s.stage_idx, mesh_frees(s.tp_model))
}

/// The caches of a stage, rank by rank.
#[derive(Debug)]
pub struct Qwen3MoEHybridStageSession {
    pub stage_idx: u32,
    pub layer_range: Range<usize>,
    pub caches: Vec<Vec<LayerCache>>,
    pub disposed: bool,
}

impl Qwen3MoEHybridStageSession {
    /// Bytes of the caches of each rank.
    pub open spec fn rank_sizes(&self) -> Seq<nat> {
        Seq::new(self.caches@.len(), |r: int| caches_bytes(self.caches@[r]@))
    }

    /// Bytes of the caches of all ranks.
    pub fn total_bytes(&self) -> (t: usize)
        requires
            sum(self.rank_sizes()) <= usize::MAX,
        ensures
            t == sum(self.rank_sizes()),
    {
        let ghost s = self.rank_sizes();
        let mut total: usize = 0;
        let mut r: usize = 0;
        proof {
            assert(s.take(0) =~= Seq::<nat>::empty());
        }
        while r < self.caches.len()
            invariant
                r <= self.caches@.len(),
                s == self.rank_sizes(),
                sum(s) <= usize::MAX,
                total == sum(s.take(r as int)),
            decreases self.caches@.len() - r,
        {
            proof {
                lemma_sum_step(s, r as int);
                lemma_sum_prefix(s, r as int + 1);
            }
            total = total + total_cache_bytes(&self.caches[r]);
            r = r + 1;
        }
        proof {
            assert(s.take(s.len() as int) =~= s);
        }
        total
    }

    /// What `dispose` gives back.
    pub open spec fn spec_frees(&self) -> Seq<RankFree> {
        if self.disposed {
            seq![]
        } else {
            flat(
                self.caches@.len(),
                |r: int| rank_frees(RankId(r as u32), caches_frees(self.caches@[r]@)),
            )
        }
    }

    /// Gives up the caches: lists the allocations of every rank to give back.
    pub fn dispose(self) -> (out: Vec<RankFree>)
        requires
            self.caches@.len() <= u32::MAX,
        ensures
            out@ == self.spec_frees(),
    {
        let mut out: Vec<RankFree> = Vec::new();
        if self.disposed {
            return out;
        }
        let ghost f = |r: int| rank_frees(RankId(r as u32), caches_frees(self.caches@[r]@));
        let mut r: usize = 0;
        while r < self.caches.len()
            invariant
                r <= self.caches@.len(),
                self.caches@.len() <= u32::MAX,
                f == (|r: int| rank_frees(RankId(r as u32), caches_frees(self.caches@[r]@))),
                out@ == flat(r as nat, f),
            decreases self.caches@.len() - r,
        {
            let frees = list_frees(&self.caches[r]);
            push_rank_frees(RankId(r as u32), &frees, &mut out);
            r = r + 1;
        }
        out
    }
}

/// The caches of all stages.
#[derive(Debug)]
pub struct Qwen3MoEHybridSession {
    pub stages: Vec<Qwen3MoEHybridStageSession>,
    pub disposed: bool,
}

/// The caches of a stage on the buffers `placed`.
pub open spec fn stage_caches(
    cfg: Qwen3MoEConfig,
    tp_size: u32,
    s: Qwen3MoEHybridStage,
    placed: Seq<Vec<PlacedCache>>,
) -> crate::plan::Run<Seq<LayerCache>, SessionError> {
    place_ranks_run_tp(
        cfg,
        tp_size,
        false,
        KvLayout::F16,
        s.layer_range.start,
        (s.layer_range.end - s.layer_range.start) as nat,
        placed,
    )
}

/// The error of the first stage from `i` on whose caches cannot be made.
pub open spec fn first_cache_error(
    m: &Qwen3MoEHybridModel,
    placed: Seq<Vec<Vec<PlacedCache>>>,
    i: nat,
) -> Option<SessionError>
    decreases m.stages@.len() - i,
{
    if i >= m.stages@.len() {
        None
    } else {
        match stage_caches(m.config, m.spec.tp_size, m.stages@[i as int], placed[i as int]@).err {
            Some(e) => Some(e),
            None => first_cache_error(m, placed, i + 1),
        }
    }
}

/// The caches of a stage are those of its model.
pub open spec fn session_stage_made(
    s: &Qwen3MoEHybridStageSession,
    m: &Qwen3MoEHybridModel,
    stage: &Qwen3MoEHybridStage,
    placed: Seq<Vec<PlacedCache>>,
) -> bool {
    &&& s.stage_idx == stage.stage_idx
    &&& s.layer_range.start == stage.layer_range.start
    &&& s.layer_range.end == stage.layer_range.end
    &&& views(s.caches@) == stage_caches(m.config, m.spec.tp_size, *stage, placed).ops
    &&& !s.disposed
}

/// What the ranks of a new stage do first, numbered within the stage.
pub open spec fn stage_first_ops(s: &Qwen3MoEHybridStageSession) -> Seq<StateOp> {
    start_ops(first_ranks(s.caches@.len()), views(s.caches@))
}

/// The range of every stage is one.
pub open spec fn ranges_ok(m: &Qwen3MoEHybridModel) -> bool {
    forall|i: int|
        0 <= i < m.stages@.len() ==> (#[trigger] m.stages@[i]).layer_range.start
            <= m.stages@[i].layer_range.end
}

/// There are buffers for the layers of every rank of every stage.
pub open spec fn caches_fit(m: &Qwen3MoEHybridModel, placed: Seq<Vec<Vec<PlacedCache>>>) -> bool {
    &&& placed.len() == m.stages@.len()
    &&& forall|i: int, r: int|
        0 <= i < placed.len() && 0 <= r < placed[i]@.len() ==> (#[trigger] placed[i]@[r])@.len()
            >= m.stages@[i].layer_range.end - m.stages@[i].layer_range.start
}

impl Qwen3MoEHybridSession {
    /// A session on the buffers `placed`, for each stage a list for each rank.
    /// `out` gets, for each stage, what fills the recurrent layers of its ranks
    /// with zeros.
    pub fn new(
        model: &Qwen3MoEHybridModel,
        placed: &Vec<Vec<Vec<PlacedCache>>>,
        out: &mut Vec<Vec<StateOp>>,
    ) -> (res: Result<Self, HybridError>)
        requires
            gdn_sane(&model.config),
            ranges_ok(model),
            caches_fit(model, placed@),
        ensures
            match first_cache_error(model, placed@, 0) {
                Some(e) => res == Err::<Self, HybridError>(HybridError::Session { session: e })
                    && final(out)@ == old(out)@,
                None => {
                    &&& res is Ok
                    &&& !res->Ok_0.disposed
                    &&& res->Ok_0.stages@.len() == model.stages@.len()
                    &&& forall|i: int|
                        0 <= i < model.stages@.len() ==> session_stage_made(
                            #[trigger] &res->Ok_0.stages@[i],
                            model,
                            &model.stages@[i],
                            placed@[i]@,
                        )
                    &&& final(out)@.len() == old(out)@.len() + model.stages@.len()
                    &&& forall|i: int|
                        0 <= i < old(out)@.len() ==> #[trigger] final(out)@[i] == old(out)@[i]
                    &&& forall|i: int|
                        0 <= i < model.stages@.len() ==> (#[trigger] final(out)@[old(out)@.len()
                            + i])@ == stage_first_ops(&res->Ok_0.stages@[i])
                },
            },
    {
        let mut starts: Vec<Vec<StateOp>> = Vec::new();
        let mut stages: Vec<Qwen3MoEHybridStageSession> = Vec::new();
        let mut i: usize = 0;
        while i < model.stages.len()
            invariant
                i <= model.stages@.len(),
                gdn_sane(&model.config),
                ranges_ok(model),
                caches_fit(model, placed@),
                first_cache_error(model, placed@, 0) == first_cache_error(
                    model,
                    placed@,
                    i as nat,
                ),
                stages@.len() == i,
                forall|k: int|
                    0 <= k < i ==> session_stage_made(
                        #[trigger] &stages@[k],
                        model,
                        &model.stages@[k],
                        placed@[k]@,
                    ),
                starts@.len() == i,
                forall|k: int|
                    0 <= k < i ==> (#[trigger] starts@[k])@ == stage_first_ops(&stages@[k]),
            decreases model.stages@.len() - i,
        {
            let start: usize = model.stages[i].layer_range.start;
            let end: usize = model.stages[i].layer_range.end;
            proof {
                assert(model.stages@[i as int].layer_range.start
                    <= model.stages@[i as int].layer_range.end);
                assert forall|r: int| 0 <= r < placed@[i as int]@.len() implies (
                #[trigger] placed@[i as int]@[r])@.len() >= end - start by {}
            }
            match place_ranks_tp(
                &model.config,
                model.spec.tp_size,
                false,
                KvLayout::F16,
                start,
                end - start,
                &placed[i],
            ) {
                Ok(caches) => {
                    let mut ops: Vec<StateOp> = Vec::new();
                    start_ranks(&caches, &mut ops);
                    proof {
                        assert(ops@ =~= start_ops(
                            first_ranks(caches@.len()),
                            views(caches@),
                        ));
                    }
                    starts.push(ops);
                    stages.push(
                        Qwen3MoEHybridStageSession {
                            stage_idx: model.stages[i].stage_idx,
                            layer_range: start..end,
                            caches,
                            disposed: false,
                        },
                    );
                },
                Err(e) => return Err(HybridError::Session { session: e }),
            }
            i = i + 1;
        }
        let ghost made = starts@;
        extend(out, starts);
        proof {
            assert forall|i: int| 0 <= i < made.len() implies (#[trigger] out@[old(out)@.len()
                + i])@ == stage_first_ops(&stages@[i]) by {
                assert(out@[old(out)@.len() + i] == made[i]);
            }
        }
        Ok(Qwen3MoEHybridSession { stages, disposed: false })
    }

    /// Bytes of each stage.
    pub open spec fn stage_sizes(&self) -> Seq<nat> {
        Seq::new(self.stages@.len(), |i: int| sum(self.stages@[i].rank_sizes()))
    }

    /// Bytes of the caches of all stages.
    pub fn total_bytes(&self) -> (t: usize)
        requires
            sum(self.stage_sizes()) <= usize::MAX,
        ensures
            t == sum(self.stage_sizes()),
    {
        let ghost s = self.stage_sizes();
        let mut total: usize = 0;
        let mut i: usize = 0;
        proof {
            assert(s.take(0) =~= Seq::<nat>::empty());
        }
        while i < self.stages.len()
            invariant
                i <= self.stages@.len(),
                s == self.stage_sizes(),
                sum(s) <= usize::MAX,
                total == sum(s.take(i as int)),
            decreases self.stages@.len() - i,
        {
            proof {
                lemma_sum_step(s, i as int);
                lemma_sum_prefix(s, i as int + 1);
            }
            total = total + self.stages[i].total_bytes();
            i = i + 1;
        }
        proof {
            assert(s.take(s.len() as int) =~= s);
        }
        total
    }

    /// Gives up the session: lists the allocations of every stage to give back.
    pub fn dispose(self, model: &Qwen3MoEHybridModel) -> (res: Result<Vec<StageFree>, HybridError>)
        requires
            forall|i: int|
                0 <= i < self.stages@.len() ==> (#[trigger] self.stages@[i]).caches@.len()
                    <= u32::MAX,
        ensures
            if self.disposed {
                res is Ok && res->Ok_0@.len() == 0
            } else if self.stages@.len() != model.stages@.len() {
                res == Err::<Vec<StageFree>, HybridError>(
                    HybridError::SessionStages {
                        have: self.stages@.len() as usize,
                        want: model.stages@.len() as usize,
                    },
                )
            } else {
                res is Ok && res->Ok_0@ == flat(
                    self.stages@.len(),
                    |i: int| stage_frees(self.stages@[i].stage_idx, self.stages@[i].spec_frees()),
                )
            },
    {
        let mut out: Vec<StageFree> = Vec::new();
        if self.disposed {
            return Ok(out);
        }
        if self.stages.len() != model.stages.len() {
            return Err(
                HybridError::SessionStages { have: self.stages.len(), want: model.stages.len() },
            );
        }
        let ghost all = self.stages@;
        let ghost f = |i: int| stage_frees(all[i].stage_idx, all[i].spec_frees());
        let mut left = self.stages;
        let n: usize = left.len();
        let mut i: usize = 0;
        while i < n
            invariant
                i <= n,
                n == all.len(),
                left@ == all.skip(i as int),
                forall|i: int|
                    0 <= i < all.len() ==> (#[trigger] all[i]).caches@.len() <= u32::MAX,
                f == (|i: int| stage_frees(all[i].stage_idx, all[i].spec_frees())),
                out@ == flat(i as nat, f),
            decreases n - i,
        {
            let s = left.remove(0);
            proof {
                assert(s == all[i as int]);
                assert(left@ =~= all.skip(i as int + 1));
            }
            let stage = s.stage_idx;
            let frees = s.dispose();
            push_stage_frees(stage, &frees, &mut out);
            i = i + 1;
        }
        Ok(out)
    }
}

/// Working memory of decoding one token, stage by stage.
#[derive(Debug)]
pub struct ShardedForwardOneTokenScratchHybrid {
    pub per_stage: Vec<ShardedForwardOneTokenScratchTp>,
    /// The stage that has the LM head: the last one.
    pub head_stage: u32,
    pub disposed: bool,
}

impl ShardedForwardOneTokenScratchHybrid {
    /// The error of the first stage from `i` on that has no ranks.
    pub open spec fn first_error(bufs: Seq<Vec<RankBuffers>>, i: nat) -> Option<ForwardError>
        decreases bufs.len() - i,
    {
        if i >= bufs.len() {
            None
        } else if bufs[i as int]@.len() == 0 {
            Some(ForwardError::HeadRank { head_rank: 0, ranks: 0 })
        } else {
            Self::first_error(bufs, i + 1)
        }
    }

    /// The working memory on the buffers `bufs`, for each stage one entry for
    /// each rank. In every stage rank 0 has the LM head's buffer.
    pub fn new(model: &Qwen3MoEHybridModel, bufs: &Vec<Vec<RankBuffers>>) -> (res: Result<
        Self,
        HybridError,
    >)
        requires
            model.spec.pp_size > 0,
            bufs@.len() == model.stages@.len(),
            model.config.hidden_size * 2 <= usize::MAX,
            forall|i: int| 0 <= i < bufs@.len() ==> (#[trigger] bufs@[i])@.len() <= u32::MAX,
        ensures
            match Self::first_error(bufs@, 0) {
                Some(e) => res == Err::<Self, HybridError>(HybridError::Forward { forward: e }),
                None => res is Ok && ({
                    let s = res->Ok_0;
                    &&& s.head_stage == model.spec.pp_size - 1
                    &&& !s.disposed
                    &&& s.per_stage@.len() == model.stages@.len()
                    &&& forall|i: int|
                        0 <= i < bufs@.len() ==> ShardedForwardOneTokenScratchTp::made(
                            model.config,
                            bufs@[i]@,
                            RankId(0),
                            Ok::<ShardedForwardOneTokenScratchTp, ForwardError>(
                                #[trigger] s.per_stage@[i]
                            ),
                        )
                }),
            },
    {
        let mut per_stage: Vec<ShardedForwardOneTokenScratchTp> = Vec::new();
        let mut i: usize = 0;
        while i < bufs.len()
            invariant
                i <= bufs@.len(),
                model.config.hidden_size * 2 <= usize::MAX,
                forall|i: int| 0 <= i < bufs@.len() ==> (#[trigger] bufs@[i])@.len() <= u32::MAX,
                Self::first_error(bufs@, 0) == Self::first_error(bufs@, i as nat),
                per_stage@.len() == i,
                forall|k: int|
                    0 <= k < i ==> ShardedForwardOneTokenScratchTp::made(
                        model.config,
                        bufs@[k]@,
                        RankId(0),
                        Ok::<ShardedForwardOneTokenScratchTp, ForwardError>(
                            #[trigger] per_stage@[k]
                        ),
                    ),
            decreases bufs@.len() - i,
        {
            match ShardedForwardOneTokenScratchTp::new_with_head_rank(
                &model.config,
                &bufs[i],
                RankId(0),
            ) {
                Ok(s) => {
                    per_stage.push(s);
                },
                Err(e) => return Err(HybridError::Forward { forward: e }),
            }
            i = i + 1;
        }
        Ok(
            ShardedForwardOneTokenScratchHybrid {
                per_stage,
                head_stage: model.spec.pp_size - 1,
                disposed: false,
            }
        )
    }

    /// Bytes of each stage.
    pub open spec fn stage_sizes(&self) -> Seq<nat> {
        Seq::new(self.per_stage@.len(), |i: int| self.per_stage@[i].spec_rank_level_bytes())
    }

    /// Bytes of the buffers of all stages.
    pub fn total_bytes(&self) -> (t: usize)
        requires
            sum(self.stage_sizes()) <= usize::MAX,
        ensures
            t == sum(self.stage_sizes()),
    {
        let ghost s = self.stage_sizes();
        let mut total: usize = 0;
        let mut i: usize = 0;
        proof {
            assert(s.take(0) =~= Seq::<nat>::empty());
        }
        while i < self.per_stage.len()
            invariant
                i <= self.per_stage@.len(),
                s == self.stage_sizes(),
                sum(s) <= usize::MAX,
                total == sum(s.take(i as int)),
            decreases self.per_stage@.len() - i,
        {
            proof {
                lemma_sum_step(s, i as int);
                lemma_sum_prefix(s, i as int + 1);
            }
            total = total + self.per_stage[i].rank_level_bytes();
            i = i + 1;
        }
        proof {
            assert(s.take(s.len() as int) =~= s);
        }
        total
    }

    /// Gives up the working memory: lists the buffers of every stage to give back.
    pub fn dispose(self, model: &Qwen3MoEHybridModel) -> (res: Result<Vec<StageFree>, HybridError>)
        requires
            self.per_stage@.len() <= u32::MAX,
        ensures
            if self.disposed {
                res is Ok && res->Ok_0@.len() == 0
            } else if self.per_stage@.len() != model.stages@.len() {
                res == Err::<Vec<StageFree>, HybridError>(
                    HybridError::OneTokenStages {
                        have: self.per_stage@.len() as usize,
                        want: model.stages@.len() as usize,
                    },
                )
            } else {
                res is Ok && res->Ok_0@ == flat(
                    self.per_stage@.len(),
                    |i: int| stage_frees(i as u32, self.per_stage@[i].spec_frees()),
                )
            },
    {
        let mut out: Vec<StageFree> = Vec::new();
        if self.disposed {
            return Ok(out);
        }
        if self.per_stage.len() != model.stages.len() {
            return Err(
                HybridError::OneTokenStages {
                    have: self.per_stage.len(),
                    want: model.stages.len(),
                },
            );
        }
        let ghost all = self.per_stage@;
        let ghost f = |i: int| stage_frees(i as u32, all[i].spec_frees());
        let mut left = self.per_stage;
        let n: usize = left.len();
        let mut i: usize = 0;
        while i < n
            invariant
                i <= n,
                n == all.len(),
                n <= u32::MAX,
                left@ == all.skip(i as int),
                f == (|i: int| stage_frees(i as u32, all[i].spec_frees())),
                out@ == flat(i as nat, f),
            decreases n - i,
        {
            let mut s = left.remove(0);
            proof {
                assert(s == all[i as int]);
                assert(left@ =~= all.skip(i as int + 1));
            }
            let frees = s.dispose();
            push_stage_frees(i as u32, &frees, &mut out);
            i = i + 1;
        }
        Ok(out)
    }
}

/// Working memory of a prefill, stage by stage.
#[derive(Debug)]
pub struct ShardedForwardPrefillScratchHybrid {
    pub per_stage: Vec<ShardedForwardPrefillScratchTp>,
    /// The stage that has the LM head: the last one.
    pub head_stage: u32,
    pub max_tokens: usize,
    pub disposed: bool,
}

impl ShardedForwardPrefillScratchHybrid {
    /// The error of the first stage from `i` on that has no ranks.
    pub open spec fn first_error(bufs: Seq<Vec<RankBuffers>>, i: nat) -> Option<ForwardError>
        decreases bufs.len() - i,
    {
        if i >= bufs.len() {
            None
        } else if bufs[i as int]@.len() == 0 {
            Some(ForwardError::HeadRank { head_rank: 0, ranks: 0 })
        } else {
            Self::first_error(bufs, i + 1)
        }
    }

    /// The working memory on the buffers `bufs`, for each stage one entry for
    /// each rank. In every stage rank 0 has the LM head's buffer.
    pub fn new(
        model: &Qwen3MoEHybridModel,
        max_tokens: usize,
        bufs: &Vec<Vec<RankBuffers>>,
    ) -> (res: Result<
        Self,
        HybridError,
    >)
        requires
            model.spec.pp_size > 0,
            bufs@.len() == model.stages@.len(),
            max_tokens * model.config.hidden_size * 2 <= usize::MAX,
            forall|i: int| 0 <= i < bufs@.len() ==> (#[trigger] bufs@[i])@.len() <= u32::MAX,
        ensures
            max_tokens == 0 ==> res == Err::<Self, HybridError>(HybridError::MaxTokens),
            max_tokens > 0 ==> match Self::first_error(bufs@, 0) {
                Some(e) => res == Err::<Self, HybridError>(HybridError::Forward { forward: e }),
                None => res is Ok && ({
                    let s = res->Ok_0;
                    &&& s.head_stage == model.spec.pp_size - 1
                    &&& !s.disposed
                    &&& s.max_tokens == max_tokens
                    &&& s.per_stage@.len() == model.stages@.len()
                    &&& forall|i: int|
                        0 <= i < bufs@.len() ==> ShardedForwardPrefillScratchTp::made(
                            model.config,
                            max_tokens,
                            bufs@[i]@,
                            RankId(0),
                            Ok::<ShardedForwardPrefillScratchTp, ForwardError>(
                                #[trigger] s.per_stage@[i]
                            ),
                        )
                }),
            },
    {
        if max_tokens == 0 {
            return Err(HybridError::MaxTokens);
        }
        let mut per_stage: Vec<ShardedForwardPrefillScratchTp> = Vec::new();
        let mut i: usize = 0;
        while i < bufs.len()
            invariant
                i <= bufs@.len(),
                max_tokens > 0,
                max_tokens * model.config.hidden_size * 2 <= usize::MAX,
                forall|i: int| 0 <= i < bufs@.len() ==> (#[trigger] bufs@[i])@.len() <= u32::MAX,
                Self::first_error(bufs@, 0) == Self::first_error(bufs@, i as nat),
                per_stage@.len() == i,
                forall|k: int|
                    0 <= k < i ==> ShardedForwardPrefillScratchTp::made(
                        model.config,
                        max_tokens,
                            bufs@[k]@,
                        RankId(0),
                        Ok::<ShardedForwardPrefillScratchTp, ForwardError>(
                            #[trigger] per_stage@[k]
                        ),
                    ),
            decreases bufs@.len() - i,
        {
            match ShardedForwardPrefillScratchTp::new_with_head_rank(
                &model.config,
                max_tokens,
                &bufs[i],
                RankId(0),
            ) {
                Ok(s) => {
                    per_stage.push(s);
                },
                Err(e) => return Err(HybridError::Forward { forward: e }),
            }
            i = i + 1;
        }
        Ok(
            ShardedForwardPrefillScratchHybrid {
                per_stage,
                head_stage: model.spec.pp_size - 1,
                max_tokens,
                disposed: false,
            }
        )
    }

    /// Bytes of each stage.
    pub open spec fn stage_sizes(&self) -> Seq<nat> {
        Seq::new(self.per_stage@.len(), |i: int| self.per_stage@[i].spec_rank_level_bytes())
    }

    /// Bytes of the buffers of all stages.
    pub fn total_bytes(&self) -> (t: usize)
        requires
            sum(self.stage_sizes()) <= usize::MAX,
        ensures
            t == sum(self.stage_sizes()),
    {
        let ghost s = self.stage_sizes();
        let mut total: usize = 0;
        let mut i: usize = 0;
        proof {
            assert(s.take(0) =~= Seq::<nat>::empty());
        }
        while i < self.per_stage.len()
            invariant
                i <= self.per_stage@.len(),
                s == self.stage_sizes(),
                sum(s) <= usize::MAX,
                total == sum(s.take(i as int)),
            decreases self.per_stage@.len() - i,
        {
            proof {
                lemma_sum_step(s, i as int);
                lemma_sum_prefix(s, i as int + 1);
            }
            total = total + self.per_stage[i].rank_level_bytes();
            i = i + 1;
        }
        proof {
            assert(s.take(s.len() as int) =~= s);
        }
        total
    }

    /// Gives up the working memory: lists the buffers of every stage to give back.
    pub fn dispose(self, model: &Qwen3MoEHybridModel) -> (res: Result<Vec<StageFree>, HybridError>)
        requires
            self.per_stage@.len() <= u32::MAX,
        ensures
            if self.disposed {
                res is Ok && res->Ok_0@.len() == 0
            } else if self.per_stage@.len() != model.stages@.len() {
                res == Err::<Vec<StageFree>, HybridError>(
                    HybridError::PrefillStages {
                        have: self.per_stage@.len() as usize,
                        want: model.stages@.len() as usize,
                    },
                )
            } else {
                res is Ok && res->Ok_0@ == flat(
                    self.per_stage@.len(),
                    |i: int| stage_frees(i as u32, self.per_stage@[i].spec_frees()),
                )
            },
    {
        let mut out: Vec<StageFree> = Vec::new();
        if self.disposed {
            return Ok(out);
        }
        if self.per_stage.len() != model.stages.len() {
            return Err(
                HybridError::PrefillStages {
                    have: self.per_stage.len(),
                    want: model.stages.len(),
                },
            );
        }
        let ghost all = self.per_stage@;
        let ghost f = |i: int| stage_frees(i as u32, all[i].spec_frees());
        let mut left = self.per_stage;
        let n: usize = left.len();
        let mut i: usize = 0;
        while i < n
            invariant
                i <= n,
                n == all.len(),
                n <= u32::MAX,
                left@ == all.skip(i as int),
                f == (|i: int| stage_frees(i as u32, all[i].spec_frees())),
                out@ == flat(i as nat, f),
            decreases n - i,
        {
            let mut s = left.remove(0);
            proof {
                assert(s == all[i as int]);
                assert(left@ =~= all.skip(i as int + 1));
            }
            let frees = s.dispose();
            push_stage_frees(i as u32, &frees, &mut out);
            i = i + 1;
        }
        Ok(out)
    }
}

} // verus!
