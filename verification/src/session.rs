//! Per-sequence state: KV caches of the full-attention layers, recurrent state
//! and convolution history of the gated-delta-net layers.
//!
//! Sizes, ownership and the order of device operations are decided here; the
//! operations themselves are carried out by the caller on its devices.

use crate::arith::{lemma_exact_div, lemma_mul_mono, lemma_sum_prefix, lemma_sum_step, sum};
use crate::config::Qwen3MoEConfig;
use crate::device::{DevicePtr, Free};
use crate::plan::ran;
use crate::state_ops::{
    caches_frees, list_frees, place_layers, place_run, reset_rank_ops, restore_caches,
    restore_run, roll_caches, rolled, save_all_ops, save_caches, start_rank, with_snapshots,
    PlacedCache, Site, SnapshotPtrs, StateOp,
};
use crate::text::{dec, owned, push_dec, str_eq};
use vstd::prelude::*;

verus! {

/// How the K and V tensors of the full-attention layers are stored.
#[derive(Debug, Clone, Copy, PartialEq, Eq, Structural)]
pub enum KvLayout {
    F16,
    Q8,
}

impl KvLayout {
    /// The values that select the quantised layout.
    pub open spec fn names_q8(s: Seq<char>) -> bool {
        s == "q8"@ || s == "q8_0"@ || s == "Q8"@ || s == "Q8_0"@
    }

    /// The layout that the environment value `value` selects: `q8`, `q8_0`,
    /// `Q8` or `Q8_0` select the quantised one, anything else (or no value) F16.
    pub fn from_value(value: Option<&str>) -> (r: Self)
        ensures
            r == (match value {
                Some(s) => if Self::names_q8(s@) {
                    KvLayout::Q8
                } else {
                    KvLayout::F16
                },
                None => KvLayout::F16,
            }),
    {
        match value {
            Some(s) => {
                if str_eq(s, "q8") || str_eq(s, "q8_0") || str_eq(s, "Q8") || str_eq(s, "Q8_0") {
                    KvLayout::Q8
                } else {
                    KvLayout::F16
                }
            },
            None => KvLayout::F16,
        }
    }
}

/// Errors of the per-sequence state.
#[derive(Debug, Clone, Copy, PartialEq, Eq, Structural)]
pub enum SessionError {
    /// More tokens are to be removed than the cache holds.
    RollbackTooFar { n_remove: usize, current: usize },
    /// `RollbackTooFar` in a layer of a single-device session.
    RollbackLayer { layer: usize, n_remove: usize, current: usize },
    /// `RollbackTooFar` in a layer of a rank.
    RollbackRank { rank: usize, layer: usize, n_remove: usize, current: usize },
    /// A recurrent layer has no head dims.
    MissingGdn,
    WorldZero,
    VHeadsIndivisible { num_v_heads: usize, world: u32 },
    KHeadsIndivisible { num_k_heads: usize, world: u32 },
    /// A tensor-parallel model is run on the wrong number of ranks.
    RankCount { ranks: usize, world: u32 },
    /// A pipeline is run on the wrong number of ranks.
    StageCount { ranks: usize, shards: usize },
    /// A restore finds no saved state.
    NoSnapshot { layer: usize },
    /// A restore finds no saved convolution history.
    NoConvSnapshot { layer: usize },
    /// A restore finds no saved state on a pipeline rank.
    NoSnapshotStage { rank: usize, layer: usize },
    /// A restore finds no saved convolution history on a pipeline rank.
    NoConvSnapshotStage { rank: usize, layer: usize },
    /// A restore finds no saved state on a rank.
    NoSnapshotRank { rank: usize, layer: usize },
    /// A restore finds no saved convolution history on a rank.
    NoConvSnapshotRank { rank: usize, layer: usize },
}

impl SessionError {
    pub open spec fn spec_message(&self) -> Seq<char> {
        match self {
            SessionError::RollbackTooFar { n_remove, current } => "cannot remove "@ + dec(
                *n_remove as nat,
            ) + " of "@ + dec(*current as nat) + " cached tokens"@,
            SessionError::RollbackLayer { layer, n_remove, current } => "rollback layer "@ + dec(
                *layer as nat,
            ) + ": cannot remove "@ + dec(*n_remove as nat) + " of "@ + dec(*current as nat)
                + " cached tokens"@,
            SessionError::RollbackRank { rank, layer, n_remove, current } => "rollback rank="@
                + dec(*rank as nat) + " layer="@ + dec(*layer as nat) + ": cannot remove "@ + dec(
                *n_remove as nat,
            ) + " of "@ + dec(*current as nat) + " cached tokens"@,
            SessionError::MissingGdn => "recurrent layer requires cfg.gdn to be Some"@,
            SessionError::WorldZero => "tp_world must be >= 1"@,
            SessionError::VHeadsIndivisible { num_v_heads, world } =>
                "alloc_layer_cache_tp: gdn.num_v_heads "@ + dec(*num_v_heads as nat)
                + " not divisible by tp_world "@ + dec(*world as nat),
            SessionError::KHeadsIndivisible { num_k_heads, world } =>
                "alloc_layer_cache_tp: gdn.num_k_heads "@ + dec(*num_k_heads as nat)
                + " not divisible by tp_world "@ + dec(*world as nat),
            SessionError::RankCount { ranks, world } => "cluster has "@ + dec(*ranks as nat)
                + " ranks, tp expects world="@ + dec(*world as nat),
            SessionError::StageCount { ranks, shards } =>
                "Qwen3MoEShardedSession::new: cluster.ranks="@ + dec(*ranks as nat)
                + " != model.shards.len()="@ + dec(*shards as nat),
            SessionError::NoSnapshot { layer } => "restore_gdn_snapshot: layer "@ + dec(
                *layer as nat,
            ) + " has no saved snapshot"@,
            SessionError::NoConvSnapshot { layer } => "restore_gdn_snapshot: layer "@ + dec(
                *layer as nat,
            ) + " has no saved conv snapshot"@,
            SessionError::NoSnapshotStage { rank, layer } => "restore GDN: rank="@ + dec(
                *rank as nat,
            ) + " layer="@ + dec(*layer as nat) + " no snapshot"@,
            SessionError::NoConvSnapshotStage { rank, layer } => "restore GDN conv: rank="@ + dec(
                *rank as nat,
            ) + " layer="@ + dec(*layer as nat) + " no snapshot"@,
            SessionError::NoSnapshotRank { rank, layer } => "restore GDN: rank="@ + dec(
                *rank as nat,
            ) + " layer="@ + dec(*layer as nat) + " no snap"@,
            SessionError::NoConvSnapshotRank { rank, layer } => "restore GDN conv: rank="@ + dec(
                *rank as nat,
            ) + " layer="@ + dec(*layer as nat) + " no snap"@,
        }
    }

    /// The error as a sentence.
    pub fn message(&self) -> (r: String)
        ensures
            r@ == self.spec_message(),
    {
        match self {
            SessionError::RollbackTooFar { n_remove, current } => {
                let mut s = owned("cannot remove ");
                push_dec(&mut s, *n_remove as u64);
                s.append(" of ");
                push_dec(&mut s, *current as u64);
                s.append(" cached tokens");
                s
            },
            SessionError::RollbackLayer { layer, n_remove, current } => {
                let mut s = owned("rollback layer ");
                push_dec(&mut s, *layer as u64);
                s.append(": cannot remove ");
                push_dec(&mut s, *n_remove as u64);
                s.append(" of ");
                push_dec(&mut s, *current as u64);
                s.append(" cached tokens");
                s
            },
            SessionError::RollbackRank { rank, layer, n_remove, current } => {
                let mut s = owned("rollback rank=");
                push_dec(&mut s, *rank as u64);
                s.append(" layer=");
                push_dec(&mut s, *layer as u64);
                s.append(": cannot remove ");
                push_dec(&mut s, *n_remove as u64);
                s.append(" of ");
                push_dec(&mut s, *current as u64);
                s.append(" cached tokens");
                s
            },
            SessionError::MissingGdn => owned("recurrent layer requires cfg.gdn to be Some"),
            SessionError::WorldZero => owned("tp_world must be >= 1"),
            SessionError::VHeadsIndivisible { num_v_heads, world } => {
                let mut s = owned("alloc_layer_cache_tp: gdn.num_v_heads ");
                push_dec(&mut s, *num_v_heads as u64);
                s.append(" not divisible by tp_world ");
                push_dec(&mut s, *world as u64);
                s
            },
            SessionError::KHeadsIndivisible { num_k_heads, world } => {
                let mut s = owned("alloc_layer_cache_tp: gdn.num_k_heads ");
                push_dec(&mut s, *num_k_heads as u64);
                s.append(" not divisible by tp_world ");
                push_dec(&mut s, *world as u64);
                s
            },
            SessionError::RankCount { ranks, world } => {
                let mut s = owned("cluster has ");
                push_dec(&mut s, *ranks as u64);
                s.append(" ranks, tp expects world=");
                push_dec(&mut s, *world as u64);
                s
            },
            SessionError::StageCount { ranks, shards } => {
                let mut s = owned("Qwen3MoEShardedSession::new: cluster.ranks=");
                push_dec(&mut s, *ranks as u64);
                s.append(" != model.shards.len()=");
                push_dec(&mut s, *shards as u64);
                s
            },
            SessionError::NoSnapshot { layer } => {
                let mut s = owned("restore_gdn_snapshot: layer ");
                push_dec(&mut s, *layer as u64);
                s.append(" has no saved snapshot");
                s
            },
            SessionError::NoConvSnapshot { layer } => {
                let mut s = owned("restore_gdn_snapshot: layer ");
                push_dec(&mut s, *layer as u64);
                s.append(" has no saved conv snapshot");
                s
            },
            SessionError::NoSnapshotStage { rank, layer } => {
                let mut s = owned("restore GDN: rank=");
                push_dec(&mut s, *rank as u64);
                s.append(" layer=");
                push_dec(&mut s, *layer as u64);
                s.append(" no snapshot");
                s
            },
            SessionError::NoConvSnapshotStage { rank, layer } => {
                let mut s = owned("restore GDN conv: rank=");
                push_dec(&mut s, *rank as u64);
                s.append(" layer=");
                push_dec(&mut s, *layer as u64);
                s.append(" no snapshot");
                s
            },
            SessionError::NoSnapshotRank { rank, layer } => {
                let mut s = owned("restore GDN: rank=");
                push_dec(&mut s, *rank as u64);
                s.append(" layer=");
                push_dec(&mut s, *layer as u64);
                s.append(" no snap");
                s
            },
            SessionError::NoConvSnapshotRank { rank, layer } => {
                let mut s = owned("restore GDN conv: rank=");
                push_dec(&mut s, *rank as u64);
                s.append(" layer=");
                push_dec(&mut s, *layer as u64);
                s.append(" no snap");
                s
            },
        }
    }
}

/// The K and V tensors of one full-attention layer and how many tokens they hold.
#[derive(Debug, Clone, Copy, PartialEq, Eq, Structural)]
pub struct KvCache {
    pub k: DevicePtr,
    pub v: DevicePtr,
    /// Bytes of the K tensor, and of the V tensor.
    pub tensor_bytes: usize,
    pub max_tokens: usize,
    pub current_tokens: usize,
}

impl KvCache {
    pub open spec fn wf(&self) -> bool {
        self.current_tokens <= self.max_tokens
    }

    pub fn bytes_per_tensor(&self) -> (r: usize)
        ensures
            r == self.tensor_bytes,
    {
        self.tensor_bytes
    }

    /// Drops the last `n_remove` tokens.
    pub fn rollback(&mut self, n_remove: usize) -> (r: Result<(), SessionError>)
        ensures
            n_remove <= old(self).current_tokens ==> r is Ok && *final(self) == (KvCache {
                current_tokens: (old(self).current_tokens - n_remove) as usize,
                ..*old(self)
            }),
            n_remove > old(self).current_tokens ==> *final(self) == *old(self) && r == Err::<
                (),
                SessionError,
            >(
                SessionError::RollbackTooFar {
                    n_remove,
                    current: old(self).current_tokens,
                },
            ),
    {
        if n_remove > self.current_tokens {
            return Err(
                SessionError::RollbackTooFar { n_remove, current: self.current_tokens },
            );
        }
        self.current_tokens = self.current_tokens - n_remove;
        Ok(())
    }

    /// Forgets all tokens.
    pub fn clear(&mut self)
        ensures
            *final(self) == (KvCache { current_tokens: 0, ..*old(self) }),
    {
        self.current_tokens = 0;
    }
}

/// Device buffers of one gated-delta-net layer.
#[derive(Debug, Clone, Copy, PartialEq, Eq, Structural)]
pub struct GdnLayerState {
    /// `[num_v_heads, head_k_dim, head_v_dim]`.
    pub state: DevicePtr,
    pub state_bytes: usize,
    /// `[conv_kernel - 1, conv_channels]`.
    pub conv_history: DevicePtr,
    pub conv_history_bytes: usize,
    pub num_v_heads: usize,
    pub head_k_dim: usize,
    pub head_v_dim: usize,
    pub conv_kernel: usize,
    pub conv_channels: usize,
    /// Shadow buffers of the last snapshot, absent until the first one is taken.
    pub snapshot_state: Option<DevicePtr>,
    pub snapshot_conv_history: Option<DevicePtr>,
}

/// The mutable state of one layer.
#[derive(Debug, Clone, Copy, PartialEq, Eq, Structural)]
pub enum LayerCache {
    FullAttn(KvCache),
    FullAttnQ8(KvCache),
    Gdn(GdnLayerState),
}

impl LayerCache {
    /// Bytes of the layer's live buffers; snapshots are not counted.
    pub open spec fn spec_bytes(&self) -> nat {
        match self {
            LayerCache::FullAttn(kv) => kv.tensor_bytes as nat * 2,
            LayerCache::FullAttnQ8(kv) => kv.tensor_bytes as nat * 2,
            LayerCache::Gdn(g) => g.state_bytes as nat + g.conv_history_bytes as nat,
        }
    }

    pub fn bytes(&self) -> (r: usize)
        requires
            self.spec_bytes() <= usize::MAX,
        ensures
            r == self.spec_bytes(),
    {
        match self {
            LayerCache::FullAttn(kv) => kv.bytes_per_tensor() * 2,
            LayerCache::FullAttnQ8(kv) => kv.bytes_per_tensor() * 2,
            LayerCache::Gdn(g) => g.state_bytes + g.conv_history_bytes,
        }
    }

    /// The cache after `n_remove` tokens are taken back. A gated-delta-net
    /// layer stays as it is.
    pub open spec fn rolled_back(&self, n_remove: nat) -> LayerCache {
        match self {
            LayerCache::FullAttn(kv) => LayerCache::FullAttn(
                KvCache { current_tokens: (kv.current_tokens - n_remove) as usize, ..*kv },
            ),
            LayerCache::FullAttnQ8(kv) => LayerCache::FullAttnQ8(
                KvCache { current_tokens: (kv.current_tokens - n_remove) as usize, ..*kv },
            ),
            LayerCache::Gdn(g) => LayerCache::Gdn(*g),
        }
    }

    /// Whether `n_remove` tokens can be taken back.
    pub open spec fn can_roll_back(&self, n_remove: nat) -> bool {
        match self {
            LayerCache::FullAttn(kv) => n_remove <= kv.current_tokens,
            LayerCache::FullAttnQ8(kv) => n_remove <= kv.current_tokens,
            LayerCache::Gdn(g) => true,
        }
    }

    /// Takes `n_remove` tokens back.
    pub fn rollback(&mut self, n_remove: usize) -> (r: Result<(), SessionError>)
        ensures
            old(self).can_roll_back(n_remove as nat) ==> r is Ok && *final(self) == old(
                self,
            ).rolled_back(n_remove as nat),
            !old(self).can_roll_back(n_remove as nat) ==> *final(self) == *old(self) && (r matches Err(
                e,
            ) && e == (SessionError::RollbackTooFar {
                n_remove,
                current: old(self).tokens() as usize,
            })),
    {
        match self {
            LayerCache::FullAttn(kv) => kv.rollback(n_remove),
            LayerCache::FullAttnQ8(kv) => kv.rollback(n_remove),
            LayerCache::Gdn(_) => Ok(()),
        }
    }

    /// Tokens in the KV cache, 0 for a gated-delta-net layer.
    pub open spec fn tokens(&self) -> nat {
        match self {
            LayerCache::FullAttn(kv) => kv.current_tokens as nat,
            LayerCache::FullAttnQ8(kv) => kv.current_tokens as nat,
            LayerCache::Gdn(g) => 0,
        }
    }

    /// The allocations of the layer, in the order in which they are released.
    pub open spec fn spec_frees(&self) -> Seq<Free> {
        match self {
            LayerCache::FullAttn(kv) => seq![
                Free { ptr: kv.k, bytes: kv.tensor_bytes },
                Free { ptr: kv.v, bytes: kv.tensor_bytes },
            ],
            LayerCache::FullAttnQ8(kv) => seq![
                Free { ptr: kv.k, bytes: kv.tensor_bytes },
                Free { ptr: kv.v, bytes: kv.tensor_bytes },
            ],
            LayerCache::Gdn(g) => seq![
                Free { ptr: g.state, bytes: g.state_bytes },
                Free { ptr: g.conv_history, bytes: g.conv_history_bytes },
            ] + (match g.snapshot_state {
                Some(p) => seq![Free { ptr: p, bytes: g.state_bytes }],
                None => seq![],
            }) + (match g.snapshot_conv_history {
                Some(p) => seq![Free { ptr: p, bytes: g.conv_history_bytes }],
                None => seq![],
            }),
        }
    }
}

/// The allocations of `cache`, in the order in which they are released.
pub fn dispose_layer_cache(cache: &LayerCache) -> (r: Vec<Free>)
    ensures
        r@ == cache.spec_frees(),
{
    let mut out: Vec<Free> = Vec::new();
    match cache {
        LayerCache::FullAttn(kv) => {
            out.push(Free { ptr: kv.k, bytes: kv.tensor_bytes });
            out.push(Free { ptr: kv.v, bytes: kv.tensor_bytes });
        },
        LayerCache::FullAttnQ8(kv) => {
            out.push(Free { ptr: kv.k, bytes: kv.tensor_bytes });
            out.push(Free { ptr: kv.v, bytes: kv.tensor_bytes });
        },
        LayerCache::Gdn(g) => {
            out.push(Free { ptr: g.state, bytes: g.state_bytes });
            out.push(Free { ptr: g.conv_history, bytes: g.conv_history_bytes });
            if let Some(p) = g.snapshot_state {
                out.push(Free { ptr: p, bytes: g.state_bytes });
            }
            if let Some(p) = g.snapshot_conv_history {
                out.push(Free { ptr: p, bytes: g.conv_history_bytes });
            }
        },
    }
    proof {
        assert(out@ =~= cache.spec_frees());
    }
    out
}

/// What has to be allocated for a layer's cache.
#[derive(Debug, Clone, Copy, PartialEq, Eq, Structural)]
pub enum LayerCacheSpec {
    /// A KV cache of `layout` for `max_tokens` tokens.
    Kv { layout: KvLayout, num_kv_heads: usize, head_dim: usize, max_tokens: usize },
    /// Zero-filled recurrent state and convolution history.
    Gdn {
        state_bytes: usize,
        conv_history_bytes: usize,
        num_v_heads: usize,
        head_k_dim: usize,
        head_v_dim: usize,
        conv_kernel: usize,
        conv_channels: usize,
    },
}

/// Bytes of the recurrent state for `v_heads` V heads: one F32 per entry.
pub open spec fn state_size(v_heads: nat, head_k: nat, head_v: nat) -> nat {
    v_heads * head_k * head_v * 4
}

/// Bytes of the convolution history: `kernel - 1` rows of `channels` F32.
pub open spec fn conv_size(kernel: nat, channels: nat) -> nat {
    (kernel - 1) as nat * channels * 4
}

/// The head dims can be used: there are V heads, a convolution kernel, and all
/// sizes fit in `usize`.
pub open spec fn gdn_sane(cfg: &Qwen3MoEConfig) -> bool {
    cfg.gdn matches Some(g) ==> {
        &&& g.num_v_heads > 0
        &&& g.conv_kernel > 0
        &&& g.spec_conv_channels() <= usize::MAX
        &&& state_size(g.num_v_heads as nat, g.head_k_dim as nat, g.spec_head_v_dim())
            <= usize::MAX
        &&& conv_size(g.conv_kernel as nat, g.spec_conv_channels()) <= usize::MAX
    }
}

/// The cache of layer `il` on a single device.
pub open spec fn cache_spec(cfg: &Qwen3MoEConfig, il: nat, kv: KvLayout) -> Result<
    LayerCacheSpec,
    SessionError,
> {
    if cfg.spec_is_recurrent(il) {
        match cfg.gdn {
            None => Err(SessionError::MissingGdn),
            Some(g) => Ok(
                LayerCacheSpec::Gdn {
                    state_bytes: state_size(
                        g.num_v_heads as nat,
                        g.head_k_dim as nat,
                        g.spec_head_v_dim(),
                    ) as usize,
                    conv_history_bytes: conv_size(
                        g.conv_kernel as nat,
                        g.spec_conv_channels(),
                    ) as usize,
                    num_v_heads: g.num_v_heads,
                    head_k_dim: g.head_k_dim,
                    head_v_dim: g.spec_head_v_dim() as usize,
                    conv_kernel: g.conv_kernel,
                    conv_channels: g.spec_conv_channels() as usize,
                },
            ),
        }
    } else {
        Ok(
            LayerCacheSpec::Kv {
                layout: kv,
                num_kv_heads: cfg.num_kv_heads,
                head_dim: cfg.head_dim,
                max_tokens: cfg.context_length,
            },
        )
    }
}

fn state_bytes_of(v_heads: usize, head_k: usize, head_v: usize) -> (r: usize)
    requires
        state_size(v_heads as nat, head_k as nat, head_v as nat) <= usize::MAX,
    ensures
        r == state_size(v_heads as nat, head_k as nat, head_v as nat),
{
    if v_heads == 0 || head_k == 0 || head_v == 0 {
        proof {
            assert(v_heads as nat * head_k as nat * head_v as nat * 4 == 0) by (nonlinear_arith)
                requires
                    v_heads == 0 || head_k == 0 || head_v == 0,
            ;
        }
        return 0;
    }
    proof {
        let a = v_heads as int * head_k as int;
        assert(a <= a * head_v) by (nonlinear_arith)
            requires
                a >= 0,
                head_v >= 1,
        ;
        assert(0 <= a) by (nonlinear_arith)
            requires
                a == v_heads as int * head_k as int,
        ;
    }
    v_heads * head_k * head_v * 4
}

fn conv_bytes_of(kernel: usize, channels: usize) -> (r: usize)
    requires
        kernel > 0,
        conv_size(kernel as nat, channels as nat) <= usize::MAX,
    ensures
        r == conv_size(kernel as nat, channels as nat),
{
    (kernel - 1) * channels * 4
}

/// What to allocate for the cache of layer `il` on a single device.
pub fn alloc_layer_cache(cfg: &Qwen3MoEConfig, il: usize, kv: KvLayout) -> (r: Result<
    LayerCacheSpec,
    SessionError,
>)
    requires
        cfg.spec_is_recurrent(il as nat) ==> gdn_sane(cfg),
    ensures
        r == cache_spec(cfg, il as nat, kv),
{
    if cfg.is_recurrent(il) {
        match cfg.gdn {
            None => Err(SessionError::MissingGdn),
            Some(g) => {
                let head_v: usize = g.head_v_dim();
                let channels: usize = g.conv_channels();
                let state_bytes: usize = state_bytes_of(g.num_v_heads, g.head_k_dim, head_v);
                let conv_history_bytes: usize = conv_bytes_of(g.conv_kernel, channels);
                Ok(
                    LayerCacheSpec::Gdn {
                        state_bytes,
                        conv_history_bytes,
                        num_v_heads: g.num_v_heads,
                        head_k_dim: g.head_k_dim,
                        head_v_dim: head_v,
                        conv_kernel: g.conv_kernel,
                        conv_channels: channels,
                    },
                )
            },
        }
    } else {
        Ok(
            LayerCacheSpec::Kv {
                layout: kv,
                num_kv_heads: cfg.num_kv_heads,
                head_dim: cfg.head_dim,
                max_tokens: cfg.context_length,
            },
        )
    }
}

/// The cache of layer `il` on one of `world` ranks. Each rank has its share of
/// the heads; KV heads that do not divide evenly are kept whole.
pub open spec fn cache_spec_tp(
    cfg: &Qwen3MoEConfig,
    il: nat,
    world: u32,
    kq_replicated: bool,
    kv: KvLayout,
) -> Result<LayerCacheSpec, SessionError> {
    let w = world as nat;
    if world == 0 {
        Err(SessionError::WorldZero)
    } else if cfg.spec_is_recurrent(il) {
        match cfg.gdn {
            None => Err(SessionError::MissingGdn),
            Some(g) => if g.num_v_heads as nat % w != 0 {
                Err(SessionError::VHeadsIndivisible { num_v_heads: g.num_v_heads, world })
            } else if !kq_replicated && g.num_k_heads as nat % w != 0 {
                Err(SessionError::KHeadsIndivisible { num_k_heads: g.num_k_heads, world })
            } else {
                let v_heads = g.num_v_heads as nat / w;
                let k_heads = if kq_replicated {
                    g.num_k_heads as nat
                } else {
                    g.num_k_heads as nat / w
                };
                let head_v = g.spec_head_v_dim();
                let channels = v_heads * head_v + 2 * (k_heads * g.head_k_dim as nat);
                Ok(
                    LayerCacheSpec::Gdn {
                        state_bytes: state_size(v_heads, g.head_k_dim as nat, head_v) as usize,
                        conv_history_bytes: conv_size(g.conv_kernel as nat, channels) as usize,
                        num_v_heads: v_heads as usize,
                        head_k_dim: g.head_k_dim,
                        head_v_dim: head_v as usize,
                        conv_kernel: g.conv_kernel,
                        conv_channels: channels as usize,
                    },
                )
            },
        }
    } else {
        Ok(
            LayerCacheSpec::Kv {
                layout: kv,
                num_kv_heads: if cfg.num_kv_heads as nat % w == 0 {
                    (cfg.num_kv_heads as nat / w) as usize
                } else {
                    cfg.num_kv_heads
                },
                head_dim: cfg.head_dim,
                max_tokens: cfg.context_length,
            },
        )
    }
}

/// A share of the heads needs no more room than all of them.
proof fn lemma_share_fits(cfg: &Qwen3MoEConfig, world: u32, kq_replicated: bool)
    requires
        gdn_sane(cfg),
        cfg.gdn is Some,
        world > 0,
        cfg.gdn->0.num_v_heads as nat % world as nat == 0,
    ensures
        ({
            let g = cfg.gdn->0;
            let w = world as nat;
            let v = g.num_v_heads as nat / w;
            let k = if kq_replicated {
                g.num_k_heads as nat
            } else {
                g.num_k_heads as nat / w
            };
            let channels = v * g.spec_head_v_dim() + 2 * (k * g.head_k_dim as nat);
            &&& state_size(v, g.head_k_dim as nat, g.spec_head_v_dim()) <= usize::MAX
            &&& v * g.spec_head_v_dim() <= g.d_inner
            &&& k * g.head_k_dim as nat <= g.num_k_heads as nat * g.head_k_dim as nat
            &&& channels <= g.spec_conv_channels()
            &&& conv_size(g.conv_kernel as nat, channels) <= usize::MAX
        }),
{
    let g = cfg.gdn->0;
    let w = world as nat;
    let v = g.num_v_heads as nat / w;
    let k = if kq_replicated {
        g.num_k_heads as nat
    } else {
        g.num_k_heads as nat / w
    };
    let hv = g.spec_head_v_dim();
    let hk = g.head_k_dim as nat;
    lemma_exact_div(g.num_v_heads as int, w as int);
    crate::arith::lemma_div_mod_split(g.num_k_heads as int, w as int);
    crate::arith::lemma_div_mod_split(g.d_inner as int, g.num_v_heads as int);
    let nv = g.num_v_heads as nat;
    assert(v <= nv);
    assert(k <= g.num_k_heads);
    lemma_mul_mono(v as int, hk as int, nv as int, hk as int);
    lemma_mul_mono((v * hk) as int, hv as int, (nv * hk) as int, hv as int);
    lemma_mul_mono(v as int, hv as int, nv as int, hv as int);
    assert(nv * hv == hv * nv) by (nonlinear_arith);
    lemma_mul_mono(k as int, hk as int, g.num_k_heads as int, hk as int);
    let channels = v * hv + 2 * (k * hk);
    let km = (g.conv_kernel - 1) as nat;
    lemma_mul_mono(km as int, channels as int, km as int, g.spec_conv_channels() as int);
}

/// What to allocate for the cache of layer `il` on one of `tp_world` ranks.
pub fn alloc_layer_cache_tp(
    cfg: &Qwen3MoEConfig,
    il: usize,
    tp_world: u32,
    gdn_kq_replicated: bool,
    kv: KvLayout,
) -> (r: Result<LayerCacheSpec, SessionError>)
    requires
        cfg.spec_is_recurrent(il as nat) && cache_spec_tp(
            cfg,
            il as nat,
            tp_world,
            gdn_kq_replicated,
            kv,
        ) is Ok ==> gdn_sane(cfg),
    ensures
        r == cache_spec_tp(cfg, il as nat, tp_world, gdn_kq_replicated, kv),
{
    if tp_world == 0 {
        return Err(SessionError::WorldZero);
    }
    let world: usize = tp_world as usize;
    if cfg.is_recurrent(il) {
        match cfg.gdn {
            None => Err(SessionError::MissingGdn),
            Some(g) => {
                if g.num_v_heads % world != 0 {
                    return Err(
                        SessionError::VHeadsIndivisible {
                            num_v_heads: g.num_v_heads,
                            world: tp_world,
                        },
                    );
                }
                if !gdn_kq_replicated && g.num_k_heads % world != 0 {
                    return Err(
                        SessionError::KHeadsIndivisible {
                            num_k_heads: g.num_k_heads,
                            world: tp_world,
                        },
                    );
                }
                proof {
                    lemma_share_fits(cfg, tp_world, gdn_kq_replicated);
                }
                let head_v: usize = g.head_v_dim();
                let v_heads: usize = g.num_v_heads / world;
                let k_heads: usize = if gdn_kq_replicated {
                    g.num_k_heads
                } else {
                    g.num_k_heads / world
                };
                let state_bytes: usize = state_bytes_of(v_heads, g.head_k_dim, head_v);
                let d_inner: usize = v_heads * head_v;
                let qk: usize = k_heads * g.head_k_dim;
                let channels: usize = d_inner + 2 * qk;
                let conv_history_bytes: usize = conv_bytes_of(g.conv_kernel, channels);
                Ok(
                    LayerCacheSpec::Gdn {
                        state_bytes,
                        conv_history_bytes,
                        num_v_heads: v_heads,
                        head_k_dim: g.head_k_dim,
                        head_v_dim: head_v,
                        conv_kernel: g.conv_kernel,
                        conv_channels: channels,
                    },
                )
            },
        }
    } else {
        let heads: usize = if cfg.num_kv_heads % world == 0 {
            cfg.num_kv_heads / world
        } else {
            cfg.num_kv_heads
        };
        Ok(
            LayerCacheSpec::Kv {
                layout: kv,
                num_kv_heads: heads,
                head_dim: cfg.head_dim,
                max_tokens: cfg.context_length,
            },
        )
    }
}

/// The ranks' caches of a recurrent layer hold together what the cache of a
/// single device holds, where the K heads are split too and the inner width
/// splits evenly into V heads.
pub proof fn law_shares_cover_recurrent(
    cfg: &Qwen3MoEConfig,
    il: nat,
    world: u32,
    kv: KvLayout,
)
    requires
        gdn_sane(cfg),
        cfg.spec_is_recurrent(il),
        cache_spec_tp(cfg, il, world, false, kv) is Ok,
        cfg.gdn->0.d_inner as nat % cfg.gdn->0.num_v_heads as nat == 0,
    ensures
        cache_spec(cfg, il, kv) is Ok,
        ({
            let part = cache_spec_tp(cfg, il, world, false, kv)->Ok_0;
            let whole = cache_spec(cfg, il, kv)->Ok_0;
            &&& part->state_bytes * world == whole->state_bytes
            &&& part->conv_history_bytes * world == whole->conv_history_bytes
            &&& part->num_v_heads * world == whole->num_v_heads
            &&& part->conv_channels * world == whole->conv_channels
            &&& part->head_k_dim == whole->head_k_dim
            &&& part->head_v_dim == whole->head_v_dim
            &&& part->conv_kernel == whole->conv_kernel
        }),
{
    let g = cfg.gdn->0;
    let w = world as nat;
    let nv = g.num_v_heads as nat;
    let nk = g.num_k_heads as nat;
    let hv = g.spec_head_v_dim();
    let hk = g.head_k_dim as nat;
    let v = nv / w;
    let k = nk / w;
    let km = (g.conv_kernel - 1) as nat;
    let channels = v * hv + 2 * (k * hk);
    lemma_share_fits(cfg, world, false);
    lemma_exact_div(nv as int, w as int);
    lemma_exact_div(nk as int, w as int);
    lemma_exact_div(g.d_inner as int, nv as int);
    assert((v * hk * hv * 4) * w == nv * hk * hv * 4) by (nonlinear_arith)
        requires
            v * w == nv,
    ;
    assert(channels * w == hv * nv + 2 * (nk * hk)) by (nonlinear_arith)
        requires
            v * w == nv,
            k * w == nk,
            channels == v * hv + 2 * (k * hk),
    ;
    let all = g.spec_conv_channels();
    assert((km * channels * 4) * w == km * all * 4) by (nonlinear_arith)
        requires
            channels * w == all,
    ;
    crate::arith::lemma_div_mod_split(g.d_inner as int, nv as int);
}

/// The KV heads of an attention layer are split evenly over the ranks where
/// they can be, and otherwise every rank keeps them all.
pub proof fn law_shares_cover_attention(
    cfg: &Qwen3MoEConfig,
    il: nat,
    world: u32,
    kq_replicated: bool,
    kv: KvLayout,
)
    requires
        world > 0,
        !cfg.spec_is_recurrent(il),
    ensures
        cache_spec_tp(cfg, il, world, kq_replicated, kv) is Ok,
        cache_spec(cfg, il, kv) is Ok,
        ({
            let part = cache_spec_tp(cfg, il, world, kq_replicated, kv)->Ok_0;
            let whole = cache_spec(cfg, il, kv)->Ok_0;
            if whole->num_kv_heads as nat % world as nat == 0 {
                part->num_kv_heads * world == whole->num_kv_heads
            } else {
                part->num_kv_heads == whole->num_kv_heads
            }
        }),
{
    if cfg.num_kv_heads as nat % world as nat == 0 {
        lemma_exact_div(cfg.num_kv_heads as int, world as int);
    }
}

/// Bytes of several caches together.
pub open spec fn caches_bytes(caches: Seq<LayerCache>) -> nat {
    sum(cache_sizes(caches))
}

/// The bytes of each cache.
pub open spec fn cache_sizes(caches: Seq<LayerCache>) -> Seq<nat> {
    Seq::new(caches.len(), |i: int| caches[i].spec_bytes())
}

/// Bytes of several caches together.
pub fn total_cache_bytes(caches: &Vec<LayerCache>) -> (r: usize)
    requires
        caches_bytes(caches@) <= usize::MAX,
    ensures
        r == caches_bytes(caches@),
{
    let mut total: usize = 0;
    let mut i: usize = 0;
    let ghost sizes = cache_sizes(caches@);
    proof {
        assert(sizes.take(0) =~= Seq::<nat>::empty());
    }
    while i < caches.len()
        invariant
            i <= caches@.len(),
            sizes == cache_sizes(caches@),
            total == sum(sizes.take(i as int)),
            sum(sizes) <= usize::MAX,
        decreases caches@.len() - i,
    {
        proof {
            lemma_sum_step(sizes, i as int);
            lemma_sum_prefix(sizes, i as int + 1);
        }
        total = total + caches[i].bytes();
        i = i + 1;
    }
    proof {
        assert(sizes.take(sizes.len() as int) =~= sizes);
    }
    total
}

/// Some cache holds quantised K and V.
pub open spec fn any_q8(caches: Seq<LayerCache>) -> bool {
    exists|i: int| 0 <= i < caches.len() && (#[trigger] caches[i]) is FullAttnQ8
}

/// Whether some cache holds quantised K and V.
pub fn has_q8(caches: &Vec<LayerCache>) -> (r: bool)
    ensures
        r == any_q8(caches@),
{
    let mut i: usize = 0;
    while i < caches.len()
        invariant
            i <= caches@.len(),
            forall|j: int| 0 <= j < i ==> !((#[trigger] caches@[j]) is FullAttnQ8),
        decreases caches@.len() - i,
    {
        if let LayerCache::FullAttnQ8(_) = caches[i] {
            proof {
                assert(caches@[i as int] is FullAttnQ8);
            }
            return true;
        }
        i = i + 1;
    }
    false
}

/// The first cache that holds fewer than `n_remove` tokens.
pub open spec fn first_stuck(caches: Seq<LayerCache>, n_remove: nat, n: nat) -> Option<nat>
    decreases n,
{
    if n == 0 {
        None
    } else {
        match first_stuck(caches, n_remove, (n - 1) as nat) {
            Some(i) => Some(i),
            None => if caches[n - 1].can_roll_back(n_remove) {
                None
            } else {
                Some((n - 1) as nat)
            },
        }
    }
}

/// The caches after `n_remove` tokens were taken back from the first `n`.
pub open spec fn rolled_back_upto(caches: Seq<LayerCache>, n_remove: nat, n: nat) -> Seq<
    LayerCache,
> {
    Seq::new(
        caches.len(),
        |i: int|
            if i < n {
                caches[i].rolled_back(n_remove)
            } else {
                caches[i]
            },
    )
}

proof fn lemma_first_stuck_stays(caches: Seq<LayerCache>, n_remove: nat, n: nat, m: nat)
    requires
        n <= m,
        first_stuck(caches, n_remove, n) is Some,
    ensures
        first_stuck(caches, n_remove, m) == first_stuck(caches, n_remove, n),
    decreases m,
{
    if n < m {
        lemma_first_stuck_stays(caches, n_remove, n, (m - 1) as nat);
    }
}

/// Takes `n_remove` tokens back from each cache in turn. Stops at the first
/// cache that holds fewer; the caches before it have then been cut already.
/// The error names that cache and the number of its tokens.
pub fn rollback_caches(caches: &mut Vec<LayerCache>, n_remove: usize) -> (r: Result<
    (),
    (usize, usize),
>)
    ensures
        match first_stuck(old(caches)@, n_remove as nat, old(caches)@.len()) {
            None => r is Ok && final(caches)@ == rolled_back_upto(
                old(caches)@,
                n_remove as nat,
                old(caches)@.len(),
            ),
            Some(k) => r == Err::<(), (usize, usize)>(
                (k as usize, old(caches)@[k as int].tokens() as usize),
            ) && final(caches)@ == rolled_back_upto(old(caches)@, n_remove as nat, k),
        },
{
    let mut i: usize = 0;
    let ghost before = caches@;
    proof {
        assert(rolled_back_upto(before, n_remove as nat, 0) =~= before);
    }
    while i < caches.len()
        invariant
            i <= caches@.len(),
            before == old(caches)@,
            before.len() == caches@.len(),
            first_stuck(before, n_remove as nat, i as nat) is None,
            caches@ == rolled_back_upto(before, n_remove as nat, i as nat),
        decreases caches@.len() - i,
    {
        let mut c: LayerCache = caches[i];
        let ghost c0 = c;
        proof {
            assert(c0 == before[i as int]);
        }
        match c.rollback(n_remove) {
            Ok(_) => {
                caches.set(i, c);
                proof {
                    assert(caches@ =~= rolled_back_upto(before, n_remove as nat, (i + 1) as nat));
                }
                i = i + 1;
            },
            Err(e) => {
                proof {
                    assert(first_stuck(before, n_remove as nat, (i + 1) as nat) == Some(i as nat));
                    lemma_first_stuck_stays(
                        before,
                        n_remove as nat,
                        (i + 1) as nat,
                        before.len(),
                    );
                }
                if let SessionError::RollbackTooFar { n_remove: _, current } = e {
                    return Err((i, current));
                }
                return Err((i, 0));
            },
        }
    }
    Ok(())
}

/// The state of one sequence on a single device, one cache for each layer.
#[derive(Debug)]
pub struct Qwen3MoESession {
    pub caches: Vec<LayerCache>,
    pub device_id: i32,
    pub disposed: bool,
}

/// The first `n` layers.
pub open spec fn first_layers(n: nat) -> Seq<usize> {
    Seq::new(n, |i: int| i as usize)
}

fn list_layers(n: usize) -> (v: Vec<usize>)
    ensures
        v@ == first_layers(n as nat),
{
    let mut v: Vec<usize> = Vec::new();
    let mut i: usize = 0;
    while i < n
        invariant
            i <= n,
            v@.len() == i,
            forall|j: int| 0 <= j < i ==> #[trigger] v@[j] == j as usize,
        decreases n - i,
    {
        v.push(i);
        i = i + 1;
    }
    proof {
        assert(v@ =~= first_layers(n as nat));
    }
    v
}

impl Qwen3MoESession {
    /// A session on the buffers `placed`, one entry for each layer. `out` gets
    /// what fills the recurrent layers with zeros.
    pub fn new(
        cfg: &Qwen3MoEConfig,
        kv: KvLayout,
        placed: &Vec<PlacedCache>,
        device_id: i32,
        out: &mut Vec<StateOp>,
    ) -> (res: Result<Self, SessionError>)
        requires
            gdn_sane(cfg),
            placed@.len() >= cfg.num_layers,
        ensures
            ({
                let run = place_run(*cfg, kv, first_layers(cfg.num_layers as nat), placed@);
                match res {
                    Ok(s) => {
                        &&& run.err is None
                        &&& s.caches@ == run.ops
                        &&& s.device_id == device_id
                        &&& !s.disposed
                        &&& final(out)@ == old(out)@ + reset_rank_ops(0, s.caches@)
                    },
                    Err(e) => run.err == Some(e) && final(out)@ == old(out)@,
                }
            }),
    {
        let layers = list_layers(cfg.num_layers);
        match place_layers(cfg, kv, &layers, placed) {
            Ok(caches) => {
                start_rank(0, &caches, out);
                Ok(Qwen3MoESession { caches, device_id, disposed: false })
            },
            Err(e) => Err(e),
        }
    }

    pub fn device_id(&self) -> (r: i32)
        ensures
            r == self.device_id,
    {
        self.device_id
    }

    /// Whether some layer keeps quantised K and V.
    pub fn is_q8_kv(&self) -> (r: bool)
        ensures
            r == any_q8(self.caches@),
    {
        has_q8(&self.caches)
    }

    /// Bytes of all caches.
    pub fn total_bytes(&self) -> (r: usize)
        requires
            caches_bytes(self.caches@) <= usize::MAX,
        ensures
            r == caches_bytes(self.caches@),
    {
        total_cache_bytes(&self.caches)
    }

    pub fn layers(&self) -> (r: &Vec<LayerCache>)
        ensures
            *r == self.caches,
    {
        &self.caches
    }

    pub fn layers_mut(&mut self) -> (r: &mut Vec<LayerCache>)
        ensures
            *r == old(self).caches,
            *final(self) == (Qwen3MoESession { caches: *final(r), ..*old(self) }),
    {
        &mut self.caches
    }

    /// Saves the recurrent layers. `fresh` has buffers for those that were
    /// never saved.
    pub fn save_gdn_snapshot(&mut self, fresh: &Vec<SnapshotPtrs>, out: &mut Vec<StateOp>)
        requires
            fresh@.len() >= old(self).caches@.len(),
        ensures
            final(self).caches@ == with_snapshots(old(self).caches@, fresh@),
            final(self).device_id == old(self).device_id,
            final(self).disposed == old(self).disposed,
            final(out)@ == old(out)@ + save_all_ops(0, final(self).caches@),
    {
        save_caches(0, &mut self.caches, fresh, out);
    }

    /// Restores the recurrent layers, as far as there are snapshots.
    pub fn restore_gdn_snapshot(&self, out: &mut Vec<StateOp>) -> (res: Result<(), SessionError>)
        ensures
            ran(old(out)@, final(out)@, res, restore_run(Site::Single, 0, self.caches@)),
    {
        restore_caches(Site::Single, 0, &self.caches, out)
    }

    /// Takes `n_remove` tokens back from every full-attention layer. Stops at
    /// the first that holds fewer.
    pub fn rollback_full_attn(&mut self, n_remove: usize) -> (res: Result<(), SessionError>)
        ensures
            final(self).device_id == old(self).device_id,
            final(self).disposed == old(self).disposed,
            final(self).caches@ == rolled(Site::Single, 0, old(self).caches@, n_remove).0,
            match res {
                Ok(_) => rolled(Site::Single, 0, old(self).caches@, n_remove).1 is None,
                Err(e) => rolled(Site::Single, 0, old(self).caches@, n_remove).1 == Some(e),
            },
    {
        roll_caches(Site::Single, 0, &mut self.caches, n_remove)
    }

    /// Lists the allocations to give back, once.
    pub fn dispose(&mut self) -> (v: Vec<Free>)
        ensures
            v@ == (if old(self).disposed {
                seq![]
            } else {
                caches_frees(old(self).caches@)
            }),
            final(self).disposed,
            final(self).device_id == old(self).device_id,
            final(self).caches@ == (if old(self).disposed {
                old(self).caches@
            } else {
                seq![]
            }),
    {
        if self.disposed {
            return Vec::new();
        }
        self.disposed = true;
        let v = list_frees(&self.caches);
        self.caches = Vec::new();
        v
    }
}

} // verus!
