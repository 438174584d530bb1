//! Putting models together from tensors that are on their devices.

use crate::assignment::{dealt, law_layers_dealt_once, owned_layers, LayerAssignment};
use crate::config::Qwen3MoEConfig;
use crate::device::RankId;
use crate::layout::{LayerDescriptor, ModelLayout};
use crate::load_error::LoadError;
use crate::plan::{flat, lemma_flat_same, ran};
use crate::sharded::{Qwen3MoERankShard, Qwen3MoEShardedModel};
use crate::upload::{
    embeds, fused_ok, items_fit, items_run, layer_fits, layer_items, layer_on_device,
    layer_weights, lemma_layers_weigh, lemma_weigh_concat, list_model, list_rank, model_items,
    on_device, opt_fits, opt_item, opt_on_device, is_on_device, plan_items, rank_items, sizes_fit,
    splits_counted, weigh, weights, Item, PlacedTensor, Policy, Rule, Upload,
};
use crate::weights::{
    bytes_of, lemma_bytes_concat, opt_list, sizes_of, DeviceTensor, LayerWeights, ModelWeights,
};
use vstd::multiset::Multiset;
use vstd::prelude::*;
use vstd::seq_lib::lemma_multiset_commutative;

verus! {

/// Every tensor of the model fits the machine.
pub open spec fn layout_fits(layout: &ModelLayout) -> bool {
    &&& sizes_fit(layout.token_embd)
    &&& sizes_fit(layout.output_norm)
    &&& opt_fits(layout.output)
    &&& forall|i: int| 0 <= i < layout.layers@.len() ==> layer_fits(#[trigger] &layout.layers@[i])
}

/// Fused tensors that are taken apart are such.
pub open spec fn layout_splits(layout: &ModelLayout, policy: Policy) -> bool {
    forall|i: int|
        0 <= i < layout.layers@.len() ==> fused_ok(&(#[trigger] layout.layers@[i]).attn, policy)
}

fn opt_tensor(
    r: &Option<crate::layout::ResolvedTensor>,
    rule: Rule,
    placed: &Vec<PlacedTensor>,
) -> (d: Option<DeviceTensor>)
    requires
        opt_fits(*r),
    ensures
        opt_on_device(d, *r, rule, placed@),
{
    match r {
        Some(r) => Some(on_device(r, rule, placed)),
        None => None,
    }
}

proof fn lemma_opt_bytes(
    d: Option<DeviceTensor>,
    r: Option<crate::layout::ResolvedTensor>,
    rule: Rule,
    placed: Seq<PlacedTensor>,
)
    requires
        opt_on_device(d, r, rule, placed),
        rule != Rule::Split,
    ensures
        bytes_of(opt_list(d)) == weigh(opt_item(&r, rule)),
{
    assert(sizes_of(opt_list(d)) =~= weights(opt_item(&r, rule)));
}

/// The layers `which` of a model, each on the device.
pub open spec fn layers_on_device(
    ws: Seq<LayerWeights>,
    ls: Seq<LayerDescriptor>,
    which: Seq<usize>,
    policy: Policy,
    placed: Seq<PlacedTensor>,
) -> bool {
    &&& ws.len() == which.len()
    &&& forall|i: int|
        0 <= i < which.len() ==> layer_on_device(
            #[trigger] &ws[i],
            &ls[which[i] as int],
            policy,
            placed,
        )
}

fn gather_layers(
    ls: &Vec<LayerDescriptor>,
    which: &Vec<usize>,
    policy: Policy,
    placed: &Vec<PlacedTensor>,
) -> (ws: Vec<LayerWeights>)
    requires
        forall|i: int| 0 <= i < which@.len() ==> #[trigger] which@[i] < ls@.len(),
        forall|i: int| 0 <= i < ls@.len() ==> layer_fits(#[trigger] &ls@[i]),
        forall|i: int| 0 <= i < ls@.len() ==> fused_ok(&(#[trigger] ls@[i]).attn, policy),
    ensures
        layers_on_device(ws@, ls@, which@, policy, placed@),
{
    let mut ws: Vec<LayerWeights> = Vec::new();
    let mut i: usize = 0;
    while i < which.len()
        invariant
            i <= which@.len(),
            ws@.len() == i,
            forall|i: int| 0 <= i < which@.len() ==> #[trigger] which@[i] < ls@.len(),
            forall|i: int| 0 <= i < ls@.len() ==> layer_fits(#[trigger] &ls@[i]),
            forall|i: int| 0 <= i < ls@.len() ==> fused_ok(&(#[trigger] ls@[i]).attn, policy),
            forall|j: int|
                0 <= j < i ==> layer_on_device(
                    #[trigger] &ws@[j],
                    &ls@[which@[j] as int],
                    policy,
                    placed@,
                ),
        decreases which@.len() - i,
    {
        let il: usize = which[i];
        assert(fused_ok(&ls@[il as int].attn, policy));
        ws.push(layer_weights(&ls[il], policy, placed));
        i = i + 1;
    }
    ws
}

/// All indices below `n`.
pub open spec fn indices(n: nat) -> Seq<usize> {
    Seq::new(n, |i: int| i as usize)
}

fn all_indices(n: usize) -> (v: Vec<usize>)
    ensures
        v@ == indices(n as nat),
{
    let mut v: Vec<usize> = Vec::new();
    let mut i: usize = 0;
    while i < n
        invariant
            i <= n,
            v@ == indices(i as nat),
        decreases n - i,
    {
        v.push(i);
        proof {
            assert(v@ =~= indices((i + 1) as nat));
        }
        i = i + 1;
    }
    v
}

proof fn lemma_gathered_weigh(
    ws: Seq<LayerWeights>,
    ls: Seq<LayerDescriptor>,
    which: Seq<usize>,
    policy: Policy,
    placed: Seq<PlacedTensor>,
)
    requires
        layers_on_device(ws, ls, which, policy, placed),
        forall|i: int| 0 <= i < which.len() ==> #[trigger] which[i] < ls.len(),
        forall|i: int| 0 <= i < ls.len() ==> layer_fits(#[trigger] &ls[i]),
    ensures
        bytes_of(flat(ws.len(), |i: int| ws[i].tensors())) == weigh(
            flat(which.len(), |i: int| layer_items(&ls[which[i] as int], policy)),
        ),
{
    let idx = Seq::new(which.len(), |i: int| which[i] as int);
    assert forall|i: int| 0 <= i < ws.len() implies layer_on_device(
        #[trigger] &ws[i],
        &ls[idx[i]],
        policy,
        placed,
    ) && layer_fits(&ls[idx[i]]) by {
        assert(which[i] < ls.len());
        assert(idx[i] == which[i]);
        assert(layer_fits(&ls[which[i] as int]));
    }
    lemma_layers_weigh(ws, ls, idx, policy, placed, ws.len());
    lemma_flat_same(
        which.len(),
        |i: int| layer_items(&ls[idx[i]], policy),
        |i: int| layer_items(&ls[which[i] as int], policy),
    );
}

impl ModelWeights {
    /// Lists the uploads of a model that keeps the types of the file. `haves`
    /// are the bytes that the file holds of each tensor, in the order of
    /// `list_model`.
    pub fn plan_upload(
        layout: &ModelLayout,
        haves: &Vec<usize>,
        cfg: &Qwen3MoEConfig,
        out: &mut Vec<Upload>,
    ) -> (res: Result<(), LoadError>)
        requires
            items_fit(model_items(layout)),
            haves@.len() == model_items(layout).len(),
            splits_counted(model_items(layout), cfg),
        ensures
            ran(old(out)@, final(out)@, res, items_run(model_items(layout), haves@, cfg)),
    {
        let items = list_model(layout);
        plan_items(&items, haves, cfg, out)
    }

    /// The weights of a model whose tensors went to the device unchanged.
    pub fn upload(layout: &ModelLayout, device_id: i32, placed: &Vec<PlacedTensor>) -> (r: Self)
        requires
            layout_fits(layout),
            weigh(model_items(layout)) <= usize::MAX,
        ensures
            r.device_id == device_id,
            is_on_device(r.token_embd, layout.token_embd, Rule::AsStored, placed@),
            is_on_device(r.output_norm, layout.output_norm, Rule::AsStored, placed@),
            opt_on_device(r.output, layout.output, Rule::AsStored, placed@),
            layers_on_device(
                r.layers@,
                layout.layers@,
                indices(layout.layers@.len()),
                Policy::Verbatim,
                placed@,
            ),
            r.total_bytes == weigh(model_items(layout)),
            !r.disposed,
    {
        let token_embd = on_device(&layout.token_embd, Rule::AsStored, placed);
        let output_norm = on_device(&layout.output_norm, Rule::AsStored, placed);
        let output = opt_tensor(&layout.output, Rule::AsStored, placed);
        let which = all_indices(layout.layers.len());
        let layers = gather_layers(&layout.layers, &which, Policy::Verbatim, placed);
        proof {
            let ls = layout.layers@;
            let ws = layers@;
            let head = seq![token_embd, output_norm];
            let i_head = seq![
                Item { tensor: &layout.token_embd, rule: Rule::AsStored },
                Item { tensor: &layout.output_norm, rule: Rule::AsStored },
            ];
            let i_out = opt_item(&layout.output, Rule::AsStored);
            assert(sizes_of(head) =~= weights(i_head));
            lemma_opt_bytes(output, layout.output, Rule::AsStored, placed@);
            lemma_bytes_concat(head, opt_list(output));
            lemma_weigh_concat(i_head, i_out);
            lemma_gathered_weigh(ws, ls, which@, Policy::Verbatim, placed@);
            let f = |i: int| ws[i].tensors();
            let g = |i: int| layer_items(&ls[which@[i] as int], Policy::Verbatim);
            let h = |i: int| layer_items(&layout.layers@[i], Policy::Verbatim);
            lemma_flat_same(ls.len(), g, h);
            lemma_bytes_concat(head + opt_list(output), flat(ws.len(), f));
            lemma_weigh_concat(i_head + i_out, flat(ls.len(), h));
        }
        ModelWeights::from_parts(device_id, token_embd, output_norm, output, layers)
    }
}

/// The tensor is there exactly if it is due.
pub open spec fn due_on_device(
    d: Option<DeviceTensor>,
    due: bool,
    r: crate::layout::ResolvedTensor,
    rule: Rule,
    placed: Seq<PlacedTensor>,
) -> bool {
    if due {
        d is Some && is_on_device(d->0, r, rule, placed)
    } else {
        d is None
    }
}

/// What a pipeline rank holds: its layers, the embedding where it embeds or
/// has a tied head, and on the last rank the output norm and head.
pub open spec fn shard_loaded(
    s: &Qwen3MoERankShard,
    layout: &ModelLayout,
    cfg: &Qwen3MoEConfig,
    a: &LayerAssignment,
    rank: u32,
    placed: Seq<PlacedTensor>,
) -> bool {
    let owned = owned_layers(a.rank_of@, rank, a.rank_of@.len());
    let first = rank == 0;
    let last = rank + 1 == a.ranks;
    &&& s.rank == RankId(rank)
    &&& due_on_device(
        s.token_embd,
        embeds(cfg, first, last),
        layout.token_embd,
        Rule::Raw,
        placed,
    )
    &&& due_on_device(s.output_norm, last, layout.output_norm, Rule::Half, placed)
    &&& if last {
        opt_on_device(s.output, layout.output, Rule::Raw, placed)
    } else {
        s.output is None
    }
    &&& layers_on_device(s.layers@, layout.layers@, owned, Policy::ForKernels, placed)
    &&& s.total_bytes == rank_weight(layout, cfg, a, rank)
    &&& !s.disposed
}

/// Bytes of a pipeline rank on its device.
pub open spec fn rank_weight(
    layout: &ModelLayout,
    cfg: &Qwen3MoEConfig,
    a: &LayerAssignment,
    rank: u32,
) -> nat {
    weigh(
        rank_items(
            layout,
            cfg,
            owned_layers(a.rank_of@, rank, a.rank_of@.len()),
            rank == 0,
            rank + 1 == a.ranks,
        ),
    )
}

proof fn lemma_owned_below(rank_of: Seq<u32>, rank: u32, n: nat)
    requires
        n <= rank_of.len(),
        rank_of.len() <= usize::MAX,
    ensures
        forall|i: int|
            0 <= i < owned_layers(rank_of, rank, n).len() ==> #[trigger] owned_layers(
                rank_of,
                rank,
                n,
            )[i] < n,
    decreases n,
{
    if n > 0 {
        lemma_owned_below(rank_of, rank, (n - 1) as nat);
        assert forall|i: int| 0 <= i < owned_layers(rank_of, rank, n).len() implies
            #[trigger] owned_layers(rank_of, rank, n)[i] < n by {
            let before = owned_layers(rank_of, rank, (n - 1) as nat);
            if i < before.len() {
                assert(before[i] < n - 1);
            }
        }
    }
}

/// The error of a load whose assignment does not match the model or the cluster.
pub open spec fn load_mismatch(cfg: &Qwen3MoEConfig, a: &LayerAssignment, ranks: nat) -> Option<
    LoadError,
> {
    if a.rank_of@.len() != cfg.num_layers {
        Some(
            LoadError::AssignedLayers { have: a.rank_of@.len() as usize, want: cfg.num_layers },
        )
    } else if a.ranks != ranks {
        Some(LoadError::AssignedRanks { have: a.ranks, ranks: ranks as usize })
    } else {
        None
    }
}

impl Qwen3MoEShardedModel {
    /// Whether the assignment is for that model on that many ranks.
    pub fn check_assignment(cfg: &Qwen3MoEConfig, a: &LayerAssignment, ranks: usize) -> (res:
        Result<(), LoadError>)
        ensures
            res == (match load_mismatch(cfg, a, ranks as nat) {
                Some(e) => Err::<(), LoadError>(e),
                None => Ok(()),
            }),
    {
        if a.num_layers() != cfg.num_layers {
            return Err(LoadError::AssignedLayers { have: a.num_layers(), want: cfg.num_layers });
        }
        if a.num_ranks() as u64 != ranks as u64 {
            return Err(LoadError::AssignedRanks { have: a.num_ranks(), ranks });
        }
        Ok(())
    }

    /// Lists the uploads of a rank. `haves` are the bytes that the file holds
    /// of each tensor, in the order of `list_rank`.
    pub fn plan_rank(
        layout: &ModelLayout,
        cfg: &Qwen3MoEConfig,
        a: &LayerAssignment,
        rank: u32,
        haves: &Vec<usize>,
        out: &mut Vec<Upload>,
    ) -> (res: Result<(), LoadError>)
        requires
            a.rank_of@.len() == layout.layers@.len(),
            ({
                let owned = owned_layers(a.rank_of@, rank, a.rank_of@.len());
                let items = rank_items(layout, cfg, owned, rank == 0, rank + 1 == a.ranks);
                items_fit(items) && splits_counted(items, cfg) && haves@.len() == items.len()
            }),
        ensures
            ran(
                old(out)@,
                final(out)@,
                res,
                items_run(
                    rank_items(
                        layout,
                        cfg,
                        owned_layers(a.rank_of@, rank, a.rank_of@.len()),
                        rank == 0,
                        rank + 1 == a.ranks,
                    ),
                    haves@,
                    cfg,
                ),
            ),
    {
        let owned = a.layers_on(RankId(rank));
        let layers: usize = a.rank_of.len();
        proof {
            lemma_owned_below(a.rank_of@, rank, layers as nat);
            assert forall|i: int| 0 <= i < owned@.len() implies #[trigger] owned@[i]
                < layout.layers@.len() by {
                assert(owned_layers(a.rank_of@, rank, a.rank_of@.len())[i] < a.rank_of@.len());
            }
        }
        let items = list_rank(
            layout,
            cfg,
            &owned,
            a.is_first(RankId(rank)),
            a.is_last(RankId(rank)),
        );
        plan_items(&items, haves, cfg, out)
    }

    /// What a rank holds once its tensors are on its device.
    pub fn load_rank(
        layout: &ModelLayout,
        cfg: &Qwen3MoEConfig,
        a: &LayerAssignment,
        rank: u32,
        device_id: i32,
        placed: &Vec<PlacedTensor>,
    ) -> (s: Qwen3MoERankShard)
        requires
            a.rank_of@.len() == layout.layers@.len(),
            layout_fits(layout),
            layout_splits(layout, Policy::ForKernels),
            rank_weight(layout, cfg, a, rank) <= usize::MAX,
        ensures
            shard_loaded(&s, layout, cfg, a, rank, placed@),
            s.device_id == device_id,
    {
        let owned = a.layers_on(RankId(rank));
        let layers: usize = a.rank_of.len();
        proof {
            lemma_owned_below(a.rank_of@, rank, layers as nat);
            assert forall|i: int| 0 <= i < owned@.len() implies #[trigger] owned@[i]
                < layout.layers@.len() by {
                assert(owned_layers(a.rank_of@, rank, a.rank_of@.len())[i] < a.rank_of@.len());
            }
        }
        let first = a.is_first(RankId(rank));
        let last = a.is_last(RankId(rank));
        let layers = gather_layers(&layout.layers, &owned, Policy::ForKernels, placed);
        let token_embd = if first || (last && cfg.tied_lm_head) {
            Some(on_device(&layout.token_embd, Rule::Raw, placed))
        } else {
            None
        };
        let output_norm = if last {
            Some(on_device(&layout.output_norm, Rule::Half, placed))
        } else {
            None
        };
        let output = if last {
            opt_tensor(&layout.output, Rule::Raw, placed)
        } else {
            None
        };
        proof {
            let ls = layout.layers@;
            let ws = layers@;
            lemma_gathered_weigh(ws, ls, owned@, Policy::ForKernels, placed@);
            let f = |i: int| ws[i].tensors();
            let g = |i: int| layer_items(&ls[owned@[i] as int], Policy::ForKernels);
            let e: Seq<Item> = if embeds(cfg, first, last) {
                seq![Item { tensor: &layout.token_embd, rule: Rule::Raw }]
            } else {
                seq![]
            };
            let n: Seq<Item> = if last {
                seq![Item { tensor: &layout.output_norm, rule: Rule::Half }]
            } else {
                seq![]
            };
            let o: Seq<Item> = if last {
                opt_item(&layout.output, Rule::Raw)
            } else {
                seq![]
            };
            assert(sizes_of(opt_list(token_embd)) =~= weights(e));
            assert(sizes_of(opt_list(output_norm)) =~= weights(n));
            if last {
                lemma_opt_bytes(output, layout.output, Rule::Raw, placed@);
            } else {
                assert(sizes_of(opt_list(output)) =~= weights(o));
            }
            let l = flat(owned@.len(), g);
            lemma_weigh_concat(l + e + n, o);
            lemma_weigh_concat(l + e, n);
            lemma_weigh_concat(l, e);
            let (dt, dn, dh) = (opt_list(token_embd), opt_list(output_norm), opt_list(output));
            lemma_bytes_concat(dt + dn + dh, flat(ws.len(), f));
            lemma_bytes_concat(dt + dn, dh);
            lemma_bytes_concat(dt, dn);
            assert(bytes_of(dt) == weigh(e));
            assert(bytes_of(dn) == weigh(n));
            assert(bytes_of(dh) == weigh(o));
            assert(rank_items(layout, cfg, owned@, first, last) == l + e + n + o);
        }
        Qwen3MoEShardedModel::new_shard(
            RankId(rank),
            device_id,
            token_embd,
            output_norm,
            output,
            layers,
        )
    }

    /// The model whose tensors are on the devices of a cluster: rank `r` has
    /// device `device_ids[r]`, and `placed[r]` says where its tensors went.
    pub fn load(
        config: Qwen3MoEConfig,
        layout: ModelLayout,
        assignment: LayerAssignment,
        device_ids: &Vec<i32>,
        placed: &Vec<Vec<PlacedTensor>>,
    ) -> (res: Result<Self, LoadError>)
        requires
            layout.layers@.len() == config.num_layers,
            placed@.len() == device_ids@.len(),
            layout_fits(&layout),
            layout_splits(&layout, Policy::ForKernels),
            forall|r: u32|
                r < device_ids@.len() ==> #[trigger] rank_weight(&layout, &config, &assignment, r)
                    <= usize::MAX,
        ensures
            match load_mismatch(&config, &assignment, device_ids@.len()) {
                Some(e) => res == Err::<Self, LoadError>(e),
                None => res is Ok && ({
                    let m = res->Ok_0;
                    &&& m.config == config
                    &&& m.layout == layout
                    &&& m.assignment == assignment
                    &&& m.shards@.len() == device_ids@.len()
                    &&& forall|r: int|
                        0 <= r < device_ids@.len() ==> shard_loaded(
                            #[trigger] &m.shards@[r],
                            &layout,
                            &config,
                            &assignment,
                            r as u32,
                            placed@[r]@,
                        ) && m.shards@[r].device_id == device_ids@[r]
                }),
            },
    {
        match Qwen3MoEShardedModel::check_assignment(&config, &assignment, device_ids.len()) {
            Ok(_) => {},
            Err(e) => return Err(e),
        }
        let mut shards: Vec<Qwen3MoERankShard> = Vec::new();
        let mut r: u32 = 0;
        let n: u32 = assignment.num_ranks();
        while r < n
            invariant
                r <= n,
                n == assignment.ranks,
                n == device_ids@.len(),
                placed@.len() == device_ids@.len(),
                assignment.rank_of@.len() == layout.layers@.len(),
                layout_fits(&layout),
                layout_splits(&layout, Policy::ForKernels),
                forall|r: u32|
                    r < device_ids@.len() ==> #[trigger] rank_weight(
                        &layout,
                        &config,
                        &assignment,
                        r,
                    ) <= usize::MAX,
                shards@.len() == r,
                forall|k: int|
                    0 <= k < r ==> shard_loaded(
                        #[trigger] &shards@[k],
                        &layout,
                        &config,
                        &assignment,
                        k as u32,
                        placed@[k]@,
                    ) && shards@[k].device_id == device_ids@[k],
            decreases n - r,
        {
            proof {
                assert(rank_weight(&layout, &config, &assignment, r) <= usize::MAX);
            }
            shards.push(
                Qwen3MoEShardedModel::load_rank(
                    &layout,
                    &config,
                    &assignment,
                    r,
                    device_ids[r as usize],
                    &placed[r as usize],
                ),
            );
            r = r + 1;
        }
        Ok(Qwen3MoEShardedModel { config, layout, assignment, shards })
    }
}

/// The tensors outside the layers that a pipeline rank needs.
pub open spec fn rank_globals<'a>(
    layout: &'a ModelLayout,
    cfg: &Qwen3MoEConfig,
    first: bool,
    last: bool,
) -> Seq<Item<'a>> {
    (if embeds(cfg, first, last) {
        seq![Item { tensor: &layout.token_embd, rule: Rule::Raw }]
    } else {
        seq![]
    }) + (if last {
        seq![Item { tensor: &layout.output_norm, rule: Rule::Half }] + opt_item(
            &layout.output,
            Rule::Raw,
        )
    } else {
        seq![]
    })
}

/// The tensors outside the layers that the ranks of a pipeline need together:
/// the embedding once, or twice where the last rank is another one than the
/// first and reads it as the LM head, and the rest once.
pub open spec fn pipeline_globals<'a>(
    layout: &'a ModelLayout,
    cfg: &Qwen3MoEConfig,
    ranks: u32,
) -> Seq<Item<'a>> {
    let embd = Item { tensor: &layout.token_embd, rule: Rule::Raw };
    (if ranks > 1 && cfg.tied_lm_head {
        seq![embd, embd]
    } else {
        seq![embd]
    }) + seq![Item { tensor: &layout.output_norm, rule: Rule::Half }] + opt_item(
        &layout.output,
        Rule::Raw,
    )
}

/// The tensors of rank `r` of a pipeline.
pub open spec fn items_of_rank<'a>(
    layout: &'a ModelLayout,
    cfg: &Qwen3MoEConfig,
    a: &LayerAssignment,
    r: int,
) -> Seq<Item<'a>> {
    rank_items(
        layout,
        cfg,
        owned_layers(a.rank_of@, r as u32, a.rank_of@.len()),
        r == 0,
        r + 1 == a.ranks,
    )
}

/// The first `m` ranks need their layers and their other tensors.
proof fn lemma_ranks_split(
    layout: &ModelLayout,
    cfg: &Qwen3MoEConfig,
    a: &LayerAssignment,
    m: nat,
)
    requires
        m <= a.ranks,
    ensures
        ({
            let n = a.rank_of@.len();
            let f = |il: int| layer_items(&layout.layers@[il], Policy::ForKernels);
            let layers = |r: int| dealt(a.rank_of@, n, f, r);
            let globals = |r: int| rank_globals(layout, cfg, r == 0, r + 1 == a.ranks);
            flat(m, |r: int| items_of_rank(layout, cfg, a, r)).to_multiset() == flat(
                m,
                layers,
            ).to_multiset().add(flat(m, globals).to_multiset())
        }),
    decreases m,
{
    let n = a.rank_of@.len();
    let f = |il: int| layer_items(&layout.layers@[il], Policy::ForKernels);
    let layers = |r: int| dealt(a.rank_of@, n, f, r);
    let globals = |r: int| rank_globals(layout, cfg, r == 0, r + 1 == a.ranks);
    let items = |r: int| items_of_rank(layout, cfg, a, r);
    if m == 0 {
        Seq::<Item>::empty().to_multiset_ensures();
        assert(Seq::<Item>::empty().to_multiset() =~= Multiset::empty());
        assert(flat(m, items).to_multiset() =~= flat(m, layers).to_multiset().add(
            flat(m, globals).to_multiset(),
        ));
    } else {
        let k = (m - 1) as nat;
        lemma_ranks_split(layout, cfg, a, k);
        let owned = owned_layers(a.rank_of@, k as u32, n);
        let g = |i: int| layer_items(&layout.layers@[owned[i] as int], Policy::ForKernels);
        let h = |i: int| f(owned[i] as int);
        lemma_flat_same(owned.len(), g, h);
        assert(items(k as int) =~= layers(k as int) + globals(k as int));
        lemma_multiset_commutative(flat(k, items), items(k as int));
        lemma_multiset_commutative(layers(k as int), globals(k as int));
        lemma_multiset_commutative(flat(k, layers), layers(k as int));
        lemma_multiset_commutative(flat(k, globals), globals(k as int));
        assert(flat(m, items).to_multiset() =~= flat(m, layers).to_multiset().add(
            flat(m, globals).to_multiset(),
        ));
    }
}

/// Of the ranks before the last, the first alone needs anything outside the
/// layers.
proof fn lemma_globals_before_last(
    layout: &ModelLayout,
    cfg: &Qwen3MoEConfig,
    ranks: u32,
    m: nat,
)
    requires
        m < ranks,
    ensures
        flat(m, |r: int| rank_globals(layout, cfg, r == 0, r + 1 == ranks)) == if m == 0 {
            Seq::<Item>::empty()
        } else {
            seq![Item { tensor: &layout.token_embd, rule: Rule::Raw }]
        },
    decreases m,
{
    let globals = |r: int| rank_globals(layout, cfg, r == 0, r + 1 == ranks);
    if m > 0 {
        lemma_globals_before_last(layout, cfg, ranks, (m - 1) as nat);
        assert(flat(m, globals) =~= seq![Item { tensor: &layout.token_embd, rule: Rule::Raw }]);
    }
}

/// The ranks of a pipeline together upload every layer exactly once, and what
/// they need of the rest.
pub proof fn law_ranks_upload_layers_once(
    layout: &ModelLayout,
    cfg: &Qwen3MoEConfig,
    a: &LayerAssignment,
)
    requires
        a.wf(),
        a.ranks > 0,
        a.rank_of@.len() == layout.layers@.len(),
        layout.layers@.len() <= usize::MAX,
    ensures
        flat(a.ranks as nat, |r: int| items_of_rank(layout, cfg, a, r)).to_multiset() == (flat(
            layout.layers@.len(),
            |il: int| layer_items(&layout.layers@[il], Policy::ForKernels),
        ) + pipeline_globals(layout, cfg, a.ranks)).to_multiset(),
{
    let f = |il: int| layer_items(&layout.layers@[il], Policy::ForKernels);
    let globals = |r: int| rank_globals(layout, cfg, r == 0, r + 1 == a.ranks);
    let last = (a.ranks - 1) as nat;
    lemma_ranks_split(layout, cfg, a, a.ranks as nat);
    law_layers_dealt_once(*a, f);
    lemma_globals_before_last(layout, cfg, a.ranks, last);
    assert(flat(a.ranks as nat, globals) =~= pipeline_globals(layout, cfg, a.ranks));
    lemma_multiset_commutative(
        flat(layout.layers@.len(), f),
        pipeline_globals(layout, cfg, a.ranks),
    );
}

} // verus!
