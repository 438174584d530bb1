//! A pipeline-parallel model: every rank owns some of the layers.
//!
//! The first rank holds the embedding, the last one the output norm and the LM
//! head. A tied LM head is a second copy of the embedding on the last rank.

use crate::arith::{lemma_sum_prefix, lemma_sum_step, sum};
use crate::assignment::LayerAssignment;
use crate::config::Qwen3MoEConfig;
use crate::device::{push_rank_frees, rank_frees, Free, RankFree, RankId};
use crate::layout::ModelLayout;
use crate::plan::{
    done, each, flat, lemma_each_ones, lemma_each_stops, lemma_flat_same, lemma_ran_then2, ran,
    Run,
};
use crate::session::{
    any_q8, caches_bytes, gdn_sane, has_q8, total_cache_bytes, KvLayout, LayerCache, SessionError,
};
use crate::state_ops::{
    all_cleared, caches_frees, list_frees, place_layers, place_run, rank_step, reset_rank,
    reset_rank_ops, restore_caches, restore_rank_run, restore_run, restore_session_run,
    restore_step, roll_caches, rolled, save_all_ops, save_caches, save_session_ops, start_ops,
    start_rank, with_snapshots, PlacedCache, Site, SnapshotPtrs, StateOp,
};
use crate::state_laws::{
    after_ops, fresh, is_placed, law_new_session_is_fresh, lemma_place_run_places, live_apart,
    ranks_differ, Memory,
};
use crate::weights::{
    append_refs, bytes_of, collect_live, layer_iter, layer_release_order, live_allocations,
    opt_list, push_opt, sum_bytes, targets, DeviceTensor, LayerWeights,
};
use vstd::prelude::*;

verus! {

/// The weights of one pipeline rank.
#[derive(Debug)]
pub struct Qwen3MoERankShard {
    pub rank: RankId,
    pub device_id: i32,
    /// On the first rank, and on the last where the LM head is tied.
    pub token_embd: Option<DeviceTensor>,
    /// On the last rank.
    pub output_norm: Option<DeviceTensor>,
    /// On the last rank where the LM head is not tied.
    pub output: Option<DeviceTensor>,
    /// The rank's layers, by ascending index.
    pub layers: Vec<LayerWeights>,
    pub total_bytes: usize,
    pub disposed: bool,
}

impl Qwen3MoERankShard {
    /// The tensors outside the layers.
    pub open spec fn globals(&self) -> Seq<DeviceTensor> {
        opt_list(self.token_embd) + opt_list(self.output_norm) + opt_list(self.output)
    }

    /// All tensors of the rank.
    pub open spec fn tensors(&self) -> Seq<DeviceTensor> {
        let ls = self.layers@;
        self.globals() + flat(ls.len(), |i: int| ls[i].tensors())
    }

    /// All tensors of the rank in the order of their release.
    pub open spec fn release_order(&self) -> Seq<DeviceTensor> {
        let ls = self.layers@;
        self.globals() + flat(ls.len(), |i: int| ls[i].release_order())
    }

    /// Bytes on the rank's device.
    pub fn total_bytes(&self) -> (r: usize)
        ensures
            r == self.total_bytes,
    {
        self.total_bytes
    }

    fn global_refs(&self) -> (v: Vec<&DeviceTensor>)
        ensures
            targets(v@) == self.globals(),
    {
        let mut v: Vec<&DeviceTensor> = Vec::new();
        proof {
            assert(targets(v@) =~= seq![]);
        }
        push_opt(&mut v, &self.token_embd);
        push_opt(&mut v, &self.output_norm);
        push_opt(&mut v, &self.output);
        proof {
            assert(targets(v@) =~= self.globals());
        }
        v
    }

    /// Every tensor of the rank.
    pub fn iter_tensors(&self) -> (r: Vec<&DeviceTensor>)
        ensures
            targets(r@) == self.tensors(),
    {
        let mut v = self.global_refs();
        let mut i: usize = 0;
        let ghost ls = self.layers@;
        let ghost f = |i: int| ls[i].tensors();
        proof {
            assert(targets(v@) =~= self.globals() + flat(0, f));
        }
        while i < self.layers.len()
            invariant
                i <= self.layers@.len(),
                ls == self.layers@,
                f == (|i: int| ls[i].tensors()),
                targets(v@) == self.globals() + flat(i as nat, f),
            decreases self.layers@.len() - i,
        {
            append_refs(&mut v, layer_iter(&self.layers[i]));
            proof {
                assert(targets(v@) =~= self.globals() + flat((i + 1) as nat, f));
            }
            i = i + 1;
        }
        v
    }

    /// Every tensor of the rank in the order of their release.
    pub fn iter_release_order(&self) -> (r: Vec<&DeviceTensor>)
        ensures
            targets(r@) == self.release_order(),
    {
        let mut v = self.global_refs();
        let mut i: usize = 0;
        let ghost ls = self.layers@;
        let ghost f = |i: int| ls[i].release_order();
        proof {
            assert(targets(v@) =~= self.globals() + flat(0, f));
        }
        while i < self.layers.len()
            invariant
                i <= self.layers@.len(),
                ls == self.layers@,
                f == (|i: int| ls[i].release_order()),
                targets(v@) == self.globals() + flat(i as nat, f),
            decreases self.layers@.len() - i,
        {
            append_refs(&mut v, layer_release_order(&self.layers[i]));
            proof {
                assert(targets(v@) =~= self.globals() + flat((i + 1) as nat, f));
            }
            i = i + 1;
        }
        v
    }

    /// What `dispose` gives back.
    pub open spec fn spec_frees(&self) -> Seq<Free> {
        if self.disposed {
            seq![]
        } else {
            live_allocations(self.release_order())
        }
    }

    /// Lists the allocations of the rank to give back. A second call lists none.
    pub fn dispose(&mut self) -> (r: Vec<Free>)
        ensures
            r@ == old(self).spec_frees(),
            *final(self) == (Qwen3MoERankShard { disposed: true, ..*old(self) }),
    {
        if self.disposed {
            return Vec::new();
        }
        let frees = {
            let v = self.iter_release_order();
            collect_live(&v)
        };
        self.disposed = true;
        frees
    }
}

/// A pipeline-parallel model.
#[derive(Debug)]
pub struct Qwen3MoEShardedModel {
    pub config: Qwen3MoEConfig,
    pub layout: ModelLayout,
    pub assignment: LayerAssignment,
    pub shards: Vec<Qwen3MoERankShard>,
}

impl Qwen3MoEShardedModel {
    /// A model made of ranks whose tensors are on their devices already.
    pub fn from_parts(
        config: Qwen3MoEConfig,
        layout: ModelLayout,
        assignment: LayerAssignment,
        shards: Vec<Qwen3MoERankShard>,
    ) -> (r: Self)
        ensures
            r.config == config,
            r.layout == layout,
            r.assignment == assignment,
            r.shards == shards,
    {
        Qwen3MoEShardedModel { config, layout, assignment, shards }
    }

    /// The rank made of tensors that are on its device already.
    pub fn new_shard(
        rank: RankId,
        device_id: i32,
        token_embd: Option<DeviceTensor>,
        output_norm: Option<DeviceTensor>,
        output: Option<DeviceTensor>,
        layers: Vec<LayerWeights>,
    ) -> (r: Qwen3MoERankShard)
        requires
            bytes_of(
                opt_list(token_embd) + opt_list(output_norm) + opt_list(output) + flat(
                    layers@.len(),
                    |i: int| layers@[i].tensors(),
                ),
            ) <= usize::MAX,
        ensures
            r.rank == rank,
            r.device_id == device_id,
            r.token_embd == token_embd,
            r.output_norm == output_norm,
            r.output == output,
            r.layers == layers,
            r.total_bytes == bytes_of(r.tensors()),
            !r.disposed,
    {
        let mut s = Qwen3MoERankShard {
            rank,
            device_id,
            token_embd,
            output_norm,
            output,
            layers,
            total_bytes: 0,
            disposed: false,
        };
        let total: usize = {
            let v = s.iter_tensors();
            sum_bytes(&v)
        };
        s.total_bytes = total;
        s
    }

    /// The bytes of each rank.
    pub open spec fn rank_sizes(&self) -> Seq<nat> {
        Seq::new(self.shards@.len(), |r: int| self.shards@[r].total_bytes as nat)
    }

    /// Bytes on all ranks.
    pub fn total_bytes(&self) -> (t: usize)
        requires
            sum(self.rank_sizes()) <= usize::MAX,
        ensures
            t == sum(self.rank_sizes()),
    {
        let ghost s = self.rank_sizes();
        let mut total: usize = 0;
        let mut r: usize = 0;
        proof {
            assert(s.take(0) =~= Seq::<nat>::empty());
        }
        while r < self.shards.len()
            invariant
                r <= self.shards@.len(),
                s == self.rank_sizes(),
                sum(s) <= usize::MAX,
                total == sum(s.take(r as int)),
            decreases self.shards@.len() - r,
        {
            proof {
                lemma_sum_step(s, r as int);
                lemma_sum_prefix(s, r as int + 1);
            }
            total = total + self.shards[r].total_bytes;
            r = r + 1;
        }
        proof {
            assert(s.take(s.len() as int) =~= s);
        }
        total
    }

    /// What `dispose` gives back, rank by rank.
    pub open spec fn spec_frees(&self) -> Seq<RankFree> {
        flat(
            self.shards@.len(),
            |r: int| rank_frees(self.shards@[r].rank, self.shards@[r].spec_frees()),
        )
    }

    /// Lists the allocations of every rank to give back. Nothing is left afterwards.
    pub fn dispose(&mut self) -> (v: Vec<RankFree>)
        ensures
            v@ == old(self).spec_frees(),
            final(self).shards@.len() == 0,
            *final(self) == (Qwen3MoEShardedModel {
                shards: final(self).shards,
                ..*old(self)
            }),
    {
        let ghost all = self.shards@;
        let ghost f = |r: int| rank_frees(all[r].rank, all[r].spec_frees());
        let mut v: Vec<RankFree> = Vec::new();
        let mut r: usize = 0;
        proof {
            assert(v@ =~= flat(0, f));
        }
        while r < self.shards.len()
            invariant
                r <= self.shards@.len(),
                self.shards@.len() == all.len(),
                forall|j: int| r <= j < all.len() ==> #[trigger] self.shards@[j] == all[j],
                self.config == old(self).config,
                self.layout == old(self).layout,
                self.assignment == old(self).assignment,
                f == (|r: int| rank_frees(all[r].rank, all[r].spec_frees())),
                v@ == flat(r as nat, f),
            decreases self.shards@.len() - r,
        {
            proof {
                assert(self.shards@[r as int] == all[r as int]);
            }
            let rank = self.shards[r].rank;
            let frees = self.shards[r].dispose();
            push_rank_frees(rank, &frees, &mut v);
            proof {
                assert(f(r as int) == rank_frees(rank, frees@));
            }
            r = r + 1;
        }
        self.shards = Vec::new();
        proof {
            let g = |r: int|
                rank_frees(old(self).shards@[r].rank, old(self).shards@[r].spec_frees());
            lemma_flat_same(all.len(), f, g);
        }
        v
    }
}

/// The state of one sequence on one pipeline rank, one cache for each layer of
/// the rank.
#[derive(Debug)]
pub struct Qwen3MoERankSession {
    pub rank: RankId,
    pub device_id: i32,
    pub caches: Vec<LayerCache>,
    pub disposed: bool,
}

impl Qwen3MoERankSession {
    pub fn caches_mut(&mut self) -> (r: &mut Vec<LayerCache>)
        ensures
            *r == old(self).caches,
            *final(self) == (Qwen3MoERankSession { caches: *final(r), ..*old(self) }),
    {
        &mut self.caches
    }

    /// Lists the allocations of the rank to give back, once.
    pub fn dispose(&mut self) -> (v: Vec<Free>)
        ensures
            v@ == (if old(self).disposed {
                seq![]
            } else {
                caches_frees(old(self).caches@)
            }),
            final(self).disposed,
            final(self).rank == old(self).rank,
            final(self).device_id == old(self).device_id,
            final(self).caches@ == (if old(self).disposed {
                old(self).caches@
            } else {
                seq![]
            }),
    {
        if self.disposed {
            return Vec::new();
        }
        self.disposed = true;
        let v = list_frees(&self.caches);
        self.caches = Vec::new();
        v
    }
}

/// The state of one sequence on a pipeline.
#[derive(Debug)]
pub struct Qwen3MoEShardedSession {
    pub per_rank: Vec<Qwen3MoERankSession>,
    pub disposed: bool,
}

/// The indices of a rank's layers.
pub open spec fn layer_indices(layers: Seq<LayerWeights>) -> Seq<usize> {
    layers.map_values(|l: LayerWeights| l.layer_idx)
}

fn list_indices(layers: &Vec<LayerWeights>) -> (v: Vec<usize>)
    ensures
        v@ == layer_indices(layers@),
{
    let mut v: Vec<usize> = Vec::new();
    let mut i: usize = 0;
    while i < layers.len()
        invariant
            i <= layers@.len(),
            v@.len() == i,
            forall|j: int| 0 <= j < i ==> #[trigger] v@[j] == layers@[j].layer_idx,
        decreases layers@.len() - i,
    {
        v.push(layers[i].layer_idx);
        i = i + 1;
    }
    proof {
        assert(v@ =~= layer_indices(layers@));
    }
    v
}

/// The caches of all ranks of a pipeline.
pub open spec fn place_pipeline_run(
    m: Qwen3MoEShardedModel,
    kv: KvLayout,
    placed: Seq<Vec<PlacedCache>>,
) -> Run<Seq<LayerCache>, SessionError> {
    each(
        m.shards@.len(),
        |r: int|
            rank_step(
                place_run(m.config, kv, layer_indices(m.shards@[r].layers@), placed[r]@),
            ),
    )
}

impl Qwen3MoEShardedSession {
    /// A session on the buffers `placed`, one list for each rank of the cluster.
    /// `out` gets what fills the recurrent layers with zeros.
    pub fn new(
        model: &Qwen3MoEShardedModel,
        kv: KvLayout,
        placed: &Vec<Vec<PlacedCache>>,
        out: &mut Vec<StateOp>,
    ) -> (res: Result<Self, SessionError>)
        requires
            placed@.len() == model.shards@.len() ==> {
                &&& gdn_sane(&model.config)
                &&& forall|r: int|
                    0 <= r < placed@.len() ==> (#[trigger] placed@[r])@.len()
                        >= model.shards@[r].layers@.len()
            },
        ensures
            ({
                let run = place_pipeline_run(*model, kv, placed@);
                if placed@.len() != model.shards@.len() {
                    res == Err::<Self, SessionError>(
                        SessionError::StageCount {
                            ranks: placed@.len() as usize,
                            shards: model.shards@.len() as usize,
                        },
                    ) && final(out)@ == old(out)@
                } else {
                    match res {
                        Ok(s) => {
                            &&& run.err is None
                            &&& s.rank_caches() == run.ops
                            &&& !s.disposed
                            &&& final(out)@ == old(out)@ + start_ops(
                                s.rank_ids(),
                                s.rank_caches(),
                            )
                            &&& forall|r: int|
                                0 <= r < s.per_rank@.len() ==> (#[trigger] s.per_rank@[r]).rank
                                    == model.shards@[r].rank && s.per_rank@[r].device_id
                                    == model.shards@[r].device_id && !s.per_rank@[r].disposed
                        },
                        Err(e) => run.err == Some(e) && final(out)@ == old(out)@,
                    }
                }
            }),
    {
        if placed.len() != model.shards.len() {
            return Err(
                SessionError::StageCount { ranks: placed.len(), shards: model.shards.len() },
            );
        }
        let ghost f = |r: int|
            rank_step(
                place_run(
                    model.config,
                    kv,
                    layer_indices(model.shards@[r].layers@),
                    placed@[r]@,
                ),
            );
        let mut s = Qwen3MoEShardedSession { per_rank: Vec::new(), disposed: false };
        let mut r: usize = 0;
        proof {
            assert(s.rank_caches() =~= each(0, f).ops);
        }
        while r < model.shards.len()
            invariant
                r <= model.shards@.len(),
                placed@.len() == model.shards@.len(),
                gdn_sane(&model.config),
                forall|r: int|
                    0 <= r < placed@.len() && r < model.shards@.len() ==> (
                    #[trigger] placed@[r])@.len() >= model.shards@[r].layers@.len(),
                f == (|r: int|
                    rank_step(
                        place_run(
                            model.config,
                            kv,
                            layer_indices(model.shards@[r].layers@),
                            placed@[r]@,
                        ),
                    )),
                !s.disposed,
                s.per_rank@.len() == r,
                forall|j: int|
                    0 <= j < r ==> (#[trigger] s.per_rank@[j]).rank == model.shards@[j].rank
                        && s.per_rank@[j].device_id == model.shards@[j].device_id
                        && !s.per_rank@[j].disposed,
                each(r as nat, f).err is None,
                s.rank_caches() == each(r as nat, f).ops,
            decreases model.shards@.len() - r,
        {
            let ghost before = s.rank_caches();
            let layers = list_indices(&model.shards[r].layers);
            proof {
                assert(placed@[r as int]@.len() >= model.shards@[r as int].layers@.len());
            }
            match place_layers(&model.config, kv, &layers, &placed[r]) {
                Ok(caches) => {
                    let ghost c = caches@;
                    s.per_rank.push(
                        Qwen3MoERankSession {
                            rank: model.shards[r].rank,
                            device_id: model.shards[r].device_id,
                            caches,
                            disposed: false,
                        },
                    );
                    proof {
                        assert(f(r as int).ops == seq![c]);
                        assert(s.rank_caches() =~= before + seq![c]);
                    }
                },
                Err(e) => {
                    proof {
                        lemma_each_stops((r + 1) as nat, model.shards@.len(), f);
                    }
                    return Err(e);
                },
            }
            r = r + 1;
        }
        s.start(out);
        Ok(s)
    }

    fn start(&self, out: &mut Vec<StateOp>)
        ensures
            final(out)@ == old(out)@ + start_ops(self.rank_ids(), self.rank_caches()),
    {
        let ghost ids = self.rank_ids();
        let ghost all = self.rank_caches();
        let ghost base = out@;
        let ghost f = |r: int| reset_rank_ops(ids[r], all[r]);
        proof {
            assert(out@ =~= base + flat(0, f));
        }
        let mut r: usize = 0;
        while r < self.per_rank.len()
            invariant
                r <= self.per_rank@.len(),
                ids == self.rank_ids(),
                all == self.rank_caches(),
                f == (|r: int| reset_rank_ops(ids[r], all[r])),
                out@ == base + flat(r as nat, f),
            decreases self.per_rank@.len() - r,
        {
            let rank: usize = self.per_rank[r].rank.0 as usize;
            start_rank(rank, &self.per_rank[r].caches, out);
            proof {
                assert(ids[r as int] == rank);
                assert(out@ =~= base + flat((r + 1) as nat, f));
            }
            r = r + 1;
        }
    }
}

impl Qwen3MoEShardedSession {
    /// The caches of each rank.
    pub open spec fn rank_caches(&self) -> Seq<Seq<LayerCache>> {
        Seq::new(self.per_rank@.len(), |r: int| self.per_rank@[r].caches@)
    }

    /// Nothing but the caches of the ranks differs from `was`.
    pub open spec fn keeps_ranks(&self, was: &Self) -> bool {
        &&& self.disposed == was.disposed
        &&& self.per_rank@.len() == was.per_rank@.len()
        &&& forall|r: int|
            0 <= r < self.per_rank@.len() ==> #[trigger] self.per_rank@[r] == (
            Qwen3MoERankSession { caches: self.per_rank@[r].caches, ..was.per_rank@[r] })
    }

    /// The number of each rank.
    pub open spec fn rank_ids(&self) -> Seq<usize> {
        Seq::new(self.per_rank@.len(), |r: int| self.per_rank@[r].rank.0 as usize)
    }

    /// Whether some rank keeps quantised K and V.
    pub fn is_q8_kv(&self) -> (b: bool)
        ensures
            b == exists|r: int|
                0 <= r < self.rank_caches().len() && any_q8(#[trigger] self.rank_caches()[r]),
    {
        let mut r: usize = 0;
        while r < self.per_rank.len()
            invariant
                r <= self.per_rank@.len(),
                forall|j: int| 0 <= j < r ==> !any_q8(#[trigger] self.rank_caches()[j]),
            decreases self.per_rank@.len() - r,
        {
            if has_q8(&self.per_rank[r].caches) {
                proof {
                    assert(any_q8(self.rank_caches()[r as int]));
                }
                return true;
            }
            r = r + 1;
        }
        false
    }

    /// Bytes of the caches of each rank.
    pub open spec fn rank_sizes(&self) -> Seq<nat> {
        self.rank_caches().map_values(|c: Seq<LayerCache>| caches_bytes(c))
    }

    /// Bytes of the caches of all ranks.
    pub fn total_bytes(&self) -> (t: usize)
        requires
            sum(self.rank_sizes()) <= usize::MAX,
        ensures
            t == sum(self.rank_sizes()),
    {
        let ghost s = self.rank_sizes();
        let mut total: usize = 0;
        let mut r: usize = 0;
        proof {
            assert(s.take(0) =~= Seq::<nat>::empty());
        }
        while r < self.per_rank.len()
            invariant
                r <= self.per_rank@.len(),
                s == self.rank_sizes(),
                sum(s) <= usize::MAX,
                total == sum(s.take(r as int)),
            decreases self.per_rank@.len() - r,
        {
            proof {
                lemma_sum_step(s, r as int);
                lemma_sum_prefix(s, r as int + 1);
            }
            total = total + total_cache_bytes(&self.per_rank[r].caches);
            r = r + 1;
        }
        proof {
            assert(s.take(s.len() as int) =~= s);
        }
        total
    }

    /// Saves the recurrent layers of every rank. `fresh` has buffers for those
    /// that were never saved.
    pub fn save_gdn_snapshot(&mut self, fresh: &Vec<Vec<SnapshotPtrs>>, out: &mut Vec<StateOp>)
        requires
            fresh@.len() >= old(self).rank_caches().len(),
            forall|r: int|
                0 <= r < old(self).rank_caches().len() ==> (#[trigger] fresh@[r])@.len() >= old(
                    self,
                ).rank_caches()[r].len(),
        ensures
            final(self).keeps_ranks(&*old(self)),
            final(self).rank_ids() == old(self).rank_ids(),
            final(self).rank_caches() == Seq::new(
                old(self).rank_caches().len(),
                |r: int| with_snapshots(old(self).rank_caches()[r], fresh@[r]@),
            ),
            final(out)@ == old(out)@ + save_session_ops(
                old(self).rank_ids(),
                final(self).rank_caches(),
            ),
    {
        let ghost n = self.rank_ids().len();
        let ghost ids = self.rank_ids();
        let ghost before = self.rank_caches();
        let ghost after = Seq::new(n, |r: int| with_snapshots(before[r], fresh@[r]@));
        let ghost base = out@;
        let ghost f = |r: int|
            save_all_ops(ids[r], after[r]).push(StateOp::Sync { rank: ids[r] });
        proof {
            assert(out@ =~= base + flat(0, f));
        }
        let mut r: usize = 0;
        while r < self.per_rank.len()
            invariant
                r <= self.per_rank@.len(),
                self.per_rank@.len() == n,
                n == ids.len(),
                n == before.len(),
                before == old(self).rank_caches(),
                ids == old(self).rank_ids(),
                self.rank_ids() == ids,
                self.keeps_ranks(&*old(self)),
                base == old(out)@,
                fresh@.len() >= n,
                forall|j: int|
                    0 <= j < n ==> (#[trigger] fresh@[j])@.len() >= before[j].len(),
                after == Seq::new(n, |r: int| with_snapshots(before[r], fresh@[r]@)),
                f == (|r: int|
                    save_all_ops(ids[r], after[r]).push(StateOp::Sync { rank: ids[r] })),
                forall|j: int| 0 <= j < r ==> #[trigger] self.rank_caches()[j] == after[j],
                forall|j: int| r <= j < n ==> #[trigger] self.rank_caches()[j] == before[j],
                out@ == base + flat(r as nat, f),
            decreases self.per_rank@.len() - r,
        {
            let ghost mid = out@;
            let ghost held = self.rank_caches();
            let rank: usize = self.per_rank[r].rank.0 as usize;
            proof {
                assert(held[r as int] == before[r as int]);
                assert(ids[r as int] == rank) by {
                    assert(self.rank_ids()[r as int] == rank);
                }
                assert(fresh@[r as int]@.len() >= before[r as int].len());
            }
            save_caches(rank, &mut self.per_rank[r].caches, &fresh[r], out);
            out.push(StateOp::Sync { rank });
            proof {
                assert(self.rank_ids() =~= ids);
                assert(self.rank_caches()[r as int] == after[r as int]);
                assert forall|j: int| 0 <= j < n && j != r implies #[trigger] self.rank_caches()[j]
                    == held[j] by {}
                assert(out@ =~= mid + f(r as int));
                assert(out@ =~= base + flat((r + 1) as nat, f));
            }
            r = r + 1;
        }
        proof {
            assert(self.rank_caches() =~= after);
            let now = self.rank_caches();
            let g = |r: int| save_all_ops(ids[r], now[r]).push(StateOp::Sync { rank: ids[r] });
            lemma_flat_same(n, f, g);
        }
    }

    /// Restores the recurrent layers of every rank, as far as there are snapshots.
    pub fn restore_gdn_snapshot(&self, out: &mut Vec<StateOp>) -> (res: Result<(), SessionError>)
        ensures
            ran(
                old(out)@,
                final(out)@,
                res,
                restore_session_run(Site::Pipeline, self.rank_ids(), self.rank_caches()),
            ),
    {
        let ghost ids = self.rank_ids();
        let ghost all = self.rank_caches();
        let ghost base = out@;
        let ghost f = |r: int| restore_rank_run(Site::Pipeline, ids[r], all[r]);
        let ghost n = self.rank_ids().len();
        let mut r: usize = 0;
        proof {
            assert(out@ =~= base + each(0, f).ops);
        }
        while r < self.per_rank.len()
            invariant
                r <= self.per_rank@.len(),
                n == self.per_rank@.len(),
                base == old(out)@,
                ids == self.rank_ids(),
                all == self.rank_caches(),
                f == (|r: int| restore_rank_run(Site::Pipeline, ids[r], all[r])),
                ran(base, out@, Ok::<(), SessionError>(()), each(r as nat, f)),
            decreases self.per_rank@.len() - r,
        {
            let ghost mid = out@;
            let rank: usize = self.per_rank[r].rank.0 as usize;
            let ghost a = restore_run(Site::Pipeline, rank, self.rank_caches()[r as int]);
            proof {
                assert(self.rank_ids()[r as int] == rank);
                let g = |i: int| restore_step(
                    Site::Pipeline,
                    rank,
                    self.rank_caches()[r as int][i],
                    i,
                );
                assert(a == each(self.rank_caches()[r as int].len(), g));
            }
            match restore_caches(Site::Pipeline, rank, &self.per_rank[r].caches, out) {
                Ok(_) => {},
                Err(e) => {
                    proof {
                        lemma_ran_then2(base, mid, out@, Err(e), each(r as nat, f), f(r as int));
                        lemma_each_stops((r + 1) as nat, n, f);
                    }
                    return Err(e);
                },
            }
            let ghost mid2 = out@;
            let op = StateOp::Sync { rank };
            out.push(op);
            proof {
                assert(out@ =~= mid2 + seq![op]);
                lemma_ran_then2(mid, mid2, out@, Ok(()), a, done(seq![op]));
                lemma_ran_then2(base, mid, out@, Ok(()), each(r as nat, f), f(r as int));
            }
            r = r + 1;
        }
        Ok(())
    }

    /// The first rank with a cache that holds fewer than `n_remove` tokens.
    pub open spec fn first_stuck_rank(&self, n_remove: usize, n: nat) -> Option<nat>
        decreases n,
    {
        if n == 0 {
            None
        } else {
            match self.first_stuck_rank(n_remove, (n - 1) as nat) {
                Some(r) => Some(r),
                None => if rolled(
                    Site::Pipeline,
                    self.rank_ids()[n - 1],
                    self.rank_caches()[n - 1],
                    n_remove,
                ).1 is None {
                    None
                } else {
                    Some((n - 1) as nat)
                },
            }
        }
    }

    proof fn lemma_stuck_stays(&self, n_remove: usize, n: nat, m: nat)
        requires
            n <= m,
            self.first_stuck_rank(n_remove, n) is Some,
        ensures
            self.first_stuck_rank(n_remove, m) == self.first_stuck_rank(n_remove, n),
        decreases m,
    {
        if n < m {
            self.lemma_stuck_stays(n_remove, n, (m - 1) as nat);
        }
    }

    /// The caches after `n_remove` tokens are taken back from the ranks up to
    /// the first that cannot.
    pub open spec fn rolled_ranks(&self, n_remove: usize) -> Seq<Seq<LayerCache>> {
        let stuck = self.first_stuck_rank(n_remove, self.rank_ids().len());
        Seq::new(
            self.rank_caches().len(),
            |r: int|
                if stuck is Some && r > stuck->Some_0 {
                    self.rank_caches()[r]
                } else {
                    rolled(Site::Pipeline, self.rank_ids()[r], self.rank_caches()[r], n_remove).0
                },
        )
    }

    /// Takes `n_remove` tokens back from the caches of every rank. Stops at the
    /// first cache that holds fewer.
    pub fn rollback_full_attn(&mut self, n_remove: usize) -> (res: Result<(), SessionError>)
        ensures
            final(self).keeps_ranks(&*old(self)),
            final(self).rank_ids() == old(self).rank_ids(),
            final(self).rank_caches() == old(self).rolled_ranks(n_remove),
            match old(self).first_stuck_rank(n_remove, old(self).rank_ids().len()) {
                None => res is Ok,
                Some(r) => res is Err && rolled(
                    Site::Pipeline,
                    old(self).rank_ids()[r as int],
                    old(self).rank_caches()[r as int],
                    n_remove,
                ).1 == Some(res->Err_0),
            },
    {
        let ghost n = self.rank_ids().len();
        let ghost ids = self.rank_ids();
        let ghost before = self.rank_caches();
        let mut r: usize = 0;
        while r < self.per_rank.len()
            invariant
                r <= self.per_rank@.len(),
                self.per_rank@.len() == n,
                n == ids.len(),
                n == before.len(),
                before == old(self).rank_caches(),
                ids == old(self).rank_ids(),
                self.rank_ids() == ids,
                self.keeps_ranks(&*old(self)),
                old(self).first_stuck_rank(n_remove, r as nat) is None,
                forall|j: int|
                    0 <= j < r ==> #[trigger] self.rank_caches()[j] == rolled(
                        Site::Pipeline,
                        ids[j],
                        before[j],
                        n_remove,
                    ).0,
                forall|j: int| r <= j < n ==> #[trigger] self.rank_caches()[j] == before[j],
            decreases self.per_rank@.len() - r,
        {
            let ghost held = self.rank_caches();
            let rank: usize = self.per_rank[r].rank.0 as usize;
            proof {
                assert(held[r as int] == before[r as int]);
                assert(self.rank_ids()[r as int] == rank);
            }
            let res = roll_caches(Site::Pipeline, rank, &mut self.per_rank[r].caches, n_remove);
            proof {
                assert(self.rank_ids() =~= ids);
                assert(self.rank_caches()[r as int] == rolled(
                    Site::Pipeline,
                    rank,
                    before[r as int],
                    n_remove,
                ).0);
                assert forall|j: int| 0 <= j < n && j != r implies #[trigger] self.rank_caches()[j]
                    == held[j] by {}
            }
            if let Err(e) = res {
                proof {
                    assert(old(self).first_stuck_rank(n_remove, (r + 1) as nat) == Some(
                        r as nat,
                    ));
                    old(self).lemma_stuck_stays(n_remove, (r + 1) as nat, n);
                    assert(self.rank_caches() =~= old(self).rolled_ranks(n_remove));
                }
                return Err(e);
            }
            r = r + 1;
        }
        proof {
            assert(self.rank_caches() =~= old(self).rolled_ranks(n_remove));
        }
        Ok(())
    }

    /// Makes the caches of every rank ready for a new sequence.
    pub fn reset_for_next_request(&mut self, out: &mut Vec<StateOp>)
        ensures
            final(self).keeps_ranks(&*old(self)),
            final(self).rank_ids() == old(self).rank_ids(),
            final(self).rank_caches() == Seq::new(
                old(self).rank_caches().len(),
                |r: int| all_cleared(old(self).rank_caches()[r]),
            ),
            final(out)@ == old(out)@ + start_ops(old(self).rank_ids(), old(self).rank_caches()),
    {
        let ghost n = self.rank_ids().len();
        let ghost ids = self.rank_ids();
        let ghost before = self.rank_caches();
        let ghost base = out@;
        let ghost f = |r: int| reset_rank_ops(ids[r], before[r]);
        proof {
            assert(out@ =~= base + flat(0, f));
        }
        let mut r: usize = 0;
        while r < self.per_rank.len()
            invariant
                r <= self.per_rank@.len(),
                self.per_rank@.len() == n,
                n == ids.len(),
                n == before.len(),
                before == old(self).rank_caches(),
                ids == old(self).rank_ids(),
                self.rank_ids() == ids,
                self.keeps_ranks(&*old(self)),
                base == old(out)@,
                f == (|r: int| reset_rank_ops(ids[r], before[r])),
                forall|j: int|
                    0 <= j < r ==> #[trigger] self.rank_caches()[j] == all_cleared(before[j]),
                forall|j: int| r <= j < n ==> #[trigger] self.rank_caches()[j] == before[j],
                out@ == base + flat(r as nat, f),
            decreases self.per_rank@.len() - r,
        {
            let ghost held = self.rank_caches();
            let rank: usize = self.per_rank[r].rank.0 as usize;
            proof {
                assert(held[r as int] == before[r as int]);
                assert(self.rank_ids()[r as int] == rank);
            }
            reset_rank(rank, &mut self.per_rank[r].caches, out);
            proof {
                assert(self.rank_ids() =~= ids);
                assert(self.rank_caches()[r as int] == all_cleared(before[r as int]));
                assert forall|j: int| 0 <= j < n && j != r implies #[trigger] self.rank_caches()[j]
                    == held[j] by {}
                assert(out@ =~= base + flat((r + 1) as nat, f));
            }
            r = r + 1;
        }
        proof {
            assert(self.rank_caches() =~= Seq::new(n, |r: int| all_cleared(before[r])));
        }
    }

    /// What `dispose` gives back.
    pub open spec fn spec_frees(&self) -> Seq<RankFree> {
        if self.disposed {
            seq![]
        } else {
            flat(
                self.rank_ids().len(),
                |r: int|
                    rank_frees(
                        RankId(self.rank_ids()[r] as u32),
                        caches_frees(self.rank_caches()[r]),
                    ),
            )
        }
    }

    /// Lists the allocations of every rank to give back, once.
    pub fn dispose(&mut self) -> (v: Vec<RankFree>)
        ensures
            v@ == old(self).spec_frees(),
            final(self).disposed,
            old(self).disposed ==> *final(self) == *old(self),
            !old(self).disposed ==> final(self).rank_caches().len() == 0,
    {
        let mut v: Vec<RankFree> = Vec::new();
        if self.disposed {
            proof {
                assert(v@ =~= old(self).spec_frees());
            }
            return v;
        }
        let ghost n = self.rank_ids().len();
        let ghost ids = self.rank_ids();
        let ghost before = self.rank_caches();
        let ghost f = |r: int| rank_frees(RankId(ids[r] as u32), caches_frees(before[r]));
        proof {
            assert(v@ =~= flat(0, f));
        }
        let mut r: usize = 0;
        while r < self.per_rank.len()
            invariant
                r <= self.per_rank@.len(),
                self.per_rank@.len() == n,
                n == ids.len(),
                n == before.len(),
                before == old(self).rank_caches(),
                ids == old(self).rank_ids(),
                self.rank_ids() == ids,
                self.disposed == old(self).disposed,
                self.rank_caches() == before,
                f == (|r: int| rank_frees(RankId(ids[r] as u32), caches_frees(before[r]))),
                v@ == flat(r as nat, f),
            decreases self.per_rank@.len() - r,
        {
            let rank: usize = self.per_rank[r].rank.0 as usize;
            let frees = list_frees(&self.per_rank[r].caches);
            push_rank_frees(RankId(rank as u32), &frees, &mut v);
            proof {
                assert(self.rank_ids()[r as int] == rank);
                assert(self.rank_caches()[r as int] == before[r as int]);
                assert(f(r as int) == rank_frees(RankId(rank as u32), frees@));
            }
            r = r + 1;
        }
        proof {
            let g = |r: int|
                rank_frees(
                    RankId(old(self).rank_ids()[r] as u32),
                    caches_frees(old(self).rank_caches()[r]),
                );
            lemma_flat_same(n, f, g);
        }
        self.disposed = true;
        self.per_rank = Vec::new();
        v
    }
}

/// A new pipeline session is fresh on every rank once it has done what it does
/// first: no token is cached, and both buffers of every recurrent layer hold zeros.
pub proof fn law_new_pipeline_session_is_fresh(
    m: Qwen3MoEShardedModel,
    kv: KvLayout,
    placed: Seq<Vec<PlacedCache>>,
    s: Qwen3MoEShardedSession,
    mem: Memory,
)
    requires
        place_pipeline_run(m, kv, placed).err is None,
        s.rank_caches() == place_pipeline_run(m, kv, placed).ops,
        ranks_differ(s.rank_ids()),
        forall|r: int| 0 <= r < m.shards@.len() ==> live_apart(#[trigger] s.rank_caches()[r]),
    ensures
        s.rank_caches().len() == m.shards@.len(),
        forall|r: int, i: int|
            0 <= r < m.shards@.len() && 0 <= i < m.shards@[r].layers@.len() ==> fresh(
                #[trigger] s.rank_caches()[r][i],
                s.rank_ids()[r],
                after_ops(mem, start_ops(s.rank_ids(), s.rank_caches())),
            ),
{
    let n = m.shards@.len();
    let f = |r: int|
        rank_step(place_run(m.config, kv, layer_indices(m.shards@[r].layers@), placed[r]@));
    lemma_each_ones(n, f);
    assert forall|r: int, i: int|
        0 <= r < n && 0 <= i < s.rank_caches()[r].len() implies is_placed(
        #[trigger] s.rank_caches()[r][i],
    ) by {
        assert(f(r).err is None);
        lemma_place_run_places(m.config, kv, layer_indices(m.shards@[r].layers@), placed[r]@);
    }
    assert forall|r: int| 0 <= r < n implies (#[trigger] s.rank_caches()[r]).len()
        == m.shards@[r].layers@.len() by {
        assert(f(r).err is None);
        lemma_place_run_places(m.config, kv, layer_indices(m.shards@[r].layers@), placed[r]@);
    }
    law_new_session_is_fresh(s.rank_ids(), s.rank_caches(), mem);
}

} // verus!
