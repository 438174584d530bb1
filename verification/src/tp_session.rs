//! Per-sequence state of a tensor-parallel model.

use crate::arith::{lemma_sum_prefix, lemma_sum_step, sum};
use crate::device::{push_rank_frees, rank_frees, DevicePtr, RankFree, RankId};
use crate::plan::{
    done, each, flat, lemma_each_ones, lemma_each_stops, lemma_flat_same, lemma_ran_then2, ran,
};
use crate::session::{
    any_q8, caches_bytes, gdn_sane, has_q8, total_cache_bytes, KvLayout, LayerCache, SessionError,
};
use crate::state_ops::{
    all_cleared, caches_frees, first_ranks, list_frees, place_ranks_run_tp, place_run_tp, rank_step, place_ranks_tp,
    reset_rank, reset_rank_ops, restore_caches, restore_rank_run, restore_run,
    restore_session_run, restore_step, roll_caches, rolled, save_all_ops, save_caches,
    save_session_ops, start_ops, start_ranks, views, with_snapshots, PlacedCache, Site,
    SnapshotPtrs, StateOp,
};
use crate::state_laws::{
    after_ops, fresh, in_snapshot, is_placed, law_new_session_is_fresh,
    law_session_restore_undoes_steps, lemma_place_run_tp_places, live_apart, live_in_session,
    same_live, same_recurrent, separate, Memory,
};
use crate::tp_sharded::Qwen3MoETpModel;
use vstd::prelude::*;

verus! {

/// The caches of every rank, one for each layer.
#[derive(Debug)]
pub struct Qwen3MoETpSession {
    pub caches: Vec<Vec<LayerCache>>,
    pub disposed: bool,
}

impl Qwen3MoETpSession {
    /// A session on the buffers `placed`, one list for each rank. `out` gets what
    /// fills the recurrent layers with zeros.
    pub fn new(
        model: &Qwen3MoETpModel,
        kv_layout: KvLayout,
        placed: &Vec<Vec<PlacedCache>>,
        out: &mut Vec<StateOp>,
    ) -> (res: Result<Self, SessionError>)
        requires
            placed@.len() <= u32::MAX,
            placed@.len() == model.tp.spec_world() ==> {
                &&& gdn_sane(&model.config)
                &&& forall|r: int|
                    0 <= r < placed@.len() ==> (#[trigger] placed@[r])@.len()
                        >= model.config.num_layers
            },
        ensures
            ({
                let run = place_ranks_run_tp(
                    model.config,
                    model.tp.spec_world(),
                    false,
                    kv_layout,
                    0,
                    model.config.num_layers as nat,
                    placed@,
                );
                if placed@.len() != model.tp.spec_world() {
                    res == Err::<Self, SessionError>(
                        SessionError::RankCount {
                            ranks: placed@.len() as usize,
                            world: model.tp.spec_world(),
                        },
                    ) && final(out)@ == old(out)@
                } else {
                    match res {
                        Ok(s) => {
                            &&& run.err is None
                            &&& s.rank_caches() == run.ops
                            &&& !s.disposed
                            &&& final(out)@ == old(out)@ + start_ops(
                                s.rank_ids(),
                                s.rank_caches(),
                            )
                        },
                        Err(e) => run.err == Some(e) && final(out)@ == old(out)@,
                    }
                }
            }),
    {
        let world: u32 = model.tp.world();
        if placed.len() as u32 != world {
            return Err(SessionError::RankCount { ranks: placed.len(), world });
        }
        match place_ranks_tp(
            &model.config,
            world,
            model.tp.gdn_kq_replicated(),
            kv_layout,
            0,
            model.config.num_layers,
            placed,
        ) {
            Ok(caches) => {
                start_ranks(&caches, out);
                let s = Qwen3MoETpSession { caches, disposed: false };
                proof {
                    assert(s.rank_caches() =~= views(caches@));
                    assert(s.rank_ids() =~= first_ranks(caches@.len()));
                }
                Ok(s)
            },
            Err(e) => Err(e),
        }
    }
}

impl Qwen3MoETpSession {
    /// The caches of each rank.
    pub open spec fn rank_caches(&self) -> Seq<Seq<LayerCache>> {
        Seq::new(self.caches@.len(), |r: int| self.caches@[r]@)
    }

    /// The number of each rank.
    pub open spec fn rank_ids(&self) -> Seq<usize> {
        Seq::new(self.caches@.len(), |r: int| r as usize)
    }

    /// Whether some rank keeps quantised K and V.
    pub fn is_q8_kv(&self) -> (b: bool)
        ensures
            b == exists|r: int|
                0 <= r < self.rank_caches().len() && any_q8(#[trigger] self.rank_caches()[r]),
    {
        let mut r: usize = 0;
        while r < self.caches.len()
            invariant
                r <= self.caches@.len(),
                forall|j: int| 0 <= j < r ==> !any_q8(#[trigger] self.rank_caches()[j]),
            decreases self.caches@.len() - r,
        {
            if has_q8(&self.caches[r]) {
                proof {
                    assert(any_q8(self.rank_caches()[r as int]));
                }
                return true;
            }
            r = r + 1;
        }
        false
    }

    /// Bytes of the caches of each rank.
    pub open spec fn rank_sizes(&self) -> Seq<nat> {
        self.rank_caches().map_values(|c: Seq<LayerCache>| caches_bytes(c))
    }

    /// Bytes of the caches of all ranks.
    pub fn total_bytes(&self) -> (t: usize)
        requires
            sum(self.rank_sizes()) <= usize::MAX,
        ensures
            t == sum(self.rank_sizes()),
    {
        let ghost s = self.rank_sizes();
        let mut total: usize = 0;
        let mut r: usize = 0;
        proof {
            assert(s.take(0) =~= Seq::<nat>::empty());
        }
        while r < self.caches.len()
            invariant
                r <= self.caches@.len(),
                s == self.rank_sizes(),
                sum(s) <= usize::MAX,
                total == sum(s.take(r as int)),
            decreases self.caches@.len() - r,
        {
            proof {
                lemma_sum_step(s, r as int);
                lemma_sum_prefix(s, r as int + 1);
            }
            total = total + total_cache_bytes(&self.caches[r]);
            r = r + 1;
        }
        proof {
            assert(s.take(s.len() as int) =~= s);
        }
        total
    }

    /// Saves the recurrent layers of every rank. `fresh` has buffers for those
    /// that were never saved.
    pub fn save_gdn_snapshot(&mut self, fresh: &Vec<Vec<SnapshotPtrs>>, out: &mut Vec<StateOp>)
        requires
            fresh@.len() >= old(self).rank_caches().len(),
            forall|r: int|
                0 <= r < old(self).rank_caches().len() ==> (#[trigger] fresh@[r])@.len() >= old(
                    self,
                ).rank_caches()[r].len(),
        ensures
            final(self).rank_ids() == old(self).rank_ids(),
            final(self).disposed == old(self).disposed,
            final(self).rank_caches() == Seq::new(
                old(self).rank_caches().len(),
                |r: int| with_snapshots(old(self).rank_caches()[r], fresh@[r]@),
            ),
            final(out)@ == old(out)@ + save_session_ops(
                old(self).rank_ids(),
                final(self).rank_caches(),
            ),
    {
        let ghost n = self.rank_ids().len();
        let ghost ids = self.rank_ids();
        let ghost before = self.rank_caches();
        let ghost after = Seq::new(n, |r: int| with_snapshots(before[r], fresh@[r]@));
        let ghost base = out@;
        let ghost f = |r: int|
            save_all_ops(ids[r], after[r]).push(StateOp::Sync { rank: ids[r] });
        proof {
            assert(out@ =~= base + flat(0, f));
        }
        let mut r: usize = 0;
        while r < self.caches.len()
            invariant
                r <= self.caches@.len(),
                self.caches@.len() == n,
                n == ids.len(),
                n == before.len(),
                before == old(self).rank_caches(),
                ids == old(self).rank_ids(),
                self.rank_ids() == ids,
                self.disposed == old(self).disposed,
                base == old(out)@,
                fresh@.len() >= n,
                forall|j: int|
                    0 <= j < n ==> (#[trigger] fresh@[j])@.len() >= before[j].len(),
                after == Seq::new(n, |r: int| with_snapshots(before[r], fresh@[r]@)),
                f == (|r: int|
                    save_all_ops(ids[r], after[r]).push(StateOp::Sync { rank: ids[r] })),
                forall|j: int| 0 <= j < r ==> #[trigger] self.rank_caches()[j] == after[j],
                forall|j: int| r <= j < n ==> #[trigger] self.rank_caches()[j] == before[j],
                out@ == base + flat(r as nat, f),
            decreases self.caches@.len() - r,
        {
            let ghost mid = out@;
            let ghost held = self.rank_caches();
            let rank: usize = r;
            proof {
                assert(held[r as int] == before[r as int]);
                assert(ids[r as int] == rank) by {
                    assert(self.rank_ids()[r as int] == rank);
                }
                assert(fresh@[r as int]@.len() >= before[r as int].len());
            }
            save_caches(rank, &mut self.caches[r], &fresh[r], out);
            out.push(StateOp::Sync { rank });
            proof {
                assert(self.rank_ids() =~= ids);
                assert(self.rank_caches()[r as int] == after[r as int]);
                assert forall|j: int| 0 <= j < n && j != r implies #[trigger] self.rank_caches()[j]
                    == held[j] by {}
                assert(out@ =~= mid + f(r as int));
                assert(out@ =~= base + flat((r + 1) as nat, f));
            }
            r = r + 1;
        }
        proof {
            assert(self.rank_caches() =~= after);
            let now = self.rank_caches();
            let g = |r: int| save_all_ops(ids[r], now[r]).push(StateOp::Sync { rank: ids[r] });
            lemma_flat_same(n, f, g);
        }
    }

    /// Restores the recurrent layers of every rank, as far as there are snapshots.
    pub fn restore_gdn_snapshot(&self, out: &mut Vec<StateOp>) -> (res: Result<(), SessionError>)
        ensures
            ran(
                old(out)@,
                final(out)@,
                res,
                restore_session_run(Site::Tensor, self.rank_ids(), self.rank_caches()),
            ),
    {
        let ghost ids = self.rank_ids();
        let ghost all = self.rank_caches();
        let ghost base = out@;
        let ghost f = |r: int| restore_rank_run(Site::Tensor, ids[r], all[r]);
        let ghost n = self.rank_ids().len();
        let mut r: usize = 0;
        proof {
            assert(out@ =~= base + each(0, f).ops);
        }
        while r < self.caches.len()
            invariant
                r <= self.caches@.len(),
                n == self.caches@.len(),
                base == old(out)@,
                ids == self.rank_ids(),
                all == self.rank_caches(),
                f == (|r: int| restore_rank_run(Site::Tensor, ids[r], all[r])),
                ran(base, out@, Ok::<(), SessionError>(()), each(r as nat, f)),
            decreases self.caches@.len() - r,
        {
            let ghost mid = out@;
            let rank: usize = r;
            let ghost a = restore_run(Site::Tensor, rank, self.rank_caches()[r as int]);
            proof {
                assert(self.rank_ids()[r as int] == rank);
                let g = |i: int| restore_step(
                    Site::Tensor,
                    rank,
                    self.rank_caches()[r as int][i],
                    i,
                );
                assert(a == each(self.rank_caches()[r as int].len(), g));
            }
            match restore_caches(Site::Tensor, rank, &self.caches[r], out) {
                Ok(_) => {},
                Err(e) => {
                    proof {
                        lemma_ran_then2(base, mid, out@, Err(e), each(r as nat, f), f(r as int));
                        lemma_each_stops((r + 1) as nat, n, f);
                    }
                    return Err(e);
                },
            }
            let ghost mid2 = out@;
            let op = StateOp::Sync { rank };
            out.push(op);
            proof {
                assert(out@ =~= mid2 + seq![op]);
                lemma_ran_then2(mid, mid2, out@, Ok(()), a, done(seq![op]));
                lemma_ran_then2(base, mid, out@, Ok(()), each(r as nat, f), f(r as int));
            }
            r = r + 1;
        }
        Ok(())
    }

    /// The first rank with a cache that holds fewer than `n_remove` tokens.
    pub open spec fn first_stuck_rank(&self, n_remove: usize, n: nat) -> Option<nat>
        decreases n,
    {
        if n == 0 {
            None
        } else {
            match self.first_stuck_rank(n_remove, (n - 1) as nat) {
                Some(r) => Some(r),
                None => if rolled(
                    Site::Tensor,
                    self.rank_ids()[n - 1],
                    self.rank_caches()[n - 1],
                    n_remove,
                ).1 is None {
                    None
                } else {
                    Some((n - 1) as nat)
                },
            }
        }
    }

    proof fn lemma_stuck_stays(&self, n_remove: usize, n: nat, m: nat)
        requires
            n <= m,
            self.first_stuck_rank(n_remove, n) is Some,
        ensures
            self.first_stuck_rank(n_remove, m) == self.first_stuck_rank(n_remove, n),
        decreases m,
    {
        if n < m {
            self.lemma_stuck_stays(n_remove, n, (m - 1) as nat);
        }
    }

    /// The caches after `n_remove` tokens are taken back from the ranks up to
    /// the first that cannot.
    pub open spec fn rolled_ranks(&self, n_remove: usize) -> Seq<Seq<LayerCache>> {
        let stuck = self.first_stuck_rank(n_remove, self.rank_ids().len());
        Seq::new(
            self.rank_caches().len(),
            |r: int|
                if stuck is Some && r > stuck->Some_0 {
                    self.rank_caches()[r]
                } else {
                    rolled(Site::Tensor, self.rank_ids()[r], self.rank_caches()[r], n_remove).0
                },
        )
    }

    /// Takes `n_remove` tokens back from the caches of every rank. Stops at the
    /// first cache that holds fewer.
    pub fn rollback_full_attn(&mut self, n_remove: usize) -> (res: Result<(), SessionError>)
        ensures
            final(self).rank_ids() == old(self).rank_ids(),
            final(self).disposed == old(self).disposed,
            final(self).rank_caches() == old(self).rolled_ranks(n_remove),
            match old(self).first_stuck_rank(n_remove, old(self).rank_ids().len()) {
                None => res is Ok,
                Some(r) => res is Err && rolled(
                    Site::Tensor,
                    old(self).rank_ids()[r as int],
                    old(self).rank_caches()[r as int],
                    n_remove,
                ).1 == Some(res->Err_0),
            },
    {
        let ghost n = self.rank_ids().len();
        let ghost ids = self.rank_ids();
        let ghost before = self.rank_caches();
        let mut r: usize = 0;
        while r < self.caches.len()
            invariant
                r <= self.caches@.len(),
                self.caches@.len() == n,
                n == ids.len(),
                n == before.len(),
                before == old(self).rank_caches(),
                ids == old(self).rank_ids(),
                self.rank_ids() == ids,
                self.disposed == old(self).disposed,
                old(self).first_stuck_rank(n_remove, r as nat) is None,
                forall|j: int|
                    0 <= j < r ==> #[trigger] self.rank_caches()[j] == rolled(
                        Site::Tensor,
                        ids[j],
                        before[j],
                        n_remove,
                    ).0,
                forall|j: int| r <= j < n ==> #[trigger] self.rank_caches()[j] == before[j],
            decreases self.caches@.len() - r,
        {
            let ghost held = self.rank_caches();
            let rank: usize = r;
            proof {
                assert(held[r as int] == before[r as int]);
                assert(self.rank_ids()[r as int] == rank);
            }
            let res = roll_caches(Site::Tensor, rank, &mut self.caches[r], n_remove);
            proof {
                assert(self.rank_ids() =~= ids);
                assert(self.rank_caches()[r as int] == rolled(
                    Site::Tensor,
                    rank,
                    before[r as int],
                    n_remove,
                ).0);
                assert forall|j: int| 0 <= j < n && j != r implies #[trigger] self.rank_caches()[j]
                    == held[j] by {}
            }
            if let Err(e) = res {
                proof {
                    assert(old(self).first_stuck_rank(n_remove, (r + 1) as nat) == Some(
                        r as nat,
                    ));
                    old(self).lemma_stuck_stays(n_remove, (r + 1) as nat, n);
                    assert(self.rank_caches() =~= old(self).rolled_ranks(n_remove));
                }
                return Err(e);
            }
            r = r + 1;
        }
        proof {
            assert(self.rank_caches() =~= old(self).rolled_ranks(n_remove));
        }
        Ok(())
    }

    /// Makes the caches of every rank ready for a new sequence.
    pub fn reset_for_next_request(&mut self, out: &mut Vec<StateOp>)
        ensures
            final(self).rank_ids() == old(self).rank_ids(),
            final(self).disposed == old(self).disposed,
            final(self).rank_caches() == Seq::new(
                old(self).rank_caches().len(),
                |r: int| all_cleared(old(self).rank_caches()[r]),
            ),
            final(out)@ == old(out)@ + start_ops(old(self).rank_ids(), old(self).rank_caches()),
    {
        let ghost n = self.rank_ids().len();
        let ghost ids = self.rank_ids();
        let ghost before = self.rank_caches();
        let ghost base = out@;
        let ghost f = |r: int| reset_rank_ops(ids[r], before[r]);
        proof {
            assert(out@ =~= base + flat(0, f));
        }
        let mut r: usize = 0;
        while r < self.caches.len()
            invariant
                r <= self.caches@.len(),
                self.caches@.len() == n,
                n == ids.len(),
                n == before.len(),
                before == old(self).rank_caches(),
                ids == old(self).rank_ids(),
                self.rank_ids() == ids,
                self.disposed == old(self).disposed,
                base == old(out)@,
                f == (|r: int| reset_rank_ops(ids[r], before[r])),
                forall|j: int|
                    0 <= j < r ==> #[trigger] self.rank_caches()[j] == all_cleared(before[j]),
                forall|j: int| r <= j < n ==> #[trigger] self.rank_caches()[j] == before[j],
                out@ == base + flat(r as nat, f),
            decreases self.caches@.len() - r,
        {
            let ghost held = self.rank_caches();
            let rank: usize = r;
            proof {
                assert(held[r as int] == before[r as int]);
                assert(self.rank_ids()[r as int] == rank);
            }
            reset_rank(rank, &mut self.caches[r], out);
            proof {
                assert(self.rank_ids() =~= ids);
                assert(self.rank_caches()[r as int] == all_cleared(before[r as int]));
                assert forall|j: int| 0 <= j < n && j != r implies #[trigger] self.rank_caches()[j]
                    == held[j] by {}
                assert(out@ =~= base + flat((r + 1) as nat, f));
            }
            r = r + 1;
        }
        proof {
            assert(self.rank_caches() =~= Seq::new(n, |r: int| all_cleared(before[r])));
        }
    }

    /// What `dispose` gives back.
    pub open spec fn spec_frees(&self) -> Seq<RankFree> {
        if self.disposed {
            seq![]
        } else {
            flat(
                self.rank_ids().len(),
                |r: int|
                    rank_frees(
                        RankId(self.rank_ids()[r] as u32),
                        caches_frees(self.rank_caches()[r]),
                    ),
            )
        }
    }

    /// Lists the allocations of every rank to give back, once.
    pub fn dispose(&mut self) -> (v: Vec<RankFree>)
        ensures
            v@ == old(self).spec_frees(),
            final(self).disposed,
            old(self).disposed ==> *final(self) == *old(self),
            !old(self).disposed ==> final(self).rank_caches().len() == 0,
    {
        let mut v: Vec<RankFree> = Vec::new();
        if self.disposed {
            proof {
                assert(v@ =~= old(self).spec_frees());
            }
            return v;
        }
        let ghost n = self.rank_ids().len();
        let ghost ids = self.rank_ids();
        let ghost before = self.rank_caches();
        let ghost f = |r: int| rank_frees(RankId(ids[r] as u32), caches_frees(before[r]));
        proof {
            assert(v@ =~= flat(0, f));
        }
        let mut r: usize = 0;
        while r < self.caches.len()
            invariant
                r <= self.caches@.len(),
                self.caches@.len() == n,
                n == ids.len(),
                n == before.len(),
                before == old(self).rank_caches(),
                ids == old(self).rank_ids(),
                self.rank_ids() == ids,
                self.disposed == old(self).disposed,
                self.rank_caches() == before,
                f == (|r: int| rank_frees(RankId(ids[r] as u32), caches_frees(before[r]))),
                v@ == flat(r as nat, f),
            decreases self.caches@.len() - r,
        {
            let rank: usize = r;
            let frees = list_frees(&self.caches[r]);
            push_rank_frees(RankId(rank as u32), &frees, &mut v);
            proof {
                assert(self.rank_ids()[r as int] == rank);
                assert(self.rank_caches()[r as int] == before[r as int]);
                assert(f(r as int) == rank_frees(RankId(rank as u32), frees@));
            }
            r = r + 1;
        }
        proof {
            let g = |r: int|
                rank_frees(
                    RankId(old(self).rank_ids()[r] as u32),
                    caches_frees(old(self).rank_caches()[r]),
                );
            lemma_flat_same(n, f, g);
        }
        self.disposed = true;
        self.caches = Vec::new();
        v
    }
}

/// A new mesh session is fresh on every rank once it has done what it does first:
/// no token is cached, and both buffers of every recurrent layer hold zeros.
pub proof fn law_new_mesh_session_is_fresh(
    model: Qwen3MoETpModel,
    kv: KvLayout,
    placed: Seq<Vec<PlacedCache>>,
    s: Qwen3MoETpSession,
    mem: Memory,
)
    requires
        ({
            let n = model.config.num_layers as nat;
            let run = place_ranks_run_tp(
                model.config,
                model.tp.spec_world(),
                false,
                kv,
                0,
                n,
                placed,
            );
            run.err is None && s.rank_caches() == run.ops
        }),
        placed.len() <= usize::MAX,
        forall|r: int| 0 <= r < placed.len() ==> live_apart(#[trigger] s.rank_caches()[r]),
    ensures
        s.rank_caches().len() == placed.len(),
        forall|r: int, il: int|
            0 <= r < placed.len() && 0 <= il < model.config.num_layers ==> fresh(
                #[trigger] s.rank_caches()[r][il],
                s.rank_ids()[r],
                after_ops(mem, start_ops(s.rank_ids(), s.rank_caches())),
            ),
{
    let n = model.config.num_layers as nat;
    let w = model.tp.spec_world();
    let f = |r: int| rank_step(place_run_tp(model.config, w, false, kv, 0, n, placed[r]@));
    lemma_each_ones(placed.len(), f);
    assert forall|r: int, i: int|
        0 <= r < placed.len() && 0 <= i < s.rank_caches()[r].len() implies is_placed(
        #[trigger] s.rank_caches()[r][i],
    ) by {
        assert(f(r).err is None);
        lemma_place_run_tp_places(model.config, w, false, kv, 0, n, placed[r]@);
    }
    assert forall|r: int| 0 <= r < placed.len() implies (#[trigger] s.rank_caches()[r]).len()
        == n by {
        assert(f(r).err is None);
        lemma_place_run_tp_places(model.config, w, false, kv, 0, n, placed[r]@);
    }
    law_new_session_is_fresh(s.rank_ids(), s.rank_caches(), mem);
}

/// Restoring a mesh session undoes whatever happened to its recurrent layers since
/// it was saved, on every rank, and restoring it once more changes nothing. `kept`
/// is the session as `save_gdn_snapshot` left it and `was` the memory then, `later`
/// the session when it is restored, with the same recurrent layers, and `now` the
/// memory then, with the snapshots as saving left them.
pub proof fn law_mesh_restore_undoes_steps(
    kept: Qwen3MoETpSession,
    later: Qwen3MoETpSession,
    was: Memory,
    now: Memory,
)
    requires
        kept.caches@.len() <= usize::MAX,
        later.rank_caches().len() == kept.rank_caches().len(),
        forall|r: int|
            0 <= r < kept.rank_caches().len() ==> separate(#[trigger] kept.rank_caches()[r])
                && same_recurrent(kept.rank_caches()[r], later.rank_caches()[r]),
        forall|r: int, i: int, p: DevicePtr|
            0 <= r < kept.rank_caches().len() && 0 <= i < kept.rank_caches()[r].len()
                && #[trigger] in_snapshot(kept.rank_caches()[r][i], p) ==> now[(r as usize, p)]
                == after_ops(was, save_session_ops(kept.rank_ids(), kept.rank_caches()))[(
                r as usize,
                p,
            )],
    ensures
        ({
            let ids = later.rank_ids();
            let caches = later.rank_caches();
            let run = restore_session_run(Site::Tensor, ids, caches);
            let after = after_ops(now, run.ops);
            &&& run.err is None
            &&& forall|r: int, i: int|
                0 <= r < caches.len() && 0 <= i < caches[r].len() ==> same_live(
                    #[trigger] caches[r][i],
                    ids[r],
                    after,
                    was,
                )
            &&& forall|k: (usize, DevicePtr)|
                !live_in_session(ids, caches, k) ==> #[trigger] after[k] == now[k]
            &&& forall|k: (usize, DevicePtr)| #[trigger] after_ops(after, run.ops)[k] == after[k]
        }),
{
    assert(later.rank_ids() =~= kept.rank_ids());
    let ids = kept.rank_ids();
    let caches = kept.rank_caches();
    assert forall|r: int| 0 <= r < ids.len() implies separate(#[trigger] caches[r]) by {}
    assert forall|r: int| 0 <= r < ids.len() implies same_recurrent(
        #[trigger] caches[r],
        later.rank_caches()[r],
    ) by {}
    law_session_restore_undoes_steps(
        Site::Tensor,
        ids,
        caches,
        later.rank_caches(),
        was,
        now,
    );
}

} // verus!
