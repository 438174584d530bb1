//! What saving, restoring, resetting and taking back do to the state of a
//! sequence as a whole.

use crate::config::Qwen3MoEConfig;
use crate::device::DevicePtr;
use crate::plan::{each, flat, lemma_each_fails, lemma_each_ones, lemma_each_same};
use crate::session::{
    cache_spec, cache_spec_tp, first_stuck, rolled_back_upto, KvCache, KvLayout, LayerCache,
    LayerCacheSpec, SessionError,
};
use crate::state_ops::{
    all_cleared, cleared, place_run, place_run_tp, place_step, placed_cache, reset_ops,
    reset_rank_ops, restore_rank_run, restore_run, restore_session_run, restore_step, rolled,
    save_all_ops, save_ops, save_session_ops, start_ops, zero_ops, PlacedCache, Site, StateOp,
};
use vstd::prelude::*;

verus! {

/// What the device buffers hold, by rank and address.
pub type Memory = Map<(usize, DevicePtr), Seq<u8>>;

/// The memory after an operation.
pub open spec fn after_op(mem: Memory, op: StateOp) -> Memory {
    match op {
        StateOp::Copy { rank, dst, src, bytes } => mem.insert((rank, dst), mem[(rank, src)]),
        StateOp::Zero { rank, ptr, bytes } => mem.insert(
            (rank, ptr),
            Seq::new(bytes as nat, |i: int| 0u8),
        ),
        StateOp::Sync { rank } => mem,
    }
}

/// The memory after a list of operations.
pub open spec fn after_ops(mem: Memory, ops: Seq<StateOp>) -> Memory
    decreases ops.len(),
{
    if ops.len() == 0 {
        mem
    } else {
        after_op(after_ops(mem, ops.drop_last()), ops.last())
    }
}

proof fn lemma_after_concat(mem: Memory, a: Seq<StateOp>, b: Seq<StateOp>)
    ensures
        after_ops(mem, a + b) == after_ops(after_ops(mem, a), b),
    decreases b.len(),
{
    if b.len() == 0 {
        assert(a + b =~= a);
    } else {
        lemma_after_concat(mem, a, b.drop_last());
        assert((a + b).drop_last() =~= a + b.drop_last());
        assert((a + b).last() == b.last());
    }
}

proof fn lemma_after_one(mem: Memory, op: StateOp)
    ensures
        after_ops(mem, seq![op]) == after_op(mem, op),
{
    assert(seq![op].drop_last() =~= Seq::<StateOp>::empty());
    assert(after_ops(mem, seq![op].drop_last()) == mem);
}

/// Waiting at the end changes nothing.
proof fn lemma_after_sync(mem: Memory, ops: Seq<StateOp>, rank: usize)
    ensures
        after_ops(mem, ops.push(StateOp::Sync { rank })) == after_ops(mem, ops),
{
    assert(ops.push(StateOp::Sync { rank }).drop_last() =~= ops);
}

/// Two buffers of a rank after two copies into them.
proof fn lemma_two_copies(
    mem: Memory,
    rank: usize,
    d1: DevicePtr,
    s1: DevicePtr,
    n1: usize,
    d2: DevicePtr,
    s2: DevicePtr,
    n2: usize,
)
    requires
        d1 != d2,
        d1 != s2,
    ensures
        ({
            let ops = seq![
                StateOp::Copy { rank, dst: d1, src: s1, bytes: n1 },
                StateOp::Copy { rank, dst: d2, src: s2, bytes: n2 },
            ];
            let after = after_ops(mem, ops);
            &&& after[(rank, d1)] == mem[(rank, s1)]
            &&& after[(rank, d2)] == mem[(rank, s2)]
            &&& forall|k: (usize, DevicePtr)|
                k != (rank, d1) && k != (rank, d2) ==> #[trigger] after[k] == mem[k]
        }),
{
    let a = StateOp::Copy { rank, dst: d1, src: s1, bytes: n1 };
    let b = StateOp::Copy { rank, dst: d2, src: s2, bytes: n2 };
    lemma_after_concat(mem, seq![a], seq![b]);
    assert(seq![a] + seq![b] =~= seq![a, b]);
    lemma_after_one(mem, a);
    lemma_after_one(after_op(mem, a), b);
}

/// The layer has a snapshot if it is recurrent.
pub open spec fn saved(c: LayerCache) -> bool {
    c matches LayerCache::Gdn(g) ==> g.snapshot_state is Some && g.snapshot_conv_history is Some
}

/// The address is one of the layer's two snapshot buffers.
pub open spec fn in_snapshot(c: LayerCache, p: DevicePtr) -> bool {
    c matches LayerCache::Gdn(g) && (g.snapshot_state == Some(p) || g.snapshot_conv_history == Some(
        p,
    ))
}

/// The address is one of the layer's two live buffers.
pub open spec fn is_live(c: LayerCache, p: DevicePtr) -> bool {
    c matches LayerCache::Gdn(g) && (g.state == p || g.conv_history == p)
}

/// No two live buffers of the recurrent layers are the same.
pub open spec fn live_apart(caches: Seq<LayerCache>) -> bool {
    &&& forall|i: int|
        0 <= i < caches.len() ==> (#[trigger] caches[i] matches LayerCache::Gdn(g) ==> g.state
            != g.conv_history)
    &&& forall|i: int, j: int, p: DevicePtr|
        0 <= i < j < caches.len() && #[trigger] is_live(caches[i], p) ==> !(#[trigger] is_live(
            caches[j],
            p,
        ))
}

/// Every recurrent layer has a snapshot, and no two buffers are the same.
pub open spec fn separate(caches: Seq<LayerCache>) -> bool {
    &&& forall|i: int| 0 <= i < caches.len() ==> saved(#[trigger] caches[i])
    &&& live_apart(caches)
    &&& forall|i: int|
        0 <= i < caches.len() ==> (#[trigger] caches[i] matches LayerCache::Gdn(g)
            ==> g.snapshot_state != g.snapshot_conv_history)
    &&& forall|i: int, j: int, p: DevicePtr|
        0 <= i < caches.len() && 0 <= j < caches.len() && #[trigger] is_live(caches[i], p)
            ==> !(#[trigger] in_snapshot(caches[j], p))
    &&& forall|i: int, j: int, p: DevicePtr|
        0 <= i < j < caches.len() && #[trigger] in_snapshot(caches[i], p)
            ==> !(#[trigger] in_snapshot(caches[j], p))
}

/// The layer's live buffers on `rank` hold in `a` what they hold in `b`.
pub open spec fn same_live(c: LayerCache, rank: usize, a: Memory, b: Memory) -> bool {
    c matches LayerCache::Gdn(g) ==> a[(rank, g.state)] == b[(rank, g.state)] && a[(
        rank,
        g.conv_history,
    )] == b[(rank, g.conv_history)]
}

/// The layer's snapshot on `rank` holds in `a` what its live buffers hold in `b`.
pub open spec fn snapshot_of(c: LayerCache, rank: usize, a: Memory, b: Memory) -> bool {
    c matches LayerCache::Gdn(g) ==> a[(rank, g.snapshot_state->Some_0)] == b[(rank, g.state)]
        && a[(rank, g.snapshot_conv_history->Some_0)] == b[(rank, g.conv_history)]
}

/// The memory after the first `n` layers of a rank are saved.
spec fn saved_mem(rank: usize, caches: Seq<LayerCache>, mem: Memory, n: nat) -> Memory {
    after_ops(mem, flat(n, |i: int| save_ops(rank, caches[i])))
}

/// The memory after the first `n` layers of a rank are restored.
spec fn restored_mem(
    site: Site,
    rank: usize,
    caches: Seq<LayerCache>,
    mem: Memory,
    n: nat,
) -> Memory {
    after_ops(mem, each(n, |i: int| restore_step(site, rank, caches[i], i)).ops)
}

/// After saving the first `n` layers their snapshots hold their states, and
/// nothing but those snapshots has changed.
proof fn lemma_saved(rank: usize, caches: Seq<LayerCache>, mem: Memory, n: nat)
    requires
        separate(caches),
        n <= caches.len(),
    ensures
        forall|i: int|
            0 <= i < n ==> snapshot_of(
                #[trigger] caches[i],
                rank,
                saved_mem(rank, caches, mem, n),
                mem,
            ),
        forall|k: (usize, DevicePtr)|
            (k.0 != rank || forall|i: int| 0 <= i < n ==> !(#[trigger] in_snapshot(caches[i], k.1)))
                ==> #[trigger] saved_mem(rank, caches, mem, n)[k] == mem[k],
    decreases n,
{
    let f = |i: int| save_ops(rank, caches[i]);
    if n > 0 {
        let k = n - 1;
        let m = k as nat;
        lemma_saved(rank, caches, mem, m);
        let before = saved_mem(rank, caches, mem, m);
        lemma_after_concat(mem, flat(m, f), f(k));
        let after = saved_mem(rank, caches, mem, n);
        assert(after == after_ops(before, f(k)));
        match caches[k] {
            LayerCache::Gdn(g) => {
                assert(saved(caches[k]));
                let s = g.snapshot_state->Some_0;
                let h = g.snapshot_conv_history->Some_0;
                assert(is_live(caches[k], g.state) && is_live(caches[k], g.conv_history));
                assert(in_snapshot(caches[k], s) && in_snapshot(caches[k], h));
                lemma_two_copies(
                    before,
                    rank,
                    s,
                    g.state,
                    g.state_bytes,
                    h,
                    g.conv_history,
                    g.conv_history_bytes,
                );
                assert(before[(rank, g.state)] == mem[(rank, g.state)]);
                assert(before[(rank, g.conv_history)] == mem[(rank, g.conv_history)]);
                assert forall|i: int| 0 <= i < n implies snapshot_of(
                    #[trigger] caches[i],
                    rank,
                    after,
                    mem,
                ) by {
                    if i < k {
                        if let LayerCache::Gdn(q) = caches[i] {
                            assert(saved(caches[i]));
                            assert(in_snapshot(caches[i], q.snapshot_state->Some_0));
                            assert(in_snapshot(caches[i], q.snapshot_conv_history->Some_0));
                        }
                    }
                }
                assert forall|q: (usize, DevicePtr)|
                    (q.0 != rank || forall|i: int| 0 <= i < n ==> !(#[trigger] in_snapshot(
                        caches[i],
                        q.1,
                    ))) implies #[trigger] after[q] == mem[q] by {
                    if q.0 == rank {
                        assert(!in_snapshot(caches[k], q.1));
                    }
                    assert(before[q] == mem[q]);
                }
            },
            _ => {
                assert(f(k) =~= seq![]);
                assert(flat(n, f) =~= flat(m, f));
            },
        }
    }
}

/// After restoring the first `n` layers their live buffers hold their
/// snapshots, and nothing but those live buffers has changed.
proof fn lemma_restored(site: Site, rank: usize, caches: Seq<LayerCache>, mem: Memory, n: nat)
    requires
        separate(caches),
        n <= caches.len(),
    ensures
        each(n, |i: int| restore_step(site, rank, caches[i], i)).err is None,
        forall|i: int|
            0 <= i < n ==> snapshot_of(
                #[trigger] caches[i],
                rank,
                mem,
                restored_mem(site, rank, caches, mem, n),
            ),
        forall|k: (usize, DevicePtr)|
            (k.0 != rank || forall|i: int| 0 <= i < n ==> !(#[trigger] is_live(caches[i], k.1)))
                ==> #[trigger] restored_mem(site, rank, caches, mem, n)[k] == mem[k],
    decreases n,
{
    let f = |i: int| restore_step(site, rank, caches[i], i);
    if n > 0 {
        let k = n - 1;
        let m = k as nat;
        lemma_restored(site, rank, caches, mem, m);
        assert(saved(caches[k]));
        let before = restored_mem(site, rank, caches, mem, m);
        lemma_after_concat(mem, each(m, f).ops, f(k).ops);
        let after = restored_mem(site, rank, caches, mem, n);
        assert(after == after_ops(before, f(k).ops));
        match caches[k] {
            LayerCache::Gdn(g) => {
                let s = g.snapshot_state->Some_0;
                let h = g.snapshot_conv_history->Some_0;
                assert(is_live(caches[k], g.state) && is_live(caches[k], g.conv_history));
                assert(in_snapshot(caches[k], s) && in_snapshot(caches[k], h));
                lemma_two_copies(
                    before,
                    rank,
                    g.state,
                    s,
                    g.state_bytes,
                    g.conv_history,
                    h,
                    g.conv_history_bytes,
                );
                assert(before[(rank, s)] == mem[(rank, s)]);
                assert(before[(rank, h)] == mem[(rank, h)]);
                assert forall|i: int| 0 <= i < n implies snapshot_of(
                    #[trigger] caches[i],
                    rank,
                    mem,
                    after,
                ) by {
                    if i < k {
                        if let LayerCache::Gdn(q) = caches[i] {
                            assert(is_live(caches[i], q.state));
                            assert(is_live(caches[i], q.conv_history));
                        }
                    }
                }
                assert forall|q: (usize, DevicePtr)|
                    (q.0 != rank || forall|i: int| 0 <= i < n ==> !(#[trigger] is_live(
                        caches[i],
                        q.1,
                    ))) implies #[trigger] after[q] == mem[q] by {
                    if q.0 == rank {
                        assert(!is_live(caches[k], q.1));
                    }
                    assert(before[q] == mem[q]);
                }
            },
            _ => {
                assert(f(k).ops =~= seq![]);
                assert(each(n, f).ops =~= each(m, f).ops);
            },
        }
    }
}

/// Restoring undoes whatever happened to the recurrent layers of one device since
/// they were saved: if `now` still has the snapshots that saving made of `was`,
/// then after restoring every live buffer holds what it held in `was`. Restoring
/// does not fail.
pub proof fn law_restore_undoes_steps(
    site: Site,
    rank: usize,
    caches: Seq<LayerCache>,
    was: Memory,
    now: Memory,
    il: int,
)
    requires
        separate(caches),
        0 <= il < caches.len(),
        forall|i: int, p: DevicePtr|
            0 <= i < caches.len() && #[trigger] in_snapshot(caches[i], p) ==> now[(rank, p)]
                == after_ops(was, save_all_ops(rank, caches))[(rank, p)],
    ensures
        restore_run(site, rank, caches).err is None,
        same_live(
            caches[il],
            rank,
            after_ops(now, restore_run(site, rank, caches).ops),
            was,
        ),
{
    lemma_saved(rank, caches, was, caches.len());
    lemma_restored(site, rank, caches, now, caches.len());
    assert(saved(caches[il]));
    if let LayerCache::Gdn(g) = caches[il] {
        assert(in_snapshot(caches[il], g.snapshot_state->Some_0));
        assert(in_snapshot(caches[il], g.snapshot_conv_history->Some_0));
    }
}

/// No two ranks have the same number.
pub open spec fn ranks_differ(ids: Seq<usize>) -> bool {
    forall|a: int, b: int|
        0 <= a < b < ids.len() ==> #[trigger] ids[a] != #[trigger] ids[b]
}

/// The buffer belongs to the live state of the session.
pub open spec fn live_in_session(
    ids: Seq<usize>,
    caches: Seq<Seq<LayerCache>>,
    k: (usize, DevicePtr),
) -> bool {
    exists|r: int, i: int|
        0 <= r < ids.len() && 0 <= i < caches[r].len() && ids[r] == k.0 && #[trigger] is_live(
            caches[r][i],
            k.1,
        )
}

/// The session is saved on every rank, and no two buffers of a rank are the same.
pub open spec fn session_separate(ids: Seq<usize>, caches: Seq<Seq<LayerCache>>) -> bool {
    &&& ids.len() == caches.len()
    &&& ranks_differ(ids)
    &&& forall|r: int| 0 <= r < ids.len() ==> separate(#[trigger] caches[r])
}

proof fn lemma_session_saved(
    ids: Seq<usize>,
    caches: Seq<Seq<LayerCache>>,
    mem: Memory,
    n: nat,
)
    requires
        session_separate(ids, caches),
        n <= ids.len(),
    ensures
        ({
            let f = |r: int|
                save_all_ops(ids[r], caches[r]).push(StateOp::Sync { rank: ids[r] });
            let after = after_ops(mem, flat(n, f));
            &&& forall|r: int, i: int|
                0 <= r < n && 0 <= i < caches[r].len() ==> snapshot_of(
                    #[trigger] caches[r][i],
                    ids[r],
                    after,
                    mem,
                )
            &&& forall|k: (usize, DevicePtr)|
                (forall|r: int| 0 <= r < n ==> #[trigger] ids[r] != k.0) ==> #[trigger] after[k]
                    == mem[k]
        }),
    decreases n,
{
    let f = |r: int| save_all_ops(ids[r], caches[r]).push(StateOp::Sync { rank: ids[r] });
    if n > 0 {
        let q = n - 1;
        let m = q as nat;
        let rank = ids[q];
        let own = caches[q];
        lemma_session_saved(ids, caches, mem, m);
        let before = after_ops(mem, flat(m, f));
        let after = after_ops(mem, flat(n, f));
        lemma_after_concat(mem, flat(m, f), f(q));
        lemma_after_sync(before, save_all_ops(rank, own), rank);
        assert(separate(own));
        lemma_saved(rank, own, before, own.len());
        assert(after == saved_mem(rank, own, before, own.len()));
        assert forall|r: int, i: int| 0 <= r < n && 0 <= i < caches[r].len() implies snapshot_of(
            #[trigger] caches[r][i],
            ids[r],
            after,
            mem,
        ) by {
            if let LayerCache::Gdn(g) = caches[r][i] {
                if r < q {
                    assert(ids[r] != ids[q]);
                    assert(snapshot_of(caches[r][i], ids[r], before, mem));
                } else {
                    assert(snapshot_of(own[i], rank, after, before));
                    assert(forall|a: int| 0 <= a < m ==> #[trigger] ids[a] != ids[q]);
                    assert(before[(rank, g.state)] == mem[(rank, g.state)]);
                    assert(before[(rank, g.conv_history)] == mem[(rank, g.conv_history)]);
                }
            }
        }
        assert forall|k: (usize, DevicePtr)|
            (forall|r: int| 0 <= r < n ==> #[trigger] ids[r] != k.0) implies #[trigger] after[k]
            == mem[k] by {
            assert(ids[q] != k.0);
            assert(before[k] == mem[k]);
        }
    }
}

proof fn lemma_session_restored(
    site: Site,
    ids: Seq<usize>,
    caches: Seq<Seq<LayerCache>>,
    mem: Memory,
    n: nat,
)
    requires
        session_separate(ids, caches),
        n <= ids.len(),
    ensures
        ({
            let f = |r: int| restore_rank_run(site, ids[r], caches[r]);
            let after = after_ops(mem, each(n, f).ops);
            &&& each(n, f).err is None
            &&& forall|r: int, i: int|
                0 <= r < n && 0 <= i < caches[r].len() ==> snapshot_of(
                    #[trigger] caches[r][i],
                    ids[r],
                    mem,
                    after,
                )
            &&& forall|k: (usize, DevicePtr)|
                (forall|r: int| 0 <= r < n ==> #[trigger] ids[r] != k.0) ==> #[trigger] after[k]
                    == mem[k]
            &&& forall|k: (usize, DevicePtr)|
                !live_in_session(ids, caches, k) ==> #[trigger] after[k] == mem[k]
        }),
    decreases n,
{
    let f = |r: int| restore_rank_run(site, ids[r], caches[r]);
    if n > 0 {
        let q = n - 1;
        let m = q as nat;
        let rank = ids[q];
        let own = caches[q];
        lemma_session_restored(site, ids, caches, mem, m);
        let before = after_ops(mem, each(m, f).ops);
        let after = after_ops(mem, each(n, f).ops);
        assert(separate(own));
        lemma_restored(site, rank, own, before, own.len());
        let run = restore_run(site, rank, own);
        assert(f(q).ops =~= run.ops.push(StateOp::Sync { rank }));
        lemma_after_concat(mem, each(m, f).ops, f(q).ops);
        lemma_after_sync(before, run.ops, rank);
        assert(after == restored_mem(site, rank, own, before, own.len()));
        assert forall|r: int, i: int| 0 <= r < n && 0 <= i < caches[r].len() implies snapshot_of(
            #[trigger] caches[r][i],
            ids[r],
            mem,
            after,
        ) by {
            if let LayerCache::Gdn(g) = caches[r][i] {
                if r < q {
                    assert(ids[r] != ids[q]);
                    assert(snapshot_of(caches[r][i], ids[r], mem, before));
                } else {
                    assert(snapshot_of(own[i], rank, before, after));
                    assert(forall|a: int| 0 <= a < m ==> #[trigger] ids[a] != ids[q]);
                    assert(before[(rank, g.snapshot_state->Some_0)] == mem[(
                        rank,
                        g.snapshot_state->Some_0,
                    )]);
                    assert(before[(rank, g.snapshot_conv_history->Some_0)] == mem[(
                        rank,
                        g.snapshot_conv_history->Some_0,
                    )]);
                }
            }
        }
        assert forall|k: (usize, DevicePtr)|
            (forall|r: int| 0 <= r < n ==> #[trigger] ids[r] != k.0) implies #[trigger] after[k]
            == mem[k] by {
            assert(ids[q] != k.0);
            assert(before[k] == mem[k]);
        }
        assert forall|k: (usize, DevicePtr)| !live_in_session(ids, caches, k) implies
            #[trigger] after[k] == mem[k] by {
            assert(before[k] == mem[k]);
            if k.0 == rank {
                assert forall|i: int| 0 <= i < own.len() implies !(#[trigger] is_live(
                    own[i],
                    k.1,
                )) by {
                    assert(own[i] == caches[q][i]);
                }
            }
        }
    }
}

/// The caches have the same recurrent layers; those of the other layers may hold
/// other tokens.
pub open spec fn same_recurrent(a: Seq<LayerCache>, b: Seq<LayerCache>) -> bool {
    &&& a.len() == b.len()
    &&& forall|i: int|
        0 <= i < a.len() ==> (#[trigger] a[i] is Gdn || b[i] is Gdn ==> a[i] == b[i])
}

proof fn lemma_restore_same(
    site: Site,
    ids: Seq<usize>,
    a: Seq<Seq<LayerCache>>,
    b: Seq<Seq<LayerCache>>,
)
    requires
        a.len() == ids.len(),
        b.len() == ids.len(),
        forall|r: int| 0 <= r < ids.len() ==> same_recurrent(#[trigger] a[r], b[r]),
    ensures
        restore_session_run(site, ids, a) == restore_session_run(site, ids, b),
{
    let f = |r: int| restore_rank_run(site, ids[r], a[r]);
    let g = |r: int| restore_rank_run(site, ids[r], b[r]);
    assert forall|r: int| 0 <= r < ids.len() implies #[trigger] f(r) == g(r) by {
        assert(same_recurrent(a[r], b[r]));
        let x = |i: int| restore_step(site, ids[r], a[r][i], i);
        let y = |i: int| restore_step(site, ids[r], b[r][i], i);
        assert forall|i: int| 0 <= i < a[r].len() implies #[trigger] x(i) == y(i) by {
            assert(a[r][i] is Gdn || b[r][i] is Gdn ==> a[r][i] == b[r][i]);
        }
        lemma_each_same(a[r].len(), x, y);
    }
    lemma_each_same(ids.len(), f, g);
}

/// Restoring a session undoes whatever happened to its recurrent layers since
/// they were saved. `kept` are the caches as saving left them, `later` the caches
/// when the session is restored, with the same recurrent layers, and `now` the
/// memory then, with the snapshots that saving made of `was`. Restoring does not
/// fail, every live buffer of every rank holds what it held in `was`, and nothing
/// else changes. Restoring once more changes nothing.
pub proof fn law_session_restore_undoes_steps(
    site: Site,
    ids: Seq<usize>,
    kept: Seq<Seq<LayerCache>>,
    later: Seq<Seq<LayerCache>>,
    was: Memory,
    now: Memory,
)
    requires
        session_separate(ids, kept),
        later.len() == ids.len(),
        forall|r: int| 0 <= r < ids.len() ==> same_recurrent(#[trigger] kept[r], later[r]),
        forall|r: int, i: int, p: DevicePtr|
            0 <= r < ids.len() && 0 <= i < kept[r].len() && #[trigger] in_snapshot(kept[r][i], p)
                ==> now[(ids[r], p)] == after_ops(was, save_session_ops(ids, kept))[(ids[r], p)],
    ensures
        ({
            let run = restore_session_run(site, ids, later);
            let after = after_ops(now, run.ops);
            &&& run.err is None
            &&& forall|r: int, i: int|
                0 <= r < ids.len() && 0 <= i < later[r].len() ==> same_live(
                    #[trigger] later[r][i],
                    ids[r],
                    after,
                    was,
                )
            &&& forall|k: (usize, DevicePtr)|
                !live_in_session(ids, later, k) ==> #[trigger] after[k] == now[k]
            &&& forall|k: (usize, DevicePtr)| #[trigger] after_ops(after, run.ops)[k] == after[k]
        }),
{
    lemma_restore_same(site, ids, kept, later);
    let run = restore_session_run(site, ids, kept);
    let after = after_ops(now, run.ops);
    let again = after_ops(after, run.ops);
    lemma_session_saved(ids, kept, was, ids.len());
    lemma_session_restored(site, ids, kept, now, ids.len());
    lemma_session_restored(site, ids, kept, after, ids.len());
    assert forall|r: int, i: int| 0 <= r < ids.len() && 0 <= i < later[r].len() implies same_live(
        #[trigger] later[r][i],
        ids[r],
        after,
        was,
    ) by {
        assert(same_recurrent(kept[r], later[r]));
        assert(kept[r][i] is Gdn || later[r][i] is Gdn ==> kept[r][i] == later[r][i]);
        if let LayerCache::Gdn(g) = later[r][i] {
            assert(separate(kept[r]));
            assert(saved(kept[r][i]));
            assert(in_snapshot(kept[r][i], g.snapshot_state->Some_0));
            assert(in_snapshot(kept[r][i], g.snapshot_conv_history->Some_0));
            assert(snapshot_of(kept[r][i], ids[r], now, after));
        }
    }
    assert forall|k: (usize, DevicePtr)| live_in_session(ids, kept, k) implies live_in_session(
        ids,
        later,
        k,
    ) by {
        let (r, i) = choose|r: int, i: int|
            0 <= r < ids.len() && 0 <= i < kept[r].len() && ids[r] == k.0 && #[trigger] is_live(
                kept[r][i],
                k.1,
            );
        assert(same_recurrent(kept[r], later[r]));
        assert(kept[r][i] == later[r][i]);
        assert(is_live(later[r][i], k.1));
    }
    assert forall|k: (usize, DevicePtr)| !live_in_session(ids, later, k) implies
        #[trigger] after[k] == now[k] by {
        assert(!live_in_session(ids, kept, k));
    }
    assert forall|k: (usize, DevicePtr)| #[trigger] again[k] == after[k] by {
        if live_in_session(ids, kept, k) {
            let (r, i) = choose|r: int, i: int|
                0 <= r < ids.len() && 0 <= i < kept[r].len() && ids[r] == k.0
                    && #[trigger] is_live(kept[r][i], k.1);
            assert(separate(kept[r]));
            assert(saved(kept[r][i]));
            assert(snapshot_of(kept[r][i], ids[r], now, after));
            assert(snapshot_of(kept[r][i], ids[r], after, again));
            if let LayerCache::Gdn(g) = kept[r][i] {
                lemma_snapshot_not_live(ids, kept, r, i, g.snapshot_state->Some_0);
                lemma_snapshot_not_live(ids, kept, r, i, g.snapshot_conv_history->Some_0);
            }
        }
    }
}

/// A snapshot is no live buffer.
proof fn lemma_snapshot_not_live(
    ids: Seq<usize>,
    caches: Seq<Seq<LayerCache>>,
    r: int,
    i: int,
    p: DevicePtr,
)
    requires
        session_separate(ids, caches),
        0 <= r < ids.len(),
        0 <= i < caches[r].len(),
        in_snapshot(caches[r][i], p),
    ensures
        !live_in_session(ids, caches, (ids[r], p)),
{
    if live_in_session(ids, caches, (ids[r], p)) {
        let (a, b) = choose|a: int, b: int|
            0 <= a < ids.len() && 0 <= b < caches[a].len() && ids[a] == ids[r]
                && #[trigger] is_live(caches[a][b], p);
        assert(a == r);
        assert(separate(caches[r]));
    }
}

/// A session with a recurrent layer that was never saved cannot be restored.
pub proof fn law_restore_needs_a_save(
    site: Site,
    ids: Seq<usize>,
    caches: Seq<Seq<LayerCache>>,
    r: int,
    il: int,
)
    requires
        caches.len() == ids.len(),
        0 <= r < ids.len(),
        0 <= il < caches[r].len(),
        !saved(caches[r][il]),
    ensures
        restore_session_run(site, ids, caches).err is Some,
{
    let f = |i: int| restore_step(site, ids[r], caches[r][i], i);
    lemma_each_fails(caches[r].len(), f, il);
    let g = |r: int| restore_rank_run(site, ids[r], caches[r]);
    assert(g(r).err is Some);
    lemma_each_fails(ids.len(), g, r);
}

/// Taking back as many tokens as were appended gives the caches as they were.
pub proof fn law_rollback_undoes_append(
    site: Site,
    rank: usize,
    before: Seq<LayerCache>,
    after: Seq<LayerCache>,
    n: usize,
)
    requires
        before.len() == after.len(),
        forall|i: int|
            0 <= i < before.len() ==> appended(#[trigger] before[i], after[i], n),
    ensures
        rolled(site, rank, after, n) == (before, None::<SessionError>),
{
    lemma_none_stuck(before, after, n, after.len());
    assert(rolled_back_upto(after, n as nat, after.len()) =~= before) by {
        assert forall|i: int| 0 <= i < after.len() implies #[trigger] rolled_back_upto(
            after,
            n as nat,
            after.len(),
        )[i] == before[i] by {
            assert(appended(before[i], after[i], n));
        }
    }
}

/// `after` is `before` with `n` more tokens; a recurrent layer is as it was.
pub open spec fn appended(before: LayerCache, after: LayerCache, n: usize) -> bool {
    match (before, after) {
        (LayerCache::FullAttn(a), LayerCache::FullAttn(b)) => a.current_tokens + n
            == b.current_tokens && a == (KvCache { current_tokens: a.current_tokens, ..b }),
        (LayerCache::FullAttnQ8(a), LayerCache::FullAttnQ8(b)) => a.current_tokens + n
            == b.current_tokens && a == (KvCache { current_tokens: a.current_tokens, ..b }),
        (LayerCache::Gdn(a), LayerCache::Gdn(b)) => a == b,
        _ => false,
    }
}

proof fn lemma_none_stuck(
    before: Seq<LayerCache>,
    after: Seq<LayerCache>,
    n: usize,
    k: nat,
)
    requires
        before.len() == after.len(),
        k <= after.len(),
        forall|i: int|
            0 <= i < before.len() ==> appended(#[trigger] before[i], after[i], n),
    ensures
        first_stuck(after, n as nat, k) is None,
    decreases k,
{
    if k > 0 {
        lemma_none_stuck(before, after, n, (k - 1) as nat);
        assert(appended(before[k - 1], after[k - 1], n));
    }
}

/// The buffer holds `bytes` zeros; of an empty buffer nothing is said.
pub open spec fn zeroed(mem: Memory, rank: usize, p: DevicePtr, bytes: usize) -> bool {
    bytes > 0 ==> mem[(rank, p)] == Seq::new(bytes as nat, |i: int| 0u8)
}

/// The layer is as at the start of a sequence: no token is cached, and the
/// recurrent state is zero.
pub open spec fn fresh(c: LayerCache, rank: usize, mem: Memory) -> bool {
    match c {
        LayerCache::FullAttn(kv) => kv.current_tokens == 0,
        LayerCache::FullAttnQ8(kv) => kv.current_tokens == 0,
        LayerCache::Gdn(g) => zeroed(mem, rank, g.state, g.state_bytes) && zeroed(
            mem,
            rank,
            g.conv_history,
            g.conv_history_bytes,
        ),
    }
}

/// The memory after the first `n` layers of a rank are reset.
spec fn reset_mem(rank: usize, caches: Seq<LayerCache>, mem: Memory, n: nat) -> Memory {
    after_ops(mem, flat(n, |i: int| reset_ops(rank, caches[i])))
}

proof fn lemma_zero_ops(mem: Memory, rank: usize, p: DevicePtr, bytes: usize)
    ensures
        zeroed(after_ops(mem, zero_ops(rank, p, bytes)), rank, p, bytes),
        forall|k: (usize, DevicePtr)|
            k != (rank, p) ==> #[trigger] after_ops(mem, zero_ops(rank, p, bytes))[k] == mem[k],
{
    if bytes > 0 {
        lemma_after_one(mem, StateOp::Zero { rank, ptr: p, bytes });
    }
}

/// After resetting the first `n` layers they are fresh, and nothing but their
/// live buffers has changed.
proof fn lemma_reset(rank: usize, caches: Seq<LayerCache>, mem: Memory, n: nat)
    requires
        live_apart(caches),
        n <= caches.len(),
    ensures
        forall|i: int|
            0 <= i < n ==> fresh(
                cleared(#[trigger] caches[i]),
                rank,
                reset_mem(rank, caches, mem, n),
            ),
        forall|k: (usize, DevicePtr)|
            (k.0 != rank || forall|i: int| 0 <= i < n ==> !(#[trigger] is_live(caches[i], k.1)))
                ==> #[trigger] reset_mem(rank, caches, mem, n)[k] == mem[k],
    decreases n,
{
    let f = |i: int| reset_ops(rank, caches[i]);
    if n > 0 {
        let k = n - 1;
        let m = k as nat;
        lemma_reset(rank, caches, mem, m);
        let before = reset_mem(rank, caches, mem, m);
        let after = reset_mem(rank, caches, mem, n);
        lemma_after_concat(mem, flat(m, f), f(k));
        match caches[k] {
            LayerCache::Gdn(g) => {
                let first = zero_ops(rank, g.state, g.state_bytes);
                let second = zero_ops(rank, g.conv_history, g.conv_history_bytes);
                let mid = after_ops(before, first);
                lemma_after_concat(before, first, second);
                lemma_zero_ops(before, rank, g.state, g.state_bytes);
                lemma_zero_ops(mid, rank, g.conv_history, g.conv_history_bytes);
                assert(after == after_ops(mid, second));
                assert(is_live(caches[k], g.state) && is_live(caches[k], g.conv_history));
                assert(after[(rank, g.state)] == mid[(rank, g.state)]);
                assert forall|i: int| 0 <= i < n implies fresh(
                    cleared(#[trigger] caches[i]),
                    rank,
                    after,
                ) by {
                    if i < k {
                        if let LayerCache::Gdn(q) = caches[i] {
                            let a = (rank, q.state);
                            let b = (rank, q.conv_history);
                            assert(is_live(caches[i], q.state));
                            assert(is_live(caches[i], q.conv_history));
                            assert(after[a] == mid[a] && mid[a] == before[a]);
                            assert(after[b] == mid[b] && mid[b] == before[b]);
                        }
                    }
                }
                assert forall|q: (usize, DevicePtr)|
                    (q.0 != rank || forall|i: int| 0 <= i < n ==> !(#[trigger] is_live(
                        caches[i],
                        q.1,
                    ))) implies #[trigger] after[q] == mem[q] by {
                    if q.0 == rank {
                        assert(!is_live(caches[k], q.1));
                    }
                    assert(after[q] == mid[q] && mid[q] == before[q]);
                }
            },
            _ => {
                assert(f(k) =~= seq![]);
                assert(flat(n, f) =~= flat(m, f));
            },
        }
    }
}

proof fn lemma_session_reset(
    ids: Seq<usize>,
    caches: Seq<Seq<LayerCache>>,
    mem: Memory,
    n: nat,
)
    requires
        caches.len() == ids.len(),
        ranks_differ(ids),
        forall|r: int| 0 <= r < ids.len() ==> live_apart(#[trigger] caches[r]),
        n <= ids.len(),
    ensures
        ({
            let after = after_ops(mem, flat(n, |r: int| reset_rank_ops(ids[r], caches[r])));
            &&& forall|r: int, i: int|
                0 <= r < n && 0 <= i < caches[r].len() ==> fresh(
                    cleared(#[trigger] caches[r][i]),
                    ids[r],
                    after,
                )
            &&& forall|k: (usize, DevicePtr)|
                !live_in_session(ids, caches, k) ==> #[trigger] after[k] == mem[k]
        }),
    decreases n,
{
    let f = |r: int| reset_rank_ops(ids[r], caches[r]);
    if n > 0 {
        let q = n - 1;
        let m = q as nat;
        let rank = ids[q];
        let own = caches[q];
        lemma_session_reset(ids, caches, mem, m);
        let before = after_ops(mem, flat(m, f));
        let after = after_ops(mem, flat(n, f));
        lemma_after_concat(mem, flat(m, f), f(q));
        lemma_after_sync(before, flat(own.len(), |i: int| reset_ops(rank, own[i])), rank);
        assert(live_apart(own));
        lemma_reset(rank, own, before, own.len());
        assert(after == reset_mem(rank, own, before, own.len()));
        assert forall|r: int, i: int| 0 <= r < n && 0 <= i < caches[r].len() implies fresh(
            cleared(#[trigger] caches[r][i]),
            ids[r],
            after,
        ) by {
            if r < q {
                assert(ids[r] != ids[q]);
                assert(fresh(cleared(caches[r][i]), ids[r], before));
                if let LayerCache::Gdn(g) = caches[r][i] {
                    assert(after[(ids[r], g.state)] == before[(ids[r], g.state)]);
                    assert(after[(ids[r], g.conv_history)] == before[(ids[r], g.conv_history)]);
                }
            } else {
                assert(fresh(cleared(own[i]), rank, after));
            }
        }
        assert forall|k: (usize, DevicePtr)| !live_in_session(ids, caches, k) implies
            #[trigger] after[k] == mem[k] by {
            assert(before[k] == mem[k]);
            if k.0 == rank {
                assert forall|i: int| 0 <= i < own.len() implies !(#[trigger] is_live(
                    own[i],
                    k.1,
                )) by {
                    assert(own[i] == caches[q][i]);
                }
            }
        }
    }
}

/// A reset session is as a new one: every layer of every rank is fresh. What is
/// not a live buffer of a recurrent layer, such as a snapshot, holds what it held.
pub proof fn law_reset_starts_afresh(
    ids: Seq<usize>,
    caches: Seq<Seq<LayerCache>>,
    mem: Memory,
)
    requires
        caches.len() == ids.len(),
        ranks_differ(ids),
        forall|r: int| 0 <= r < ids.len() ==> live_apart(#[trigger] caches[r]),
    ensures
        ({
            let after = after_ops(mem, start_ops(ids, caches));
            &&& forall|r: int, i: int|
                0 <= r < ids.len() && 0 <= i < caches[r].len() ==> fresh(
                    #[trigger] all_cleared(caches[r])[i],
                    ids[r],
                    after,
                )
            &&& forall|k: (usize, DevicePtr)|
                !live_in_session(ids, caches, k) ==> #[trigger] after[k] == mem[k]
        }),
{
    lemma_session_reset(ids, caches, mem, ids.len());
    let after = after_ops(mem, start_ops(ids, caches));
    assert forall|r: int, i: int| 0 <= r < ids.len() && 0 <= i < caches[r].len() implies fresh(
        #[trigger] all_cleared(caches[r])[i],
        ids[r],
        after,
    ) by {
        assert(all_cleared(caches[r])[i] == cleared(caches[r][i]));
    }
}

/// A new session is fresh: its caches hold no token, and what it does first fills
/// the recurrent state of every rank with zeros.
pub proof fn law_new_session_is_fresh(
    ids: Seq<usize>,
    caches: Seq<Seq<LayerCache>>,
    mem: Memory,
)
    requires
        caches.len() == ids.len(),
        ranks_differ(ids),
        forall|r: int| 0 <= r < ids.len() ==> live_apart(#[trigger] caches[r]),
        forall|r: int, i: int|
            0 <= r < ids.len() && 0 <= i < caches[r].len() ==> is_placed(
                #[trigger] caches[r][i],
            ),
    ensures
        forall|r: int, i: int|
            0 <= r < ids.len() && 0 <= i < caches[r].len() ==> fresh(
                #[trigger] caches[r][i],
                ids[r],
                after_ops(mem, start_ops(ids, caches)),
            ),
{
    lemma_session_reset(ids, caches, mem, ids.len());
    assert forall|r: int, i: int| 0 <= r < ids.len() && 0 <= i < caches[r].len() implies fresh(
        #[trigger] caches[r][i],
        ids[r],
        after_ops(mem, start_ops(ids, caches)),
    ) by {
        assert(is_placed(caches[r][i]));
        assert(cleared(caches[r][i]) == caches[r][i]);
    }
}

/// The cache is one that was just made on buffers of its own.
pub open spec fn is_placed(c: LayerCache) -> bool {
    exists|s: LayerCacheSpec, p: PlacedCache| c == #[trigger] placed_cache(s, p)
}

/// The caches that a device or a pipeline rank makes are just made.
pub proof fn lemma_place_run_places(
    cfg: Qwen3MoEConfig,
    kv: KvLayout,
    layers: Seq<usize>,
    placed: Seq<PlacedCache>,
)
    requires
        place_run(cfg, kv, layers, placed).err is None,
    ensures
        place_run(cfg, kv, layers, placed).ops.len() == layers.len(),
        forall|i: int|
            0 <= i < layers.len() ==> is_placed(
                #[trigger] place_run(cfg, kv, layers, placed).ops[i],
            ),
{
    let f = |i: int| place_step(cache_spec(&cfg, layers[i] as nat, kv), placed[i]);
    lemma_each_ones(layers.len(), f);
    assert forall|i: int| 0 <= i < layers.len() implies is_placed(
        #[trigger] place_run(cfg, kv, layers, placed).ops[i],
    ) by {
        assert(f(i).err is None);
        assert(f(i).ops[0] == placed_cache(
            cache_spec(&cfg, layers[i] as nat, kv)->Ok_0,
            placed[i],
        ));
    }
}

/// The caches that a tensor-parallel rank makes are just made.
pub proof fn lemma_place_run_tp_places(
    cfg: Qwen3MoEConfig,
    world: u32,
    kq_replicated: bool,
    kv: KvLayout,
    start: usize,
    n: nat,
    placed: Seq<PlacedCache>,
)
    requires
        place_run_tp(cfg, world, kq_replicated, kv, start, n, placed).err is None,
    ensures
        place_run_tp(cfg, world, kq_replicated, kv, start, n, placed).ops.len() == n,
        forall|i: int|
            0 <= i < n ==> is_placed(
                #[trigger] place_run_tp(cfg, world, kq_replicated, kv, start, n, placed).ops[i],
            ),
{
    let f = |i: int|
        place_step(cache_spec_tp(&cfg, (start + i) as nat, world, kq_replicated, kv), placed[i]);
    lemma_each_ones(n, f);
    assert forall|i: int| 0 <= i < n implies is_placed(
        #[trigger] place_run_tp(cfg, world, kq_replicated, kv, start, n, placed).ops[i],
    ) by {
        assert(f(i).err is None);
        assert(f(i).ops[0] == placed_cache(
            cache_spec_tp(&cfg, (start + i) as nat, world, kq_replicated, kv)->Ok_0,
            placed[i],
        ));
    }
}

} // verus!
