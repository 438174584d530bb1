//! Operations on the caches of one rank: placing, saving, restoring, taking
//! back and clearing.

use crate::config::Qwen3MoEConfig;
use crate::device::{DevicePtr, Free};
use crate::plan::{
    done, each, extend, fail, flat, lemma_each_stops, lemma_ran_then2, ran, then2, Run,
};
use crate::session::{
    alloc_layer_cache, alloc_layer_cache_tp, cache_spec, cache_spec_tp, dispose_layer_cache,
    first_stuck, gdn_sane, rollback_caches, rolled_back_upto, GdnLayerState, KvCache, KvLayout,
    LayerCache, LayerCacheSpec, SessionError,
};
use vstd::prelude::*;

verus! {

/// An operation on the state of a rank.
#[derive(Debug, Clone, Copy, PartialEq, Eq, Structural)]
pub enum StateOp {
    /// Copies a whole buffer within the rank.
    Copy { rank: usize, dst: DevicePtr, src: DevicePtr, bytes: usize },
    /// Fills a whole buffer with zeros.
    Zero { rank: usize, ptr: DevicePtr, bytes: usize },
    /// Waits until the rank's default stream has run dry.
    Sync { rank: usize },
}

/// The kind of session that reports an error.
#[derive(Debug, Clone, Copy, PartialEq, Eq, Structural)]
pub enum Site {
    Single,
    Pipeline,
    Tensor,
}

/// Buffers for the snapshot of a layer that has none yet.
#[derive(Debug, Clone, Copy, PartialEq, Eq, Structural)]
pub struct SnapshotPtrs {
    pub state: DevicePtr,
    pub conv: DevicePtr,
}

/// The two buffers of a layer's cache: K and V, or state and convolution
/// history. `tensor_bytes` is the size of K, and of V.
#[derive(Debug, Clone, Copy, PartialEq, Eq, Structural)]
pub struct PlacedCache {
    pub first: DevicePtr,
    pub second: DevicePtr,
    pub tensor_bytes: usize,
}

/// The empty cache of the given shape on the given buffers.
pub open spec fn placed_cache(s: LayerCacheSpec, p: PlacedCache) -> LayerCache {
    match s {
        LayerCacheSpec::Kv { layout, num_kv_heads, head_dim, max_tokens } => {
            let kv = KvCache {
                k: p.first,
                v: p.second,
                tensor_bytes: p.tensor_bytes,
                max_tokens,
                current_tokens: 0,
            };
            match layout {
                KvLayout::F16 => LayerCache::FullAttn(kv),
                KvLayout::Q8 => LayerCache::FullAttnQ8(kv),
            }
        },
        LayerCacheSpec::Gdn {
            state_bytes,
            conv_history_bytes,
            num_v_heads,
            head_k_dim,
            head_v_dim,
            conv_kernel,
            conv_channels,
        } => LayerCache::Gdn(
            GdnLayerState {
                state: p.first,
                state_bytes,
                conv_history: p.second,
                conv_history_bytes,
                num_v_heads,
                head_k_dim,
                head_v_dim,
                conv_kernel,
                conv_channels,
                snapshot_state: None,
                snapshot_conv_history: None,
            },
        ),
    }
}

/// Makes the empty cache of the given shape on the given buffers.
pub fn place_cache(s: LayerCacheSpec, p: PlacedCache) -> (r: LayerCache)
    ensures
        r == placed_cache(s, p),
{
    match s {
        LayerCacheSpec::Kv { layout, num_kv_heads: _, head_dim: _, max_tokens } => {
            let kv = KvCache {
                k: p.first,
                v: p.second,
                tensor_bytes: p.tensor_bytes,
                max_tokens,
                current_tokens: 0,
            };
            match layout {
                KvLayout::F16 => LayerCache::FullAttn(kv),
                KvLayout::Q8 => LayerCache::FullAttnQ8(kv),
            }
        },
        LayerCacheSpec::Gdn {
            state_bytes,
            conv_history_bytes,
            num_v_heads,
            head_k_dim,
            head_v_dim,
            conv_kernel,
            conv_channels,
        } => LayerCache::Gdn(
            GdnLayerState {
                state: p.first,
                state_bytes,
                conv_history: p.second,
                conv_history_bytes,
                num_v_heads,
                head_k_dim,
                head_v_dim,
                conv_kernel,
                conv_channels,
                snapshot_state: None,
                snapshot_conv_history: None,
            },
        ),
    }
}

type CacheRun = Run<LayerCache, SessionError>;

/// The cache that a shape and its buffers give.
pub open spec fn place_step(s: Result<LayerCacheSpec, SessionError>, p: PlacedCache) -> CacheRun {
    match s {
        Ok(s) => done(seq![placed_cache(s, p)]),
        Err(e) => fail(e),
    }
}

/// The caches of the listed layers on one device.
pub open spec fn place_run(
    cfg: Qwen3MoEConfig,
    kv: KvLayout,
    layers: Seq<usize>,
    placed: Seq<PlacedCache>,
) -> CacheRun {
    each(layers.len(), |i: int| place_step(cache_spec(&cfg, layers[i] as nat, kv), placed[i]))
}

/// The caches of the layers from `start` on, on one of `world` ranks.
pub open spec fn place_run_tp(
    cfg: Qwen3MoEConfig,
    world: u32,
    kq_replicated: bool,
    kv: KvLayout,
    start: usize,
    n: nat,
    placed: Seq<PlacedCache>,
) -> CacheRun {
    each(
        n,
        |i: int|
            place_step(
                cache_spec_tp(&cfg, (start + i) as nat, world, kq_replicated, kv),
                placed[i],
            ),
    )
}

fn place_part(
    s: Result<LayerCacheSpec, SessionError>,
    p: PlacedCache,
    out: &mut Vec<LayerCache>,
) -> (res: Result<(), SessionError>)
    ensures
        ran(old(out)@, final(out)@, res, place_step(s, p)),
{
    match s {
        Ok(s) => {
            out.push(place_cache(s, p));
            proof {
                assert(out@ =~= old(out)@ + seq![placed_cache(s, p)]);
            }
            Ok(())
        },
        Err(e) => {
            proof {
                assert(out@ =~= old(out)@ + Seq::<LayerCache>::empty());
            }
            Err(e)
        },
    }
}

fn place_loop(
    cfg: &Qwen3MoEConfig,
    kv: KvLayout,
    layers: &Vec<usize>,
    placed: &Vec<PlacedCache>,
    out: &mut Vec<LayerCache>,
) -> (res: Result<(), SessionError>)
    requires
        gdn_sane(cfg),
        placed@.len() >= layers@.len(),
    ensures
        ran(
            old(out)@,
            final(out)@,
            res,
            each(
                layers@.len(),
                |i: int| place_step(cache_spec(cfg, layers@[i] as nat, kv), placed@[i]),
            ),
        ),
{
    let ghost base = out@;
    let ghost f = |i: int| place_step(cache_spec(cfg, layers@[i] as nat, kv), placed@[i]);
    let n: usize = layers.len();
    let mut i: usize = 0;
    proof {
        assert(out@ =~= base + each(0, f).ops);
    }
    while i < n
        invariant
            i <= n,
            n == layers.len(),
            base == old(out)@,
            f == (|i: int| place_step(cache_spec(cfg, layers@[i] as nat, kv), placed@[i])),
            ran(base, out@, Ok::<(), SessionError>(()), each(i as nat, f)),
            n == layers@.len(),
            gdn_sane(cfg),
            placed@.len() >= layers@.len(),
        decreases n - i,
    {
        let ghost mid = out@;
        match place_part(alloc_layer_cache(cfg, layers[i], kv), placed[i], out) {
            Ok(_) => {
                proof {
                    lemma_ran_then2(base, mid, out@, Ok(()), each(i as nat, f), f(i as int));
                }
            },
            Err(e) => {
                proof {
                    lemma_ran_then2(base, mid, out@, Err(e), each(i as nat, f), f(i as int));
                    lemma_each_stops((i + 1) as nat, n as nat, f);
                }
                return Err(e);
            },
        }
        i = i + 1;
    }
    Ok(())
}

fn place_loop_tp(
    cfg: &Qwen3MoEConfig,
    world: u32,
    kq_replicated: bool,
    kv: KvLayout,
    start: usize,
    count: usize,
    placed: &Vec<PlacedCache>,
    out: &mut Vec<LayerCache>,
) -> (res: Result<(), SessionError>)
    requires
        gdn_sane(cfg),
        placed@.len() >= count,
        start + count <= usize::MAX,
    ensures
        ran(
            old(out)@,
            final(out)@,
            res,
            each(
                count as nat,
                |i: int| place_step(
                    cache_spec_tp(cfg, (start + i) as nat, world, kq_replicated, kv),
                    placed@[i],
                ),
            ),
        ),
{
    let ghost base = out@;
    let ghost f = |i: int| place_step(
        cache_spec_tp(cfg, (start + i) as nat, world, kq_replicated, kv),
        placed@[i],
    );
    let n: usize = count;
    let mut i: usize = 0;
    proof {
        assert(out@ =~= base + each(0, f).ops);
    }
    while i < n
        invariant
            i <= n,
            n == count,
            base == old(out)@,
            f == (
                |i: int| place_step(
                    cache_spec_tp(cfg, (start + i) as nat, world, kq_replicated, kv),
                    placed@[i],
                )
            ),
            ran(base, out@, Ok::<(), SessionError>(()), each(i as nat, f)),
            gdn_sane(cfg),
            placed@.len() >= count,
            start + count <= usize::MAX,
        decreases n - i,
    {
        let ghost mid = out@;
        match place_part(
            alloc_layer_cache_tp(cfg, start + i, world, kq_replicated, kv),
            placed[i],
            out,
        ) {
            Ok(_) => {
                proof {
                    lemma_ran_then2(base, mid, out@, Ok(()), each(i as nat, f), f(i as int));
                }
            },
            Err(e) => {
                proof {
                    lemma_ran_then2(base, mid, out@, Err(e), each(i as nat, f), f(i as int));
                    lemma_each_stops((i + 1) as nat, n as nat, f);
                }
                return Err(e);
            },
        }
        i = i + 1;
    }
    Ok(())
}

/// Makes the caches of the listed layers on one device.
pub fn place_layers(
    cfg: &Qwen3MoEConfig,
    kv: KvLayout,
    layers: &Vec<usize>,
    placed: &Vec<PlacedCache>,
) -> (res: Result<Vec<LayerCache>, SessionError>)
    requires
        gdn_sane(cfg),
        placed@.len() >= layers@.len(),
    ensures
        match res {
            Ok(v) => v@ == place_run(*cfg, kv, layers@, placed@).ops && place_run(
                *cfg,
                kv,
                layers@,
                placed@,
            ).err is None,
            Err(e) => place_run(*cfg, kv, layers@, placed@).err == Some(e),
        },
{
    let mut v: Vec<LayerCache> = Vec::new();
    let res = place_loop(cfg, kv, layers, placed, &mut v);
    proof {
        let f = |i: int| place_step(cache_spec(cfg, layers@[i] as nat, kv), placed@[i]);
        assert(place_run(*cfg, kv, layers@, placed@) == each(layers@.len(), f));
        assert(v@ =~= each(layers@.len(), f).ops);
    }
    match res {
        Ok(_) => Ok(v),
        Err(e) => Err(e),
    }
}

/// Makes the caches of `count` layers from `start` on, on one of `world` ranks.
pub fn place_layers_tp(
    cfg: &Qwen3MoEConfig,
    world: u32,
    kq_replicated: bool,
    kv: KvLayout,
    start: usize,
    count: usize,
    placed: &Vec<PlacedCache>,
) -> (res: Result<Vec<LayerCache>, SessionError>)
    requires
        gdn_sane(cfg),
        placed@.len() >= count,
        start + count <= usize::MAX,
    ensures
        match res {
            Ok(v) => v@ == place_run_tp(
                *cfg,
                world,
                kq_replicated,
                kv,
                start,
                count as nat,
                placed@,
            ).ops && place_run_tp(
                *cfg,
                world,
                kq_replicated,
                kv,
                start,
                count as nat,
                placed@,
            ).err is None,
            Err(e) => place_run_tp(
                *cfg,
                world,
                kq_replicated,
                kv,
                start,
                count as nat,
                placed@,
            ).err == Some(e),
        },
{
    let mut v: Vec<LayerCache> = Vec::new();
    let res = place_loop_tp(cfg, world, kq_replicated, kv, start, count, placed, &mut v);
    proof {
        let f = |i: int|
            place_step(
                cache_spec_tp(cfg, (start + i) as nat, world, kq_replicated, kv),
                placed@[i],
            );
        assert(place_run_tp(*cfg, world, kq_replicated, kv, start, count as nat, placed@)
            == each(count as nat, f));
        assert(v@ =~= each(count as nat, f).ops);
    }
    match res {
        Ok(_) => Ok(v),
        Err(e) => Err(e),
    }
}

/// The caches of one rank, all or none.
pub open spec fn rank_step(run: CacheRun) -> Run<Seq<LayerCache>, SessionError> {
    match run.err {
        None => done(seq![run.ops]),
        Some(e) => fail(e),
    }
}

/// The caches of all ranks.
pub open spec fn place_ranks_run_tp(
    cfg: Qwen3MoEConfig,
    world: u32,
    kq_replicated: bool,
    kv: KvLayout,
    start: usize,
    count: nat,
    placed: Seq<Vec<PlacedCache>>,
) -> Run<Seq<LayerCache>, SessionError> {
    each(
        placed.len(),
        |r: int|
            rank_step(
                place_run_tp(cfg, world, kq_replicated, kv, start, count, placed[r]@),
            ),
    )
}

/// The lists of a list of lists.
pub open spec fn views(v: Seq<Vec<LayerCache>>) -> Seq<Seq<LayerCache>> {
    v.map_values(|c: Vec<LayerCache>| c@)
}

/// Makes the caches of `count` layers from `start` on, on every rank.
pub fn place_ranks_tp(
    cfg: &Qwen3MoEConfig,
    world: u32,
    kq_replicated: bool,
    kv: KvLayout,
    start: usize,
    count: usize,
    placed: &Vec<Vec<PlacedCache>>,
) -> (res: Result<Vec<Vec<LayerCache>>, SessionError>)
    requires
        gdn_sane(cfg),
        start + count <= usize::MAX,
        forall|r: int| 0 <= r < placed@.len() ==> (#[trigger] placed@[r])@.len() >= count,
    ensures
        ({
            let run = place_ranks_run_tp(
                *cfg,
                world,
                kq_replicated,
                kv,
                start,
                count as nat,
                placed@,
            );
            match res {
                Ok(v) => run.err is None && views(v@) == run.ops,
                Err(e) => run.err == Some(e),
            }
        }),
{
    let ghost f = |r: int|
        rank_step(
            place_run_tp(*cfg, world, kq_replicated, kv, start, count as nat, placed@[r]@),
        );
    let mut v: Vec<Vec<LayerCache>> = Vec::new();
    let mut r: usize = 0;
    proof {
        assert(views(v@) =~= each(0, f).ops);
    }
    while r < placed.len()
        invariant
            r <= placed@.len(),
            gdn_sane(cfg),
            start + count <= usize::MAX,
            forall|r: int| 0 <= r < placed@.len() ==> (#[trigger] placed@[r])@.len() >= count,
            f == (|r: int|
                rank_step(
                    place_run_tp(
                        *cfg,
                        world,
                        kq_replicated,
                        kv,
                        start,
                        count as nat,
                        placed@[r]@,
                    ),
                )),
            each(r as nat, f).err is None,
            views(v@) == each(r as nat, f).ops,
        decreases placed@.len() - r,
    {
        let ghost before = v@;
        proof {
            assert(placed@[r as int]@.len() >= count);
        }
        match place_layers_tp(cfg, world, kq_replicated, kv, start, count, &placed[r]) {
            Ok(c) => {
                proof {
                    assert(f(r as int).ops == seq![c@]);
                    assert(views(before.push(c)) =~= views(before) + seq![c@]);
                }
                v.push(c);
            },
            Err(e) => {
                proof {
                    lemma_each_stops((r + 1) as nat, placed@.len(), f);
                }
                return Err(e);
            },
        }
        r = r + 1;
    }
    Ok(v)
}

/// The cache with snapshot buffers: those it has, else the fresh ones.
pub open spec fn with_snapshot(c: LayerCache, f: SnapshotPtrs) -> LayerCache {
    match c {
        LayerCache::Gdn(g) => LayerCache::Gdn(
            GdnLayerState {
                snapshot_state: Some(
                    match g.snapshot_state {
                        Some(p) => p,
                        None => f.state,
                    },
                ),
                snapshot_conv_history: Some(
                    match g.snapshot_conv_history {
                        Some(p) => p,
                        None => f.conv,
                    },
                ),
                ..g
            },
        ),
        _ => c,
    }
}

/// All caches with snapshot buffers.
pub open spec fn with_snapshots(caches: Seq<LayerCache>, fresh: Seq<SnapshotPtrs>) -> Seq<
    LayerCache,
> {
    Seq::new(caches.len(), |i: int| with_snapshot(caches[i], fresh[i]))
}

/// The copies that save a recurrent layer.
pub open spec fn save_ops(rank: usize, c: LayerCache) -> Seq<StateOp> {
    match c {
        LayerCache::Gdn(g) => seq![
            StateOp::Copy {
                rank,
                dst: g.snapshot_state->Some_0,
                src: g.state,
                bytes: g.state_bytes,
            },
            StateOp::Copy {
                rank,
                dst: g.snapshot_conv_history->Some_0,
                src: g.conv_history,
                bytes: g.conv_history_bytes,
            },
        ],
        _ => seq![],
    }
}

/// The copies that save all recurrent layers of a rank.
pub open spec fn save_all_ops(rank: usize, caches: Seq<LayerCache>) -> Seq<StateOp> {
    flat(caches.len(), |i: int| save_ops(rank, caches[i]))
}

/// Saves the state of every recurrent layer. `fresh` has buffers for the
/// layers that were never saved.
pub fn save_caches(
    rank: usize,
    caches: &mut Vec<LayerCache>,
    fresh: &Vec<SnapshotPtrs>,
    out: &mut Vec<StateOp>,
)
    requires
        fresh@.len() >= old(caches)@.len(),
    ensures
        final(caches)@ == with_snapshots(old(caches)@, fresh@),
        final(out)@ == old(out)@ + save_all_ops(rank, final(caches)@),
{
    let ghost base = out@;
    let ghost before = caches@;
    let ghost after = with_snapshots(before, fresh@);
    let ghost f = |i: int| save_ops(rank, after[i]);
    let mut i: usize = 0;
    proof {
        assert(out@ =~= base + flat(0, f));
    }
    while i < caches.len()
        invariant
            i <= caches@.len(),
            caches@.len() == before.len(),
            before == old(caches)@,
            base == old(out)@,
            fresh@.len() >= before.len(),
            after == with_snapshots(before, fresh@),
            f == (|i: int| save_ops(rank, after[i])),
            forall|j: int| 0 <= j < i ==> #[trigger] caches@[j] == after[j],
            forall|j: int| i <= j < before.len() ==> #[trigger] caches@[j] == before[j],
            out@ == base + flat(i as nat, f),
        decreases caches@.len() - i,
    {
        let c: LayerCache = caches[i];
        let ghost mid = out@;
        match c {
            LayerCache::Gdn(g) => {
                let snap_state = match g.snapshot_state {
                    Some(p) => p,
                    None => fresh[i].state,
                };
                let snap_conv = match g.snapshot_conv_history {
                    Some(p) => p,
                    None => fresh[i].conv,
                };
                caches.set(
                    i,
                    LayerCache::Gdn(
                        GdnLayerState {
                            snapshot_state: Some(snap_state),
                            snapshot_conv_history: Some(snap_conv),
                            ..g
                        },
                    ),
                );
                out.push(
                    StateOp::Copy { rank, dst: snap_state, src: g.state, bytes: g.state_bytes },
                );
                out.push(
                    StateOp::Copy {
                        rank,
                        dst: snap_conv,
                        src: g.conv_history,
                        bytes: g.conv_history_bytes,
                    },
                );
            },
            _ => {},
        }
        proof {
            assert(out@ =~= mid + f(i as int));
            assert(out@ =~= base + flat((i + 1) as nat, f));
        }
        i = i + 1;
    }
    proof {
        assert(caches@ =~= after);
    }
}

/// The error where a layer has no snapshot.
pub open spec fn no_snapshot(site: Site, rank: usize, layer: usize) -> SessionError {
    match site {
        Site::Single => SessionError::NoSnapshot { layer },
        Site::Pipeline => SessionError::NoSnapshotStage { rank, layer },
        Site::Tensor => SessionError::NoSnapshotRank { rank, layer },
    }
}

/// The error where a layer has no snapshot of its convolution history.
pub open spec fn no_conv_snapshot(site: Site, rank: usize, layer: usize) -> SessionError {
    match site {
        Site::Single => SessionError::NoConvSnapshot { layer },
        Site::Pipeline => SessionError::NoConvSnapshotStage { rank, layer },
        Site::Tensor => SessionError::NoConvSnapshotRank { rank, layer },
    }
}

type StateRun = Run<StateOp, SessionError>;

/// The copies that restore a recurrent layer.
pub open spec fn restore_step(site: Site, rank: usize, c: LayerCache, layer: int) -> StateRun {
    match c {
        LayerCache::Gdn(g) => match (g.snapshot_state, g.snapshot_conv_history) {
            (None, _) => fail(no_snapshot(site, rank, layer as usize)),
            (Some(_), None) => fail(no_conv_snapshot(site, rank, layer as usize)),
            (Some(s), Some(h)) => done(
                seq![
                    StateOp::Copy { rank, dst: g.state, src: s, bytes: g.state_bytes },
                    StateOp::Copy {
                        rank,
                        dst: g.conv_history,
                        src: h,
                        bytes: g.conv_history_bytes,
                    },
                ],
            ),
        },
        _ => done(seq![]),
    }
}

/// The copies that restore all recurrent layers of a rank.
pub open spec fn restore_run(site: Site, rank: usize, caches: Seq<LayerCache>) -> StateRun {
    each(caches.len(), |i: int| restore_step(site, rank, caches[i], i))
}

fn restore_part(
    site: Site,
    rank: usize,
    c: LayerCache,
    layer: usize,
    out: &mut Vec<StateOp>,
) -> (res: Result<(), SessionError>)
    ensures
        ran(old(out)@, final(out)@, res, restore_step(site, rank, c, layer as int)),
{
    proof {
        assert(out@ =~= out@ + Seq::<StateOp>::empty());
    }
    if let LayerCache::Gdn(g) = c {
        let s = match g.snapshot_state {
            Some(p) => p,
            None => {
                return Err(
                    match site {
                        Site::Single => SessionError::NoSnapshot { layer },
                        Site::Pipeline => SessionError::NoSnapshotStage { rank, layer },
                        Site::Tensor => SessionError::NoSnapshotRank { rank, layer },
                    },
                );
            },
        };
        let h = match g.snapshot_conv_history {
            Some(p) => p,
            None => {
                return Err(
                    match site {
                        Site::Single => SessionError::NoConvSnapshot { layer },
                        Site::Pipeline => SessionError::NoConvSnapshotStage { rank, layer },
                        Site::Tensor => SessionError::NoConvSnapshotRank { rank, layer },
                    },
                );
            },
        };
        let a = StateOp::Copy { rank, dst: g.state, src: s, bytes: g.state_bytes };
        let b = StateOp::Copy {
            rank,
            dst: g.conv_history,
            src: h,
            bytes: g.conv_history_bytes,
        };
        out.push(a);
        out.push(b);
        proof {
            assert(out@ =~= old(out)@ + seq![a, b]);
        }
    }
    Ok(())
}

/// Restores every recurrent layer from its snapshot, as far as there is one.
pub fn restore_caches(
    site: Site,
    rank: usize,
    caches: &Vec<LayerCache>,
    out: &mut Vec<StateOp>,
) -> (res: Result<(), SessionError>)
    ensures
        ran(
            old(out)@,
            final(out)@,
            res,
            each(caches@.len(), |i: int| restore_step(site, rank, caches@[i], i)),
        ),
{
    let ghost base = out@;
    let ghost f = |i: int| restore_step(site, rank, caches@[i], i);
    let n: usize = caches.len();
    let mut i: usize = 0;
    proof {
        assert(out@ =~= base + each(0, f).ops);
    }
    while i < n
        invariant
            i <= n,
            n == caches.len(),
            base == old(out)@,
            f == (|i: int| restore_step(site, rank, caches@[i], i)),
            ran(base, out@, Ok::<(), SessionError>(()), each(i as nat, f)),
            n == caches@.len(),
        decreases n - i,
    {
        let ghost mid = out@;
        match restore_part(site, rank, caches[i], i, out) {
            Ok(_) => {
                proof {
                    lemma_ran_then2(base, mid, out@, Ok(()), each(i as nat, f), f(i as int));
                }
            },
            Err(e) => {
                proof {
                    lemma_ran_then2(base, mid, out@, Err(e), each(i as nat, f), f(i as int));
                    lemma_each_stops((i + 1) as nat, n as nat, f);
                }
                return Err(e);
            },
        }
        i = i + 1;
    }
    Ok(())
}

/// The error of a cache that holds too few tokens.
pub open spec fn rollback_error(
    site: Site,
    rank: usize,
    layer: usize,
    n_remove: usize,
    current: usize,
) -> SessionError {
    match site {
        Site::Single => SessionError::RollbackLayer { layer, n_remove, current },
        _ => SessionError::RollbackRank { rank, layer, n_remove, current },
    }
}

/// The caches after `n_remove` tokens are taken back from each, and the error
/// of the first that holds fewer, which ends it.
pub open spec fn rolled(
    site: Site,
    rank: usize,
    caches: Seq<LayerCache>,
    n_remove: usize,
) -> (Seq<LayerCache>, Option<SessionError>) {
    match first_stuck(caches, n_remove as nat, caches.len()) {
        None => (rolled_back_upto(caches, n_remove as nat, caches.len()), None),
        Some(k) => (
            rolled_back_upto(caches, n_remove as nat, k),
            Some(
                rollback_error(
                    site,
                    rank,
                    k as usize,
                    n_remove,
                    caches[k as int].tokens() as usize,
                ),
            ),
        ),
    }
}

/// Takes `n_remove` tokens back from each cache of a rank.
pub fn roll_caches(
    site: Site,
    rank: usize,
    caches: &mut Vec<LayerCache>,
    n_remove: usize,
) -> (res: Result<(), SessionError>)
    ensures
        final(caches)@ == rolled(site, rank, old(caches)@, n_remove).0,
        match res {
            Ok(_) => rolled(site, rank, old(caches)@, n_remove).1 is None,
            Err(e) => rolled(site, rank, old(caches)@, n_remove).1 == Some(e),
        },
{
    match rollback_caches(caches, n_remove) {
        Ok(_) => Ok(()),
        Err((layer, current)) => Err(
            match site {
                Site::Single => SessionError::RollbackLayer { layer, n_remove, current },
                _ => SessionError::RollbackRank { rank, layer, n_remove, current },
            },
        ),
    }
}

/// The cache as it is for a new sequence.
pub open spec fn cleared(c: LayerCache) -> LayerCache {
    match c {
        LayerCache::FullAttn(kv) => LayerCache::FullAttn(KvCache { current_tokens: 0, ..kv }),
        LayerCache::FullAttnQ8(kv) => LayerCache::FullAttnQ8(
            KvCache { current_tokens: 0, ..kv },
        ),
        LayerCache::Gdn(g) => LayerCache::Gdn(g),
    }
}

/// All caches as they are for a new sequence.
pub open spec fn all_cleared(caches: Seq<LayerCache>) -> Seq<LayerCache> {
    Seq::new(caches.len(), |i: int| cleared(caches[i]))
}

/// A buffer is filled with zeros, unless it is empty.
pub open spec fn zero_ops(rank: usize, ptr: DevicePtr, bytes: usize) -> Seq<StateOp> {
    if bytes == 0 {
        seq![]
    } else {
        seq![StateOp::Zero { rank, ptr, bytes }]
    }
}

/// The zeros that a recurrent layer starts from.
pub open spec fn reset_ops(rank: usize, c: LayerCache) -> Seq<StateOp> {
    match c {
        LayerCache::Gdn(g) => zero_ops(rank, g.state, g.state_bytes) + zero_ops(
            rank,
            g.conv_history,
            g.conv_history_bytes,
        ),
        _ => seq![],
    }
}

fn push_zero(rank: usize, ptr: DevicePtr, bytes: usize, out: &mut Vec<StateOp>)
    ensures
        final(out)@ == old(out)@ + zero_ops(rank, ptr, bytes),
{
    if bytes != 0 {
        out.push(StateOp::Zero { rank, ptr, bytes });
    }
    proof {
        assert(out@ =~= old(out)@ + zero_ops(rank, ptr, bytes));
    }
}

/// Fills the state and the convolution history of a recurrent layer with zeros.
pub fn zero_gdn_layer_state(rank: usize, g: &GdnLayerState, out: &mut Vec<StateOp>)
    ensures
        final(out)@ == old(out)@ + reset_ops(rank, LayerCache::Gdn(*g)),
{
    push_zero(rank, g.state, g.state_bytes, out);
    push_zero(rank, g.conv_history, g.conv_history_bytes, out);
    proof {
        assert(out@ =~= old(out)@ + reset_ops(rank, LayerCache::Gdn(*g)));
    }
}

/// Makes the caches of a rank ready for a new sequence.
pub fn reset_caches(rank: usize, caches: &mut Vec<LayerCache>, out: &mut Vec<StateOp>)
    ensures
        final(caches)@ == all_cleared(old(caches)@),
        final(out)@ == old(out)@ + flat(
            old(caches)@.len(),
            |i: int| reset_ops(rank, old(caches)@[i]),
        ),
{
    let ghost base = out@;
    let ghost before = caches@;
    let ghost f = |i: int| reset_ops(rank, before[i]);
    let mut i: usize = 0;
    proof {
        assert(out@ =~= base + flat(0, f));
    }
    while i < caches.len()
        invariant
            i <= caches@.len(),
            caches@.len() == before.len(),
            before == old(caches)@,
            base == old(out)@,
            f == (|i: int| reset_ops(rank, before[i])),
            forall|j: int| 0 <= j < i ==> #[trigger] caches@[j] == cleared(before[j]),
            forall|j: int| i <= j < before.len() ==> #[trigger] caches@[j] == before[j],
            out@ == base + flat(i as nat, f),
        decreases caches@.len() - i,
    {
        let c: LayerCache = caches[i];
        let ghost mid = out@;
        match c {
            LayerCache::FullAttn(kv) => {
                let mut kv = kv;
                kv.clear();
                caches.set(i, LayerCache::FullAttn(kv));
            },
            LayerCache::FullAttnQ8(kv) => {
                let mut kv = kv;
                kv.clear();
                caches.set(i, LayerCache::FullAttnQ8(kv));
            },
            LayerCache::Gdn(g) => {
                zero_gdn_layer_state(rank, &g, out);
            },
        }
        proof {
            assert(out@ =~= mid + f(i as int));
            assert(out@ =~= base + flat((i + 1) as nat, f));
        }
        i = i + 1;
    }
    proof {
        assert(caches@ =~= all_cleared(before));
        let g = |i: int| reset_ops(rank, old(caches)@[i]);
        assert(f =~= g);
    }
}

/// What `reset_for_next_request` does for one rank.
pub open spec fn reset_rank_ops(rank: usize, caches: Seq<LayerCache>) -> Seq<StateOp> {
    flat(caches.len(), |i: int| reset_ops(rank, caches[i])).push(StateOp::Sync { rank })
}

/// Makes the caches of a rank ready for a new sequence, and waits.
pub fn reset_rank(rank: usize, caches: &mut Vec<LayerCache>, out: &mut Vec<StateOp>)
    ensures
        final(caches)@ == all_cleared(old(caches)@),
        final(out)@ == old(out)@ + reset_rank_ops(rank, old(caches)@),
{
    reset_caches(rank, caches, out);
    out.push(StateOp::Sync { rank });
    proof {
        let before = old(caches)@;
        let f = |i: int| reset_ops(rank, before[i]);
        assert(reset_rank_ops(rank, before) == flat(before.len(), f).push(
            StateOp::Sync { rank },
        ));
        let g = |i: int| reset_ops(rank, old(caches)@[i]);
        assert(f =~= g);
        assert(out@ =~= old(out)@ + reset_rank_ops(rank, before));
    }
}

/// The allocations of all caches of a rank, in the order of their release.
pub open spec fn caches_frees(caches: Seq<LayerCache>) -> Seq<Free> {
    flat(caches.len(), |i: int| caches[i].spec_frees())
}

/// Lists the allocations of all caches of a rank.
pub fn list_frees(caches: &Vec<LayerCache>) -> (r: Vec<Free>)
    ensures
        r@ == caches_frees(caches@),
{
    let mut v: Vec<Free> = Vec::new();
    push_frees(caches, &mut v);
    proof {
        assert(v@ =~= caches_frees(caches@));
    }
    v
}

fn push_frees(caches: &Vec<LayerCache>, out: &mut Vec<Free>)
    ensures
        final(out)@ == old(out)@ + flat(caches@.len(), |i: int| caches@[i].spec_frees()),
{
    let ghost base = out@;
    let ghost f = |i: int| caches@[i].spec_frees();
    let n: usize = caches.len();
    let mut i: usize = 0;
    proof {
        assert(out@ =~= base + flat(0, f));
    }
    while i < n
        invariant
            i <= n,
            n == caches.len(),
            base == old(out)@,
            f == (|i: int| caches@[i].spec_frees()),
            out@ == base + flat(i as nat, f),
            n == caches@.len(),
        decreases n - i,
    {
        let ghost mid = out@;
        extend(out, dispose_layer_cache(&caches[i]));
        proof {
            assert(out@ =~= mid + f(i as int));
            assert(out@ =~= base + flat((i + 1) as nat, f));
        }
        i = i + 1;
    }
}

/// What a new session does on its ranks before anything else: every recurrent
/// layer starts from zeros.
pub open spec fn start_ops(ids: Seq<usize>, caches: Seq<Seq<LayerCache>>) -> Seq<StateOp> {
    flat(ids.len(), |r: int| reset_rank_ops(ids[r], caches[r]))
}

/// Lists what makes the caches of a new session on one rank ready.
pub fn start_rank(rank: usize, caches: &Vec<LayerCache>, out: &mut Vec<StateOp>)
    ensures
        final(out)@ == old(out)@ + reset_rank_ops(rank, caches@),
{
    let ghost base = out@;
    let ghost f = |i: int| reset_ops(rank, caches@[i]);
    let n: usize = caches.len();
    let mut i: usize = 0;
    proof {
        assert(out@ =~= base + flat(0, f));
    }
    while i < n
        invariant
            i <= n,
            n == caches@.len(),
            f == (|i: int| reset_ops(rank, caches@[i])),
            out@ == base + flat(i as nat, f),
        decreases n - i,
    {
        let ghost mid = out@;
        if let LayerCache::Gdn(g) = caches[i] {
            zero_gdn_layer_state(rank, &g, out);
        }
        proof {
            assert(out@ =~= mid + f(i as int));
            assert(out@ =~= base + flat((i + 1) as nat, f));
        }
        i = i + 1;
    }
    out.push(StateOp::Sync { rank });
    proof {
        assert(reset_rank_ops(rank, caches@) == flat(n as nat, f).push(StateOp::Sync { rank }));
        assert(out@ =~= base + reset_rank_ops(rank, caches@));
    }
}

/// The numbers of `n` ranks.
pub open spec fn first_ranks(n: nat) -> Seq<usize> {
    Seq::new(n, |r: int| r as usize)
}

/// Lists what makes the caches of a new session ready, rank by rank.
pub fn start_ranks(caches: &Vec<Vec<LayerCache>>, out: &mut Vec<StateOp>)
    ensures
        final(out)@ == old(out)@ + start_ops(first_ranks(caches@.len()), views(caches@)),
{
    let ghost base = out@;
    let ghost ids = first_ranks(caches@.len());
    let ghost all = views(caches@);
    let ghost f = |r: int| reset_rank_ops(ids[r], all[r]);
    let n: usize = caches.len();
    let mut r: usize = 0;
    proof {
        assert(out@ =~= base + flat(0, f));
    }
    while r < n
        invariant
            r <= n,
            n == caches@.len(),
            ids == first_ranks(n as nat),
            all == views(caches@),
            f == (|r: int| reset_rank_ops(ids[r], all[r])),
            out@ == base + flat(r as nat, f),
        decreases n - r,
    {
        start_rank(r, &caches[r], out);
        proof {
            assert(out@ =~= base + flat((r + 1) as nat, f));
        }
        r = r + 1;
    }
}

/// The copies that save a session, rank by rank.
pub open spec fn save_session_ops(ids: Seq<usize>, caches: Seq<Seq<LayerCache>>) -> Seq<StateOp> {
    flat(
        ids.len(),
        |r: int| save_all_ops(ids[r], caches[r]).push(StateOp::Sync { rank: ids[r] }),
    )
}

/// What restores one rank of a session.
pub open spec fn restore_rank_run(site: Site, rank: usize, caches: Seq<LayerCache>) -> Run<
    StateOp,
    SessionError,
> {
    then2(restore_run(site, rank, caches), done(seq![StateOp::Sync { rank }]))
}

/// What restores a session, rank by rank.
pub open spec fn restore_session_run(
    site: Site,
    ids: Seq<usize>,
    caches: Seq<Seq<LayerCache>>,
) -> Run<StateOp, SessionError> {
    each(ids.len(), |r: int| restore_rank_run(site, ids[r], caches[r]))
}

} // verus!
