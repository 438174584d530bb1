//! What the attention blocks of the ranks leave behind, in the partial results and in
//! the caches.

use crate::config::Qwen3MoEConfig;
use crate::device::DevicePtr;
use crate::forward::mesh::{
    after, after_all, attended, attn_named, gdn_named, lemma_after_concat, lemma_after_one,
    share_of, stored, width, Cell, Half, Line, Mesh,
};
use crate::forward::mesh_join::{all_apart, hold, shares};
use crate::forward::op::{AttnRefs, ForwardError, GdnRefs, Op, Pass};
use crate::forward::rows::{apart, at, lemma_apart, lemma_put, only, put, rows, within};
use crate::plan::{each, Run};
use crate::tp_sharded::Qwen3MoETpModel;
use vstd::prelude::*;

verus! {

/// What the attention block of a layer adds to a row whose place in its sequence is
/// `position`.
pub open spec fn attn_half(cfg: Qwen3MoEConfig, layer: usize, position: int) -> Half {
    if cfg.spec_is_recurrent(layer as nat) {
        Half::Recur { layer }
    } else {
        Half::Attend { layer, position }
    }
}

/// What it adds to each row of a batch, of which the sessions and positions are known.
pub open spec fn attn_halves(cfg: Qwen3MoEConfig, layer: usize, who: Seq<(usize, int)>) -> Seq<Half> {
    Seq::new(who.len(), |i: int| attn_half(cfg, layer, who[i].1))
}

/// Some row has this session and position.
pub open spec fn listed(who: Seq<(usize, int)>, session: usize, position: int) -> bool {
    exists|i: int| 0 <= i < who.len() && #[trigger] who[i] == (session, position)
}

/// The rows of one session, in order.
pub open spec fn rows_of(who: Seq<(usize, int)>, lines: Seq<Line>, session: usize) -> Seq<Cell>
    decreases who.len(),
{
    if who.len() == 0 {
        seq![]
    } else {
        let before = rows_of(who.drop_last(), lines, session);
        if who.last().0 == session {
            before.push(Cell::Hidden { line: lines[who.len() - 1] })
        } else {
            before
        }
    }
}

/// On the ranks from `lo` up to `hi` the cache of a layer has taken in the rows: K and V
/// of each at its session and position, or each into the recurrent state of its session.
/// Nothing else in the caches has changed.
pub open spec fn cached(
    cfg: Qwen3MoEConfig,
    before: Mesh,
    now: Mesh,
    lo: nat,
    hi: nat,
    who: Seq<(usize, int)>,
    lines: Seq<Line>,
    layer: usize,
    cache: usize,
) -> bool {
    if cfg.spec_is_recurrent(layer as nat) {
        &&& now.kv == before.kv
        &&& forall|r: usize, s: usize|
            lo <= r < hi ==> #[trigger] now.states[(r, s, cache)] == before.states[(r, s, cache)]
                + rows_of(who, lines, s)
        &&& forall|k: (usize, usize, usize)|
            !(lo <= k.0 < hi && k.2 == cache) ==> #[trigger] now.states[k] == before.states[k]
    } else {
        &&& now.states == before.states
        &&& forall|r: usize, i: int|
            #![trigger now.kv[(r, who[i].0, cache, who[i].1)]]
            lo <= r < hi && 0 <= i < who.len() ==> now.kv[(r, who[i].0, cache, who[i].1)] == (
            Cell::Hidden { line: lines[i] })
        &&& forall|k: (usize, usize, usize, int)|
            !(lo <= k.0 < hi && k.2 == cache && listed(who, k.1, k.3))
                ==> #[trigger] now.kv[k] == before.kv[k]
    }
}

/// No rank has KV caches waiting for a batch.
pub open spec fn idle(mc: Mesh, ranks: nat) -> bool {
    forall|q: usize| q < ranks ==> #[trigger] mc.gathered[q] == Seq::<(usize, usize, usize)>::empty()
}

/// Logits and what was fetched are as they were.
pub open spec fn quiet(a: Mesh, b: Mesh) -> bool {
    &&& b.logits == a.logits
    &&& b.fetched == a.fetched
    &&& b.picked == a.picked
}

/// One rank holds the lines as hidden rows.
pub open spec fn hold_at(
    m: Qwen3MoETpModel,
    mc: Mesh,
    r: usize,
    hid: DevicePtr,
    lines: Seq<Line>,
) -> bool {
    forall|i: int|
        0 <= i < lines.len() ==> mc.cells[#[trigger] at(r, hid, i, width(m))] == (Cell::Hidden {
            line: lines[i],
        })
}

/// The attention block of rank `r` has left its shares in `out` and the rows in the cache.
pub open spec fn attn_done(
    m: Qwen3MoETpModel,
    before: Mesh,
    now: Mesh,
    r: usize,
    out: DevicePtr,
    who: Seq<(usize, int)>,
    lines: Seq<Line>,
    layer: usize,
    cache: usize,
    world: u32,
) -> bool {
    &&& forall|i: int|
        0 <= i < lines.len() ==> share_of(
            now.cells[#[trigger] at(r, out, i, width(m))],
            lines[i],
            attn_halves(m.config, layer, who)[i],
            r,
            world as nat,
        )
    &&& only(before.cells, now.cells, r, out, width(m), lines.len())
    &&& cached(m.config, before, now, r as nat, (r + 1) as nat, who, lines, layer, cache)
    &&& quiet(before, now)
    &&& forall|q: usize|
        #[trigger] now.gathered[q] == before.gathered[q] || q == r && now.gathered[q] == Seq::<
            (usize, usize, usize),
        >::empty()
}

pub proof fn lemma_stored(
    kv: Map<(usize, usize, usize, int), Cell>,
    rank: usize,
    session: usize,
    cache: usize,
    position: int,
    xs: Seq<Cell>,
)
    ensures
        forall|i: int|
            0 <= i < xs.len() ==> #[trigger] stored(kv, rank, session, cache, position, xs)[(
                rank,
                session,
                cache,
                position + i,
            )] == xs[i],
        forall|k: (usize, usize, usize, int)|
            !(k.0 == rank && k.1 == session && k.2 == cache && position <= k.3 < position
                + xs.len()) ==> #[trigger] stored(kv, rank, session, cache, position, xs)[k]
                == kv[k],
    decreases xs.len(),
{
    let now = stored(kv, rank, session, cache, position, xs);
    if xs.len() > 0 {
        let rest = xs.drop_last();
        lemma_stored(kv, rank, session, cache, position, rest);
        let mid = stored(kv, rank, session, cache, position, rest);
        assert forall|i: int| 0 <= i < xs.len() implies #[trigger] now[(
            rank,
            session,
            cache,
            position + i,
        )] == xs[i] by {
            if i < rest.len() {
                assert(mid[(rank, session, cache, position + i)] == rest[i]);
            }
        }
        assert forall|k: (usize, usize, usize, int)|
            !(k.0 == rank && k.1 == session && k.2 == cache && position <= k.3 < position
                + xs.len()) implies #[trigger] now[k] == kv[k] by {
            assert(mid[k] == kv[k]);
        }
    }
}

/// The rows of a batch of one session at consecutive positions.
pub open spec fn in_a_row(position: int, n: nat) -> Seq<(usize, int)> {
    Seq::new(n, |i: int| (0usize, position + i))
}

/// All rows of a batch of one session are those of that session.
pub proof fn lemma_one_session(position: int, n: nat, lines: Seq<Line>, s: usize)
    requires
        n <= lines.len(),
    ensures
        rows_of(in_a_row(position, n), lines, s) == if s == 0 {
            Seq::new(n, |i: int| Cell::Hidden { line: lines[i] })
        } else {
            seq![]
        },
    decreases n,
{
    let who = in_a_row(position, n);
    if n > 0 {
        let j = (n - 1) as nat;
        assert(who.drop_last() =~= in_a_row(position, j));
        lemma_one_session(position, j, lines, s);
        if s == 0 {
            assert(Seq::new(j, |i: int| Cell::Hidden { line: lines[i] }).push(
                Cell::Hidden { line: lines[j as int] },
            ) =~= Seq::new(n, |i: int| Cell::Hidden { line: lines[i] }));
        }
    } else if s == 0 {
        assert(Seq::<Cell>::empty() =~= Seq::new(n, |i: int| Cell::Hidden { line: lines[i] }));
    }
}

/// One of `world` ranks has one of `world` parts.
pub proof fn lemma_share(line: Line, half: Half, rank: usize, world: u32)
    ensures
        share_of(
            Cell::Share { line, half, rank, parts: seq![(1, world as nat)] },
            line,
            half,
            rank,
            world as nat,
        ),
{
    let parts = seq![(1nat, world as nat)];
    assert forall|j: int| 0 <= j < parts.len() implies (#[trigger] parts[j]).0 * world as nat
        == parts[j].1 by {
        assert(1nat * world as nat == world as nat) by (nonlinear_arith);
    }
}

/// Full attention of one rank over a batch of one session.
pub proof fn lemma_full_attn(
    m: Qwen3MoETpModel,
    mc: Mesh,
    r: usize,
    il: usize,
    ic: usize,
    w: AttnRefs,
    pass: Pass,
    x: DevicePtr,
    out: DevicePtr,
    lines: Seq<Line>,
    n: usize,
    position: usize,
    world: u32,
)
    requires
        width(m) > 0,
        !m.config.spec_is_recurrent(il as nat),
        n == lines.len(),
        attn_named(m, r, il, w),
        hold_at(m, mc, r, x, lines),
    ensures
        attn_done(
            m,
            mc,
            after_all(
                m,
                mc,
                seq![
                    Op::FullAttn {
                        rank: r,
                        layer: il,
                        cache: ic,
                        w,
                        pass,
                        x,
                        out,
                        n_tokens: n,
                        position,
                        world,
                        kv_replicated: m.tp.spec_kv_replicated(),
                    },
                ],
            ),
            r,
            out,
            in_a_row(position as int, n as nat),
            lines,
            il,
            ic,
            world,
        ),
{
    let wd = width(m);
    let op = Op::FullAttn {
        rank: r,
        layer: il,
        cache: ic,
        w,
        pass,
        x,
        out,
        n_tokens: n,
        position,
        world,
        kv_replicated: m.tp.spec_kv_replicated(),
    };
    lemma_after_one(m, mc, op);
    let now = after(m, mc, op);
    let xs = rows(mc.cells, r, x, wd, n as nat);
    let who = in_a_row(position as int, n as nat);
    let vals = Seq::new(
        n as nat,
        |i: int|
            attended(
                xs[i],
                attn_named(m, r, il, w) && m.tp.spec_kv_replicated() == m.tp.spec_kv_replicated(),
                Half::Attend { layer: il, position: position + i },
                r,
                world,
            ),
    );
    assert(now.cells == put(mc.cells, r, out, wd, vals));
    lemma_put(mc.cells, r, out, wd, vals);
    lemma_stored(mc.kv, r, 0, ic, position as int, xs);
    assert(now.kv == stored(mc.kv, r, 0, ic, position as int, xs));
    assert forall|i: int| 0 <= i < lines.len() implies share_of(
        now.cells[#[trigger] at(r, out, i, wd)],
        lines[i],
        attn_halves(m.config, il, who)[i],
        r,
        world as nat,
    ) by {
        assert(mc.cells[at(r, x, i, wd)] == (Cell::Hidden { line: lines[i] }));
        assert(xs[i] == (Cell::Hidden { line: lines[i] }));
        assert(now.cells[at(r, out, i, wd)] == vals[i]);
        lemma_share(lines[i], attn_halves(m.config, il, who)[i], r, world);
    }
    assert forall|q: usize, i: int| r <= q < r + 1 && 0 <= i < who.len() implies #[trigger] now.kv[(
        q,
        who[i].0,
        ic,
        who[i].1,
    )] == (Cell::Hidden { line: lines[i] }) by {
        assert(mc.cells[at(r, x, i, wd)] == (Cell::Hidden { line: lines[i] }));
        assert(stored(mc.kv, r, 0, ic, position as int, xs)[(r, 0usize, ic, position + i)]
            == xs[i]);
    }
    assert forall|k: (usize, usize, usize, int)|
        !(r <= k.0 < r + 1 && k.2 == ic && listed(who, k.1, k.3)) implies #[trigger] now.kv[k]
        == mc.kv[k] by {
        if k.0 == r && k.1 == 0 && k.2 == ic && position <= k.3 < position + n {
            assert(who[k.3 - position] == (k.1, k.3));
        }
    }
}

/// A gated-delta-net block of one rank over a batch of one session.
pub proof fn lemma_gdn(
    m: Qwen3MoETpModel,
    mc: Mesh,
    r: usize,
    il: usize,
    ic: usize,
    w: GdnRefs,
    pass: Pass,
    x: DevicePtr,
    out: DevicePtr,
    lines: Seq<Line>,
    n: usize,
    position: usize,
    world: u32,
)
    requires
        width(m) > 0,
        m.config.spec_is_recurrent(il as nat),
        n == lines.len(),
        gdn_named(m, r, il, w),
        hold_at(m, mc, r, x, lines),
    ensures
        attn_done(
            m,
            mc,
            after_all(
                m,
                mc,
                seq![
                    Op::Gdn {
                        rank: r,
                        layer: il,
                        cache: ic,
                        slot: 0,
                        w,
                        pass,
                        x,
                        out,
                        n_tokens: n,
                        world,
                        kq_replicated: false,
                    },
                ],
            ),
            r,
            out,
            in_a_row(position as int, n as nat),
            lines,
            il,
            ic,
            world,
        ),
{
    let wd = width(m);
    let op = Op::Gdn {
        rank: r,
        layer: il,
        cache: ic,
        slot: 0,
        w,
        pass,
        x,
        out,
        n_tokens: n,
        world,
        kq_replicated: false,
    };
    lemma_after_one(m, mc, op);
    let now = after(m, mc, op);
    let xs = rows(mc.cells, r, x, wd, n as nat);
    let who = in_a_row(position as int, n as nat);
    let vals = Seq::new(
        n as nat,
        |i: int|
            attended(
                xs[i],
                gdn_named(m, r, il, w) && !false,
                Half::Recur { layer: il },
                r,
                world,
            ),
    );
    assert(now.cells == put(mc.cells, r, out, wd, vals));
    lemma_put(mc.cells, r, out, wd, vals);
    assert forall|i: int| 0 <= i < lines.len() implies xs[i] == (Cell::Hidden {
        line: lines[i],
    }) by {
        assert(mc.cells[at(r, x, i, wd)] == (Cell::Hidden { line: lines[i] }));
    }
    assert forall|i: int| 0 <= i < lines.len() implies share_of(
        now.cells[#[trigger] at(r, out, i, wd)],
        lines[i],
        attn_halves(m.config, il, who)[i],
        r,
        world as nat,
    ) by {
        assert(xs[i] == (Cell::Hidden { line: lines[i] }));
        assert(now.cells[at(r, out, i, wd)] == vals[i]);
        lemma_share(lines[i], attn_halves(m.config, il, who)[i], r, world);
    }
    assert forall|q: usize, s: usize| r <= q < r + 1 implies #[trigger] now.states[(q, s, ic)]
        == mc.states[(q, s, ic)] + rows_of(who, lines, s) by {
        lemma_one_session(position as int, n as nat, lines, s);
        if s == 0 {
            assert(xs =~= rows_of(who, lines, s));
        } else {
            assert(mc.states[(q, s, ic)] + rows_of(who, lines, s) =~= mc.states[(q, s, ic)]);
        }
    }
}

/// The attention blocks of the first `k` ranks, each of which does its part.
pub proof fn lemma_attn_all(
    m: Qwen3MoETpModel,
    mc: Mesh,
    f: spec_fn(int) -> Run<Op, ForwardError>,
    hid: Seq<DevicePtr>,
    att: Seq<DevicePtr>,
    who: Seq<(usize, int)>,
    lines: Seq<Line>,
    il: usize,
    ic: usize,
    world: u32,
    k: nat,
)
    requires
        width(m) > 0,
        k <= hid.len() == att.len() <= u32::MAX,
        all_apart(hid, att, width(m), lines.len()),
        hold(m, mc, hid, lines),
        idle(mc, hid.len()),
        each(k, f).err is None,
        forall|r: usize, b: Mesh|
            r < k && f(r as int).err is None && hold_at(m, b, r, hid[r as int], lines) && idle(
                b,
                hid.len(),
            ) ==> attn_done(
                m,
                b,
                #[trigger] after_all(m, b, f(r as int).ops),
                r,
                att[r as int],
                who,
                lines,
                il,
                ic,
                world,
            ),
    ensures
        ({
            let now = after_all(m, mc, each(k, f).ops);
            &&& hold(m, now, hid, lines)
            &&& shares(
                m,
                now,
                att.take(k as int),
                lines,
                attn_halves(m.config, il, who),
                world as nat,
            )
            &&& cached(m.config, mc, now, 0, k, who, lines, il, ic)
            &&& quiet(mc, now)
            &&& idle(now, hid.len())
        }),
    decreases k,
{
    let wd = width(m);
    let n = lines.len();
    if k == 0 {
        assert(each(k, f).ops =~= seq![]);
        assert forall|r: usize, s: usize| 0 <= r < 0 implies #[trigger] mc.states[(r, s, ic)]
            == mc.states[(r, s, ic)] + rows_of(who, lines, s) by {}
    } else {
        let j = (k - 1) as nat;
        let q = j as usize;
        assert(each(j, f).err is None && f(j as int).err is None);
        lemma_attn_all(m, mc, f, hid, att, who, lines, il, ic, world, j);
        lemma_after_concat(m, mc, each(j, f).ops, f(j as int).ops);
        let b = after_all(m, mc, each(j, f).ops);
        let now = after_all(m, mc, each(k, f).ops);
        assert(hold_at(m, b, q, hid[q as int], lines)) by {
            assert forall|i: int| 0 <= i < n implies b.cells[#[trigger] at(q, hid[q as int], i, wd)]
                == (Cell::Hidden { line: lines[i] }) by {}
        }
        assert(now == after_all(m, b, f(q as int).ops));
        assert(apart(hid[q as int], att[q as int], wd, n));
        lemma_apart(q, hid[q as int], att[q as int], wd, n);
        assert forall|r: usize, i: int| r < hid.len() && 0 <= i < n implies now.cells[#[trigger] at(
            r,
            hid[r as int],
            i,
            wd,
        )] == (Cell::Hidden { line: lines[i] }) by {
            let e = at(r, hid[r as int], i, wd);
            assert(b.cells[e] == (Cell::Hidden { line: lines[i] }));
            assert(!within(e, q, att[q as int], wd, n));
        }
        assert forall|r: usize, i: int| r < k && 0 <= i < n implies share_of(
            now.cells[#[trigger] at(r, att.take(k as int)[r as int], i, wd)],
            lines[i],
            attn_halves(m.config, il, who)[i],
            r,
            world as nat,
        ) by {
            let e = at(r, att[r as int], i, wd);
            assert(att.take(k as int)[r as int] == att[r as int]);
            if r < q {
                assert(att.take(j as int)[r as int] == att[r as int]);
                assert(share_of(
                    b.cells[at(r, att.take(j as int)[r as int], i, wd)],
                    lines[i],
                    attn_halves(m.config, il, who)[i],
                    r,
                    world as nat,
                ));
                assert(!within(e, q, att[q as int], wd, n));
            }
        }
        lemma_cached_step(m.config, mc, b, now, j, who, lines, il, ic);
    }
}

/// One more rank has taken the rows into its cache.
proof fn lemma_cached_step(
    cfg: Qwen3MoEConfig,
    a: Mesh,
    b: Mesh,
    c: Mesh,
    j: nat,
    who: Seq<(usize, int)>,
    lines: Seq<Line>,
    il: usize,
    ic: usize,
)
    requires
        cached(cfg, a, b, 0, j, who, lines, il, ic),
        cached(cfg, b, c, j, j + 1, who, lines, il, ic),
    ensures
        cached(cfg, a, c, 0, j + 1, who, lines, il, ic),
{
    if cfg.spec_is_recurrent(il as nat) {
        assert forall|r: usize, s: usize| 0 <= r < j + 1 implies #[trigger] c.states[(r, s, ic)]
            == a.states[(r, s, ic)] + rows_of(who, lines, s) by {
            if r < j {
                assert(c.states[(r, s, ic)] == b.states[(r, s, ic)]);
            } else {
                assert(b.states[(r, s, ic)] == a.states[(r, s, ic)]);
            }
        }
        assert forall|k: (usize, usize, usize)|
            !(0 <= k.0 < j + 1 && k.2 == ic) implies #[trigger] c.states[k] == a.states[k] by {
            assert(b.states[k] == a.states[k]);
        }
    } else {
        assert forall|r: usize, i: int| 0 <= r < j + 1 && 0 <= i < who.len() implies #[trigger] c.kv[(
            r,
            who[i].0,
            ic,
            who[i].1,
        )] == (Cell::Hidden { line: lines[i] }) by {
            if r < j {
                assert(b.kv[(r, who[i].0, ic, who[i].1)] == (Cell::Hidden { line: lines[i] }));
                assert(c.kv[(r, who[i].0, ic, who[i].1)] == b.kv[(r, who[i].0, ic, who[i].1)]);
            }
        }
        assert forall|k: (usize, usize, usize, int)|
            !(0 <= k.0 < j + 1 && k.2 == ic && listed(who, k.1, k.3)) implies #[trigger] c.kv[k]
            == a.kv[k] by {
            assert(b.kv[k] == a.kv[k]);
        }
    }
}

} // verus!
