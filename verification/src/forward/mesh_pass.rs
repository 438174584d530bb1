//! The layers of a tensor-parallel pass, one after the other.

use crate::config::Qwen3MoEConfig;
use crate::device::DevicePtr;
use crate::forward::mesh::{
    after, after_all, embedded, lemma_after_concat, width, wrote, Cell, Line, Mesh,
};
use crate::forward::mesh_attn::{
    attn_half, attn_halves, cached, idle, listed, quiet, rows_of,
};
use crate::forward::mesh_ffn::ffn_half;
use crate::forward::mesh_join::hold;
use crate::forward::mesh_layer::layer_lines;
use crate::forward::op::{weight_of, ForwardError, Op, StreamSel};
use crate::forward::rows::{at, put};
use crate::plan::{each, Run};
use crate::tp_sharded::Qwen3MoETpModel;
use vstd::prelude::*;

verus! {

/// A row at `position` of its sequence after `k` layers from `start` on: each adds its
/// attention and then its FFN.
pub open spec fn lived(
    cfg: Qwen3MoEConfig,
    skip_shared: bool,
    line: Line,
    position: int,
    start: usize,
    k: nat,
) -> Line
    decreases k,
{
    if k == 0 {
        line
    } else {
        let il = (start + k - 1) as usize;
        lived(cfg, skip_shared, line, position, start, (k - 1) as nat).plus(
            attn_half(cfg, il, position),
        ).plus(ffn_half(cfg, skip_shared, il))
    }
}

/// All rows of a batch after `k` layers.
pub open spec fn lived_all(
    cfg: Qwen3MoEConfig,
    skip_shared: bool,
    lines: Seq<Line>,
    who: Seq<(usize, int)>,
    start: usize,
    k: nat,
) -> Seq<Line> {
    Seq::new(lines.len(), |i: int| lived(cfg, skip_shared, lines[i], who[i].1, start, k))
}

/// The cache of a layer has taken in the rows on every rank.
pub open spec fn took(
    cfg: Qwen3MoEConfig,
    before: Mesh,
    now: Mesh,
    ranks: nat,
    who: Seq<(usize, int)>,
    lines: Seq<Line>,
    layer: usize,
    cache: usize,
) -> bool {
    if cfg.spec_is_recurrent(layer as nat) {
        forall|r: usize, s: usize|
            r < ranks ==> #[trigger] now.states[(r, s, cache)] == before.states[(r, s, cache)]
                + rows_of(who, lines, s)
    } else {
        forall|r: usize, i: int|
            #![trigger now.kv[(r, who[i].0, cache, who[i].1)]]
            r < ranks && 0 <= i < who.len() ==> now.kv[(r, who[i].0, cache, who[i].1)] == (
            Cell::Hidden { line: lines[i] })
    }
}

/// Cache `cache` belongs to one of the `k` layers from `start` on.
pub open spec fn cache_used(start: usize, offset: usize, k: nat, cache: usize) -> bool {
    start <= cache + offset < start + k
}

/// The caches have taken in the rows as they come to each of the `k` layers from `start`
/// on, and nothing else in them has changed.
#[verifier::opaque]
pub open spec fn taken_in(
    cfg: Qwen3MoEConfig,
    skip_shared: bool,
    before: Mesh,
    now: Mesh,
    ranks: nat,
    who: Seq<(usize, int)>,
    lines: Seq<Line>,
    start: usize,
    offset: usize,
    k: nat,
) -> bool {
    &&& forall|d: nat|
        d < k ==> took(
            cfg,
            before,
            now,
            ranks,
            who,
            #[trigger] lived_all(cfg, skip_shared, lines, who, start, d),
            (start + d) as usize,
            (start + d - offset) as usize,
        )
    &&& forall|e: (usize, usize, usize, int)|
        !(e.0 < ranks && cache_used(start, offset, k, e.2) && !cfg.spec_is_recurrent(
            (e.2 + offset) as nat,
        ) && listed(who, e.1, e.3)) ==> #[trigger] now.kv[e] == before.kv[e]
    &&& forall|e: (usize, usize, usize)|
        !(e.0 < ranks && cache_used(start, offset, k, e.2) && cfg.spec_is_recurrent(
            (e.2 + offset) as nat,
        )) ==> #[trigger] now.states[e] == before.states[e]
}

/// A layer has done its work on all rows.
pub open spec fn layer_done(
    m: Qwen3MoETpModel,
    skip_shared: bool,
    before: Mesh,
    now: Mesh,
    hid: Seq<DevicePtr>,
    who: Seq<(usize, int)>,
    lines: Seq<Line>,
    layer: usize,
    cache: usize,
) -> bool {
    &&& hold(
        m,
        now,
        hid,
        layer_lines(m, lines, attn_halves(m.config, layer, who), skip_shared, layer),
    )
    &&& cached(m.config, before, now, 0, hid.len(), who, lines, layer, cache)
    &&& quiet(before, now)
    &&& idle(now, hid.len())
}

proof fn lemma_took_step(
    cfg: Qwen3MoEConfig,
    skip_shared: bool,
    a: Mesh,
    b: Mesh,
    c: Mesh,
    ranks: nat,
    who: Seq<(usize, int)>,
    lines: Seq<Line>,
    start: usize,
    offset: usize,
    j: nat,
)
    requires
        offset <= start,
        start + j < usize::MAX,
        lines.len() == who.len(),
        taken_in(cfg, skip_shared, a, b, ranks, who, lines, start, offset, j),
        cached(
            cfg,
            b,
            c,
            0,
            ranks,
            who,
            lived_all(cfg, skip_shared, lines, who, start, j),
            (start + j) as usize,
            (start + j - offset) as usize,
        ),
    ensures
        taken_in(cfg, skip_shared, a, c, ranks, who, lines, start, offset, j + 1),
{
    reveal(taken_in);
    let il = (start + j) as usize;
    assert forall|d: nat| d < j + 1 implies took(
        cfg,
        a,
        c,
        ranks,
        who,
        #[trigger] lived_all(cfg, skip_shared, lines, who, start, d),
        (start + d) as usize,
        (start + d - offset) as usize,
    ) by {
        let x = lived_all(cfg, skip_shared, lines, who, start, d);
        let dl = (start + d) as usize;
        let dc = (start + d - offset) as usize;
        if d < j {
            assert(took(cfg, a, b, ranks, who, x, dl, dc));
            if cfg.spec_is_recurrent(dl as nat) {
                assert forall|r: usize, s: usize| r < ranks implies #[trigger] c.states[(r, s, dc)]
                    == a.states[(r, s, dc)] + rows_of(who, x, s) by {
                    assert(b.states[(r, s, dc)] == a.states[(r, s, dc)] + rows_of(who, x, s));
                    assert(c.states[(r, s, dc)] == b.states[(r, s, dc)]);
                }
            } else {
                assert forall|r: usize, i: int|
                    r < ranks && 0 <= i < who.len() implies #[trigger] c.kv[(
                    r,
                    who[i].0,
                    dc,
                    who[i].1,
                )] == (Cell::Hidden { line: x[i] }) by {
                    let e = (r, who[i].0, dc, who[i].1);
                    assert(b.kv[(r, who[i].0, dc, who[i].1)] == (Cell::Hidden { line: x[i] }));
                    assert(c.kv[e] == b.kv[e]);
                }
            }
        } else if cfg.spec_is_recurrent(il as nat) {
            assert forall|r: usize, s: usize| r < ranks implies #[trigger] c.states[(r, s, dc)]
                == a.states[(r, s, dc)] + rows_of(who, x, s) by {
                assert(b.states[(r, s, dc)] == a.states[(r, s, dc)]);
            }
        }
    }
    assert forall|e: (usize, usize, usize, int)|
        !(e.0 < ranks && cache_used(start, offset, j + 1, e.2) && !cfg.spec_is_recurrent(
            (e.2 + offset) as nat,
        ) && listed(who, e.1, e.3)) implies #[trigger] c.kv[e] == a.kv[e] by {
        assert(b.kv[e] == a.kv[e]);
        assert(c.kv[e] == b.kv[e]);
    }
    assert forall|e: (usize, usize, usize)|
        !(e.0 < ranks && cache_used(start, offset, j + 1, e.2) && cfg.spec_is_recurrent(
            (e.2 + offset) as nat,
        )) implies #[trigger] c.states[e] == a.states[e] by {
        assert(b.states[e] == a.states[e]);
        assert(c.states[e] == b.states[e]);
    }
}

/// `k` layers that each do their work.
pub proof fn lemma_layers_all(
    m: Qwen3MoETpModel,
    mc: Mesh,
    f: spec_fn(int) -> Run<Op, ForwardError>,
    hid: Seq<DevicePtr>,
    who: Seq<(usize, int)>,
    lines: Seq<Line>,
    start: usize,
    offset: usize,
    skip_shared: bool,
    k: nat,
)
    requires
        offset <= start,
        start + k <= usize::MAX,
        lines.len() == who.len(),
        hold(m, mc, hid, lines),
        idle(mc, hid.len()),
        each(k, f).err is None,
        forall|i: int, b: Mesh, x: Seq<Line>|
            0 <= i < k && f(i).err is None && x.len() == lines.len() && #[trigger] hold(
                m,
                b,
                hid,
                x,
            ) && idle(b, hid.len()) ==> layer_done(
                m,
                skip_shared,
                b,
                #[trigger] after_all(m, b, f(i).ops),
                hid,
                who,
                x,
                (start + i) as usize,
                (start + i - offset) as usize,
            ),
    ensures
        ({
            let now = after_all(m, mc, each(k, f).ops);
            &&& hold(m, now, hid, lived_all(m.config, skip_shared, lines, who, start, k))
            &&& taken_in(
                m.config,
                skip_shared,
                mc,
                now,
                hid.len(),
                who,
                lines,
                start,
                offset,
                k,
            )
            &&& quiet(mc, now)
            &&& idle(now, hid.len())
        }),
    decreases k,
{
    let cfg = m.config;
    if k == 0 {
        reveal(taken_in);
        assert(each(k, f).ops =~= seq![]);
        assert(lived_all(cfg, skip_shared, lines, who, start, 0) =~= lines);
    } else {
        let j = (k - 1) as nat;
        lemma_layers_all(m, mc, f, hid, who, lines, start, offset, skip_shared, j);
        lemma_after_concat(m, mc, each(j, f).ops, f(j as int).ops);
        let b = after_all(m, mc, each(j, f).ops);
        let now = after_all(m, mc, each(k, f).ops);
        let x = lived_all(cfg, skip_shared, lines, who, start, j);
        let il = (start + j) as usize;
        assert(hold(m, b, hid, x));
        assert(now == after_all(m, b, f(j as int).ops));
        assert(layer_lines(m, x, attn_halves(cfg, il, who), skip_shared, il) =~= lived_all(
            cfg,
            skip_shared,
            lines,
            who,
            start,
            k,
        ));
        lemma_took_step(
            cfg,
            skip_shared,
            mc,
            b,
            now,
            hid.len(),
            who,
            lines,
            start,
            offset,
            j,
        );
    }
}

/// The embeddings of tokens.
pub open spec fn embeddings(tokens: Seq<u32>) -> Seq<Line> {
    Seq::new(tokens.len(), |i: int| embedded(tokens[i]))
}

/// An embedding is written to one row, and to no other place.
pub proof fn lemma_embed_row(
    m: Qwen3MoETpModel,
    mc: Mesh,
    rank: usize,
    base: DevicePtr,
    i: int,
    dst: DevicePtr,
    token: u32,
)
    requires
        width(m) > 0,
        dst.0 == base.0 + i * width(m),
    ensures
        ({
            let op = Op::Embed {
                rank,
                stream: StreamSel::Default,
                table: weight_of(m.shards@[rank as int].token_embd),
                token,
                dst,
                hidden: m.config.hidden_size,
            };
            let now = after(m, mc, op);
            let cell = Cell::Hidden { line: embedded(token) };
            &&& now.cells == mc.cells.insert(at(rank, base, i, width(m)), cell)
            &&& now.kv == mc.kv && now.states == mc.states && now.gathered == mc.gathered
            &&& quiet(mc, now)
        }),
{
    let cell = Cell::Hidden { line: embedded(token) };
    assert(seq![cell].drop_last() =~= seq![]);
    assert(put(mc.cells, rank, dst, width(m), seq![cell].drop_last()) == mc.cells);
    assert(0 * width(m) == 0) by (nonlinear_arith);
    assert(at(rank, dst, 0, width(m)) == at(rank, base, i, width(m)));
    let table = weight_of(m.shards@[rank as int].token_embd);
    let op = Op::Embed {
        rank,
        stream: StreamSel::Default,
        table,
        token,
        dst,
        hidden: m.config.hidden_size,
    };
    let vals = seq![
        if table == weight_of(m.shards@[rank as int].token_embd) && m.config.hidden_size
            == m.config.hidden_size {
            cell
        } else {
            Cell::Unknown
        },
    ];
    assert(vals =~= seq![cell]);
    assert(after(m, mc, op) == wrote(m, mc, rank, dst, vals));
}

} // verus!
