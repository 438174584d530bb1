//! What a tensor-parallel pass over a batch of tokens computes.

use crate::device::DevicePtr;
use crate::forward::mesh::{
    after_all, embedded, lemma_after_concat, lemma_after_one, width, Cell, Line, Mesh,
};
use crate::forward::mesh_attn::{
    attn_done, attn_halves, hold_at, idle, in_a_row, lemma_attn_all, lemma_full_attn, lemma_gdn,
    lemma_one_session, listed, quiet, rows_of,
};
use crate::forward::mesh_ffn::{lemma_attn_named, lemma_gdn_named};
use crate::forward::mesh_join::{all_apart, calm, hold};
use crate::forward::mesh_layer::{
    atts, bank_apart, batch_banks, batch_room, hids, lemma_batch_tail, Bank,
};
use crate::forward::mesh_pass::{
    embeddings, layer_done, lemma_embed_row, lemma_layers_all, lived, lived_all, taken_in, took,
};
use crate::forward::rows::{at, lemma_rows_differ};
use crate::forward::tp::{
    attn_refs_spec, batch_ready, buffers_fit, embed_prompt, embed_prompt_rank, embed_row,
    gdn_refs_spec, head_ops, prefill_attn_run, prefill_batched_ready, prefill_batched_run,
    prefill_head_run, prefill_layer_run, prefill_layers_run, prefill_tail, row_at, rows_fit,
    tensors_at, world_supported, BatchCtx, LogitsSink, ShardedForwardPrefillScratchTp,
};
use crate::plan::{each, flat};
use crate::session::LayerCache;
use crate::tp_sharded::Qwen3MoETpModel;
use vstd::prelude::*;

verus! {

/// Where row `i` begins, within the address space.
pub proof fn lemma_row_at(m: Qwen3MoETpModel, base: DevicePtr, i: int, n: nat)
    requires
        0 <= i < n,
        base.0 + n * (m.config.hidden_size * 2) <= usize::MAX,
    ensures
        row_at(base, i, m.config.hidden_size).0 == base.0 + i * width(m),
{
    let w = m.config.hidden_size * 2;
    assert(0 <= i * w <= n * w) by (nonlinear_arith)
        requires
            0 <= i < n,
            w >= 0,
    ;
}

/// One rank embeds the first `k` tokens.
proof fn lemma_embed_rank(
    m: Qwen3MoETpModel,
    mc: Mesh,
    sc: ShardedForwardPrefillScratchTp,
    r: usize,
    tokens: Seq<u32>,
    k: nat,
)
    requires
        width(m) > 0,
        k <= tokens.len(),
        rows_fit(sc.per_rank@[r as int].hidden_a, tokens.len(), m.config.hidden_size),
    ensures
        ({
            let now = after_all(
                m,
                mc,
                flat(k, |i: int| embed_row(m, sc, r as int, i, tokens[i])),
            );
            &&& forall|i: int|
                0 <= i < k ==> now.cells[#[trigger] at(
                    r,
                    sc.per_rank@[r as int].hidden_a,
                    i,
                    width(m),
                )] == (Cell::Hidden { line: embedded(tokens[i]) })
            &&& forall|e: (usize, int)| e.0 != r ==> #[trigger] now.cells[e] == mc.cells[e]
            &&& calm(mc, now)
        }),
    decreases k,
{
    let f = |i: int| embed_row(m, sc, r as int, i, tokens[i]);
    let base = sc.per_rank@[r as int].hidden_a;
    let w = width(m);
    if k > 0 {
        let j = (k - 1) as nat;
        lemma_embed_rank(m, mc, sc, r, tokens, j);
        lemma_after_concat(m, mc, flat(j, f), f(j as int));
        let b = after_all(m, mc, flat(j, f));
        let now = after_all(m, mc, flat(k, f));
        let dst = row_at(base, j as int, m.config.hidden_size);
        lemma_row_at(m, base, j as int, tokens.len());
        lemma_embed_row(m, b, r, base, j as int, dst, tokens[j as int]);
        lemma_after_one(m, b, f(j as int)[0]);
        assert(f(j as int) =~= seq![f(j as int)[0]]);
        assert forall|i: int| 0 <= i < k implies now.cells[#[trigger] at(r, base, i, w)] == (
        Cell::Hidden { line: embedded(tokens[i]) }) by {
            if i < j {
                lemma_rows_differ(r, base, i, j as int, w);
                assert(b.cells[at(r, base, i, w)] == (Cell::Hidden {
                    line: embedded(tokens[i]),
                }));
            }
        }
    }
}

/// The first `k` ranks embed all tokens.
pub proof fn lemma_embed_all(
    m: Qwen3MoETpModel,
    mc: Mesh,
    sc: ShardedForwardPrefillScratchTp,
    ranks: usize,
    tokens: Seq<u32>,
    k: nat,
)
    requires
        width(m) > 0,
        k <= ranks <= u32::MAX,
        buffers_fit(m, sc, ranks, tokens.len()),
    ensures
        ({
            let now = after_all(m, mc, flat(k, |i: int| embed_prompt_rank(m, sc, i, tokens)));
            &&& hold(m, now, hids(batch_banks(sc, ranks)).take(k as int), embeddings(tokens))
            &&& calm(mc, now)
        }),
    decreases k,
{
    let f = |i: int| embed_prompt_rank(m, sc, i, tokens);
    let hid = hids(batch_banks(sc, ranks));
    let w = width(m);
    let n = tokens.len();
    if k > 0 {
        let j = (k - 1) as nat;
        let q = j as usize;
        lemma_embed_all(m, mc, sc, ranks, tokens, j);
        lemma_after_concat(m, mc, flat(j, f), f(j as int));
        let b = after_all(m, mc, flat(j, f));
        let now = after_all(m, mc, flat(k, f));
        assert(rows_fit(sc.per_rank@[q as int].hidden_a, n, m.config.hidden_size));
        lemma_embed_rank(m, b, sc, q, tokens, n);
        assert forall|r: usize, i: int| r < k && 0 <= i < n implies now.cells[#[trigger] at(
            r,
            hid.take(k as int)[r as int],
            i,
            w,
        )] == (Cell::Hidden { line: embeddings(tokens)[i] }) by {
            if r < q {
                assert(b.cells[at(r, hid.take(j as int)[r as int], i, w)] == (Cell::Hidden {
                    line: embeddings(tokens)[i],
                }));
            } else {
                assert(now.cells[at(q, sc.per_rank@[q as int].hidden_a, i, w)] == (Cell::Hidden {
                    line: embedded(tokens[i]),
                }));
            }
        }
    }
}

/// The attention block of one rank over a batch.
proof fn lemma_prefill_attn(
    m: Qwen3MoETpModel,
    b: Mesh,
    sc: ShardedForwardPrefillScratchTp,
    caches: Seq<Vec<LayerCache>>,
    c: BatchCtx,
    il: usize,
    ic: usize,
    r: usize,
    lines: Seq<Line>,
)
    requires
        width(m) > 0,
        c.n_tokens == lines.len(),
        prefill_attn_run(m, sc, caches, c, il, ic, r as int).err is None,
        hold_at(m, b, r, sc.per_rank@[r as int].hidden_a, lines),
    ensures
        attn_done(
            m,
            b,
            after_all(m, b, prefill_attn_run(m, sc, caches, c, il, ic, r as int).ops),
            r,
            sc.per_rank@[r as int].partial_attn_out,
            in_a_row(c.start_position as int, lines.len()),
            lines,
            il,
            ic,
            c.ranks as u32,
        ),
{
    let s = sc.per_rank@[r as int];
    let ts = tensors_at(m, r as int, il);
    if m.config.spec_is_recurrent(il as nat) {
        let w = gdn_refs_spec(ts, il)->Ok_0;
        lemma_gdn_named(m, r, il, w);
        lemma_gdn(
            m,
            b,
            r,
            il,
            ic,
            w,
            crate::forward::op::Pass::Prefill,
            s.hidden_a,
            s.partial_attn_out,
            lines,
            c.n_tokens,
            c.start_position,
            c.ranks as u32,
        );
    } else {
        let w = attn_refs_spec(ts, il)->Ok_0;
        lemma_attn_named(m, r, il, w);
        lemma_full_attn(
            m,
            b,
            r,
            il,
            ic,
            w,
            crate::forward::op::Pass::Prefill,
            s.hidden_a,
            s.partial_attn_out,
            lines,
            c.n_tokens,
            c.start_position,
            c.ranks as u32,
        );
    }
}

/// A layer over a batch of one session.
proof fn lemma_prefill_layer(
    m: Qwen3MoETpModel,
    b: Mesh,
    sc: ShardedForwardPrefillScratchTp,
    caches: Seq<Vec<LayerCache>>,
    c: BatchCtx,
    il: usize,
    ic: usize,
    lines: Seq<Line>,
)
    requires
        world_supported(c.ranks as u32),
        batch_ready(m, sc, c),
        c.n_tokens == lines.len(),
        batch_room(m, sc, c.ranks, lines.len()),
        prefill_layer_run(m, sc, caches, c, il, ic).err is None,
        hold(m, b, hids(batch_banks(sc, c.ranks)), lines),
        idle(b, c.ranks as nat),
    ensures
        layer_done(
            m,
            c.skip_shared,
            b,
            after_all(m, b, prefill_layer_run(m, sc, caches, c, il, ic).ops),
            hids(batch_banks(sc, c.ranks)),
            in_a_row(c.start_position as int, lines.len()),
            lines,
            il,
            ic,
        ),
{
    let f = |i: int| prefill_attn_run(m, sc, caches, c, il, ic, i);
    let k = c.ranks as nat;
    let banks = batch_banks(sc, c.ranks);
    let hid = hids(banks);
    let att = atts(banks);
    let who = in_a_row(c.start_position as int, lines.len());
    let first = each(k, f);
    let tail = prefill_tail(m, sc, c, il);
    lemma_banks(m, banks, lines.len());
    assert forall|r: usize, b: Mesh|
        r < k && f(r as int).err is None && hold_at(m, b, r, hid[r as int], lines) && idle(
            b,
            hid.len(),
        ) implies attn_done(
        m,
        b,
        #[trigger] after_all(m, b, f(r as int).ops),
        r,
        att[r as int],
        who,
        lines,
        il,
        ic,
        c.ranks as u32,
    ) by {
        lemma_prefill_attn(m, b, sc, caches, c, il, ic, r, lines);
    }
    lemma_attn_all(m, b, f, hid, att, who, lines, il, ic, c.ranks as u32, k);
    assert(att.take(k as int) =~= att);
    let mid = after_all(m, b, first.ops);
    lemma_after_concat(m, b, first.ops, tail.ops);
    lemma_batch_tail(m, mid, sc, c, il, lines, attn_halves(m.config, il, who));
}

/// The hidden rows are apart from the attention's results.
pub proof fn lemma_banks(m: Qwen3MoETpModel, banks: Seq<Bank>, n: nat)
    requires
        crate::forward::mesh_layer::banks_apart(banks, width(m), n),
    ensures
        all_apart(hids(banks), atts(banks), width(m), n),
{
    assert forall|r: int| 0 <= r < banks.len() implies crate::forward::rows::apart(
        #[trigger] hids(banks)[r],
        atts(banks)[r],
        width(m),
        n,
    ) by {
        assert(bank_apart(banks[r], width(m), n));
    }
}

/// A batch of a prompt at consecutive positions has gone through `k` layers: the caches of
/// all ranks have taken in each token at its own position, in order, and nothing else.
#[verifier::opaque]
pub open spec fn prompt_taken(
    m: Qwen3MoETpModel,
    skip_shared: bool,
    before: Mesh,
    now: Mesh,
    ranks: nat,
    tokens: Seq<u32>,
    start_position: int,
    k: nat,
) -> bool {
    &&& forall|r: usize, il: usize, i: int|
        r < ranks && il < k && !m.config.spec_is_recurrent(il as nat) && 0 <= i < tokens.len()
            ==> #[trigger] now.kv[(r, 0usize, il, start_position + i)] == (Cell::Hidden {
            line: lived(
                m.config,
                skip_shared,
                embedded(tokens[i]),
                start_position + i,
                0,
                il as nat,
            ),
        })
    &&& forall|r: usize, il: usize|
        r < ranks && il < k && m.config.spec_is_recurrent(il as nat)
            ==> #[trigger] now.states[(r, 0usize, il)] == before.states[(r, 0usize, il)]
            + Seq::new(
            tokens.len(),
            |i: int|
                Cell::Hidden {
                    line: lived(
                        m.config,
                        skip_shared,
                        embedded(tokens[i]),
                        start_position + i,
                        0,
                        il as nat,
                    ),
                },
        )
    &&& forall|e: (usize, usize, usize, int)|
        !(e.0 < ranks && e.1 == 0 && e.2 < k && !m.config.spec_is_recurrent(e.2 as nat)
            && start_position <= e.3 < start_position + tokens.len()) ==> #[trigger] now.kv[e]
            == before.kv[e]
    &&& forall|e: (usize, usize, usize)|
        !(e.0 < ranks && e.1 == 0 && e.2 < k && m.config.spec_is_recurrent(e.2 as nat))
            ==> #[trigger] now.states[e] == before.states[e]
}

pub proof fn lemma_prompt_taken(
    m: Qwen3MoETpModel,
    skip_shared: bool,
    before: Mesh,
    now: Mesh,
    ranks: nat,
    tokens: Seq<u32>,
    start_position: int,
    k: nat,
)
    requires
        k <= usize::MAX,
        taken_in(
            m.config,
            skip_shared,
            before,
            now,
            ranks,
            in_a_row(start_position, tokens.len()),
            embeddings(tokens),
            0,
            0,
            k,
        ),
    ensures
        prompt_taken(m, skip_shared, before, now, ranks, tokens, start_position, k),
{
    reveal(taken_in);
    reveal(prompt_taken);
    let cfg = m.config;
    let n = tokens.len();
    let who = in_a_row(start_position, n);
    let lines = embeddings(tokens);
    assert forall|r: usize, il: usize, i: int|
        r < ranks && il < k && !cfg.spec_is_recurrent(il as nat) && 0 <= i < n implies #[trigger] now.kv[(
        r,
        0usize,
        il,
        start_position + i,
    )] == (Cell::Hidden {
        line: lived(cfg, skip_shared, embedded(tokens[i]), start_position + i, 0, il as nat),
    }) by {
        let x = lived_all(cfg, skip_shared, lines, who, 0, il as nat);
        assert(took(cfg, before, now, ranks, who, x, il, il));
        assert(now.kv[(r, who[i].0, il, who[i].1)] == (Cell::Hidden { line: x[i] }));
    }
    assert forall|r: usize, il: usize|
        r < ranks && il < k && cfg.spec_is_recurrent(il as nat) implies #[trigger] now.states[(
        r,
        0usize,
        il,
    )] == before.states[(r, 0usize, il)] + Seq::new(
        n,
        |i: int|
            Cell::Hidden {
                line: lived(
                    cfg,
                    skip_shared,
                    embedded(tokens[i]),
                    start_position + i,
                    0,
                    il as nat,
                ),
            },
    ) by {
        let x = lived_all(cfg, skip_shared, lines, who, 0, il as nat);
        assert(took(cfg, before, now, ranks, who, x, il, il));
        lemma_one_session(start_position, n, x, 0);
        assert(rows_of(who, x, 0) =~= Seq::new(
            n,
            |i: int|
                Cell::Hidden {
                    line: lived(
                        cfg,
                        skip_shared,
                        embedded(tokens[i]),
                        start_position + i,
                        0,
                        il as nat,
                    ),
                },
        ));
    }
    assert forall|e: (usize, usize, usize, int)|
        !(e.0 < ranks && e.1 == 0 && e.2 < k && !cfg.spec_is_recurrent(e.2 as nat)
            && start_position <= e.3 < start_position + n) implies #[trigger] now.kv[e]
        == before.kv[e] by {
        if listed(who, e.1, e.3) {
            let i = choose|i: int| 0 <= i < who.len() && #[trigger] who[i] == (e.1, e.3);
            assert(who[i] == (0usize, start_position + i));
        }
    }
    assert forall|e: (usize, usize, usize)|
        !(e.0 < ranks && e.1 == 0 && e.2 < k && cfg.spec_is_recurrent(
            e.2 as nat,
        )) implies #[trigger] now.states[e] == before.states[e] by {
        if e.0 < ranks && e.2 < k && cfg.spec_is_recurrent(e.2 as nat) {
            let x = lived_all(cfg, skip_shared, lines, who, 0, e.2 as nat);
            assert(took(cfg, before, now, ranks, who, x, e.2, e.2));
            lemma_one_session(start_position, n, x, e.1);
            assert(now.states[(e.0, e.1, e.2)] == before.states[e] + rows_of(who, x, e.1));
            assert(before.states[e] + rows_of(who, x, e.1) =~= before.states[e]);
        }
    }
}

/// All layers over a batch of a prompt.
proof fn lemma_prompt_layers(
    m: Qwen3MoETpModel,
    m1: Mesh,
    sc: ShardedForwardPrefillScratchTp,
    caches: Seq<Vec<LayerCache>>,
    c: BatchCtx,
    tokens: Seq<u32>,
)
    requires
        world_supported(c.ranks as u32),
        batch_ready(m, sc, c),
        c.n_tokens == tokens.len(),
        batch_room(m, sc, c.ranks, tokens.len()),
        prefill_layers_run(m, sc, caches, c, 0, m.config.num_layers, 0).err is None,
        hold(m, m1, hids(batch_banks(sc, c.ranks)), embeddings(tokens)),
        idle(m1, c.ranks as nat),
    ensures
        ({
            let now = after_all(
                m,
                m1,
                prefill_layers_run(m, sc, caches, c, 0, m.config.num_layers, 0).ops,
            );
            let who = in_a_row(c.start_position as int, tokens.len());
            let nl = m.config.num_layers as nat;
            &&& hold(
                m,
                now,
                hids(batch_banks(sc, c.ranks)),
                lived_all(m.config, c.skip_shared, embeddings(tokens), who, 0, nl),
            )
            &&& taken_in(
                m.config,
                c.skip_shared,
                m1,
                now,
                c.ranks as nat,
                who,
                embeddings(tokens),
                0,
                0,
                nl,
            )
            &&& quiet(m1, now)
            &&& idle(now, c.ranks as nat)
        }),
{
    let cfg = m.config;
    let nl = cfg.num_layers as nat;
    let hid = hids(batch_banks(sc, c.ranks));
    let who = in_a_row(c.start_position as int, tokens.len());
    let lines = embeddings(tokens);
    let p2 = prefill_layers_run(m, sc, caches, c, 0, cfg.num_layers, 0);
    let f = |i: int|
        prefill_layer_run(m, sc, caches, c, (0 + i) as usize, (0 + i - 0) as usize);
    assert(p2.ops == each(nl, f).ops && each(nl, f).err is None) by {
        let g = |i: int|
            prefill_layer_run(
                m,
                sc,
                caches,
                c,
                (0usize + i) as usize,
                (0usize + i - 0usize) as usize,
            );
        crate::plan::lemma_each_same(nl, f, g);
    }
    assert forall|i: int, b: Mesh, x: Seq<Line>|
        0 <= i < nl && f(i).err is None && x.len() == lines.len() && #[trigger] hold(m, b, hid, x)
            && idle(b, hid.len()) implies layer_done(
        m,
        c.skip_shared,
        b,
        #[trigger] after_all(m, b, f(i).ops),
        hid,
        who,
        x,
        (0 + i) as usize,
        (0 + i - 0) as usize,
    ) by {
        lemma_prefill_layer(m, b, sc, caches, c, i as usize, i as usize, x);
    }
    lemma_layers_all(m, m1, f, hid, who, lines, 0, 0, c.skip_shared, nl);
}

/// Only the caches count for what they have taken in.
pub proof fn lemma_same_taken(
    m: Qwen3MoETpModel,
    skip_shared: bool,
    a: Mesh,
    b: Mesh,
    x: Mesh,
    y: Mesh,
    ranks: nat,
    tokens: Seq<u32>,
    start_position: int,
    k: nat,
)
    requires
        prompt_taken(m, skip_shared, a, b, ranks, tokens, start_position, k),
        x.kv == a.kv && x.states == a.states,
        y.kv == b.kv && y.states == b.states,
    ensures
        prompt_taken(m, skip_shared, x, y, ranks, tokens, start_position, k),
{
    reveal(prompt_taken);
}

/// The head of a batch fetches the logits of its last row.
proof fn lemma_prompt_head(
    m: Qwen3MoETpModel,
    m2: Mesh,
    sc: ShardedForwardPrefillScratchTp,
    ranks: usize,
    lines: Seq<Line>,
)
    requires
        lines.len() >= 1,
        sc.head_rank.0 < ranks,
        buffers_fit(m, sc, ranks, lines.len()),
        hold(m, m2, hids(batch_banks(sc, ranks)), lines),
        prefill_head_run(m, sc, lines.len()).err is None,
    ensures
        ({
            let now = after_all(m, m2, prefill_head_run(m, sc, lines.len()).ops);
            &&& now.fetched == m2.fetched.insert(
                0,
                Cell::Hidden { line: lines[lines.len() - 1] },
            )
            &&& now.picked == m2.picked
            &&& now.kv == m2.kv && now.states == m2.states && now.gathered == m2.gathered
        }),
{
    let n = lines.len();
    let hid = hids(batch_banks(sc, ranks));
    let head = sc.head_rank.0 as usize;
    let base = sc.per_rank@[head as int].hidden_a;
    assert(rows_fit(base, n, m.config.hidden_size));
    lemma_row_at(m, base, n - 1, n);
    let x = row_at(base, n - 1, m.config.hidden_size);
    assert(m2.cells[at(head, hid[head as int], n - 1, width(m))] == (Cell::Hidden {
        line: lines[n - 1],
    }));
    assert((head, x.0 as int) == at(head, hid[head as int], n - 1, width(m)));
    lemma_head_download(m, m2, head, x);
}

/// The parts of a prompt in one batch.
proof fn lemma_prompt_parts(
    m: Qwen3MoETpModel,
    sc: ShardedForwardPrefillScratchTp,
    caches: Seq<Vec<LayerCache>>,
    c: BatchCtx,
    tokens: Seq<u32>,
)
    requires
        prefill_batched_ready(m, sc, caches, c, tokens),
        prefill_batched_run(m, sc, caches, c, tokens).err is None,
    ensures
        ({
            let p1 = embed_prompt(m, sc, c.ranks, tokens);
            let p2 = prefill_layers_run(m, sc, caches, c, 0, m.config.num_layers, 0);
            let p3 = prefill_head_run(m, sc, tokens.len());
            &&& p2.err is None
            &&& p3.err is None
            &&& prefill_batched_run(m, sc, caches, c, tokens).ops == p1 + (p2.ops + p3.ops)
        }),
        world_supported(c.ranks as u32),
        c.ranks <= u32::MAX,
        batch_ready(m, sc, c),
        buffers_fit(m, sc, c.ranks, tokens.len()),
        sc.head_rank.0 < c.ranks,
        c.n_tokens == tokens.len(),
        tokens.len() >= 1,
{
}

/// What a prompt in one batch does, from its parts.
proof fn lemma_prompt_whole(
    m: Qwen3MoETpModel,
    sc: ShardedForwardPrefillScratchTp,
    c: BatchCtx,
    tokens: Seq<u32>,
    mc: Mesh,
    m1: Mesh,
    m2: Mesh,
    now: Mesh,
)
    requires
        m.config.num_layers <= usize::MAX,
        calm(mc, m1),
        taken_in(
            m.config,
            c.skip_shared,
            m1,
            m2,
            c.ranks as nat,
            in_a_row(c.start_position as int, tokens.len()),
            embeddings(tokens),
            0,
            0,
            m.config.num_layers as nat,
        ),
        now.kv == m2.kv && now.states == m2.states,
    ensures
        prompt_taken(
            m,
            c.skip_shared,
            mc,
            now,
            c.ranks as nat,
            tokens,
            c.start_position as int,
            m.config.num_layers as nat,
        ),
{
    let nl = m.config.num_layers as nat;
    let p = c.start_position as int;
    lemma_prompt_taken(m, c.skip_shared, m1, m2, c.ranks as nat, tokens, p, nl);
    lemma_same_taken(m, c.skip_shared, m1, m2, mc, now, c.ranks as nat, tokens, p, nl);
}

/// The layers and the head of a prompt in one batch.
proof fn lemma_prompt_rest(
    m: Qwen3MoETpModel,
    sc: ShardedForwardPrefillScratchTp,
    caches: Seq<Vec<LayerCache>>,
    c: BatchCtx,
    tokens: Seq<u32>,
    mc: Mesh,
    m1: Mesh,
)
    requires
        world_supported(c.ranks as u32),
        batch_ready(m, sc, c),
        c.n_tokens == tokens.len() >= 1,
        sc.head_rank.0 < c.ranks,
        buffers_fit(m, sc, c.ranks, tokens.len()),
        batch_room(m, sc, c.ranks, tokens.len()),
        prefill_layers_run(m, sc, caches, c, 0, m.config.num_layers, 0).err is None,
        prefill_head_run(m, sc, tokens.len()).err is None,
        hold(m, m1, hids(batch_banks(sc, c.ranks)), embeddings(tokens)),
        idle(m1, c.ranks as nat),
        calm(mc, m1),
    ensures
        ({
            let p2 = prefill_layers_run(m, sc, caches, c, 0, m.config.num_layers, 0);
            let p3 = prefill_head_run(m, sc, tokens.len());
            let now = after_all(m, m1, p2.ops + p3.ops);
            &&& prompt_taken(
                m,
                c.skip_shared,
                mc,
                now,
                c.ranks as nat,
                tokens,
                c.start_position as int,
                m.config.num_layers as nat,
            )
            &&& now.fetched[0] == (Cell::Hidden {
                line: lived(
                    m.config,
                    c.skip_shared,
                    embedded(tokens[tokens.len() - 1]),
                    c.start_position + tokens.len() - 1,
                    0,
                    m.config.num_layers as nat,
                ),
            })
            &&& now.picked == mc.picked
            &&& idle(now, c.ranks as nat)
        }),
{
    let n = tokens.len();
    let nl = m.config.num_layers as nat;
    let who = in_a_row(c.start_position as int, n);
    let p2 = prefill_layers_run(m, sc, caches, c, 0, m.config.num_layers, 0);
    let p3 = prefill_head_run(m, sc, n);
    let lines = lived_all(m.config, c.skip_shared, embeddings(tokens), who, 0, nl);
    lemma_prompt_layers(m, m1, sc, caches, c, tokens);
    lemma_after_concat(m, m1, p2.ops, p3.ops);
    let m2 = after_all(m, m1, p2.ops);
    lemma_prompt_head(m, m2, sc, c.ranks, lines);
    lemma_prompt_whole(m, sc, c, tokens, mc, m1, m2, after_all(m, m2, p3.ops));
}

/// A prompt that runs in one batch: on every rank each token enters the KV cache of every
/// full-attention layer at the start position plus its number in the prompt, and the
/// recurrent state of every other layer in its turn, as it comes to that layer from all
/// layers before. The logits that are fetched are those of the last token after all layers.
pub proof fn law_batch_takes_prompt(
    m: Qwen3MoETpModel,
    sc: ShardedForwardPrefillScratchTp,
    caches: Seq<Vec<LayerCache>>,
    c: BatchCtx,
    tokens: Seq<u32>,
    mc: Mesh,
)
    requires
        prefill_batched_ready(m, sc, caches, c, tokens),
        prefill_batched_run(m, sc, caches, c, tokens).err is None,
        batch_room(m, sc, c.ranks, tokens.len()),
        idle(mc, c.ranks as nat),
    ensures
        ({
            let now = after_all(m, mc, prefill_batched_run(m, sc, caches, c, tokens).ops);
            let n = tokens.len();
            &&& prompt_taken(
                m,
                c.skip_shared,
                mc,
                now,
                c.ranks as nat,
                tokens,
                c.start_position as int,
                m.config.num_layers as nat,
            )
            &&& now.fetched[0] == (Cell::Hidden {
                line: lived(
                    m.config,
                    c.skip_shared,
                    embedded(tokens[n - 1]),
                    c.start_position + n - 1,
                    0,
                    m.config.num_layers as nat,
                ),
            })
            &&& now.picked == mc.picked
            &&& idle(now, c.ranks as nat)
        }),
{
    let p1 = embed_prompt(m, sc, c.ranks, tokens);
    let p2 = prefill_layers_run(m, sc, caches, c, 0, m.config.num_layers, 0);
    let p3 = prefill_head_run(m, sc, tokens.len());
    let hid = hids(batch_banks(sc, c.ranks));
    lemma_prompt_parts(m, sc, caches, c, tokens);
    lemma_after_concat(m, mc, p1, p2.ops + p3.ops);
    lemma_embed_all(m, mc, sc, c.ranks, tokens, c.ranks as nat);
    assert(hid.take(c.ranks as int) =~= hid);
    lemma_prompt_rest(m, sc, caches, c, tokens, mc, after_all(m, mc, p1));
}

/// The head computes the logits of the row that it is given, and they are fetched.
pub proof fn lemma_head_download(m: Qwen3MoETpModel, mc: Mesh, head: usize, x: DevicePtr)
    ensures
        ({
            let now = after_all(m, mc, head_ops(m, head as int, x, LogitsSink::HostLogits));
            &&& now.fetched == mc.fetched.insert(0, mc.cells[(head, x.0 as int)])
            &&& now.picked == mc.picked
            &&& now.kv == mc.kv && now.states == mc.states && now.gathered == mc.gathered
        }),
{
    let ops = head_ops(m, head as int, x, LogitsSink::HostLogits);
    assert(ops =~= seq![ops[0]].push(ops[1]));
    crate::forward::mesh::lemma_after_push(m, mc, seq![ops[0]], ops[1]);
    lemma_after_one(m, mc, ops[0]);
}

} // verus!
