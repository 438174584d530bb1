//! What the operations of a pipelined pass do to every row of a batch.

use crate::device::DevicePtr;
use crate::forward::op::{weight_of, Op};
use crate::forward::pp::{back_ops, chain_ops, layer_op, x_at, Chain};
use crate::forward::rows::{apart, at, lemma_put, only, put, rows, within};
use crate::plan::flat;
use crate::sharded::Qwen3MoEShardedModel;
use crate::weights::LayerWeights;
use vstd::prelude::*;

verus! {

/// A hidden row: the token whose embedding it began with, and the layers that it went
/// through, each with the position of the token. It is not sound where an operation was
/// given weights that do not belong to it.
#[verifier::ext_equal]
pub struct Trail {
    pub token: u32,
    pub layers: Seq<(usize, int)>,
    pub sound: bool,
}

/// The rows of all ranks, what the caches of each layer have taken in, and the rows behind
/// the logits.
pub struct Pipe {
    pub rows: Map<(usize, int), Trail>,
    /// By rank and number of the layer on it: positions and rows, in order.
    pub taken: Map<(usize, usize), Seq<(int, Trail)>>,
    pub logits: Map<usize, Trail>,
    pub fetched: Map<usize, Trail>,
    pub picked: Option<Trail>,
}

/// The row after one more layer.
pub open spec fn through(t: Trail, layer: usize, position: int, sound: bool) -> Trail {
    Trail {
        token: t.token,
        layers: t.layers.push((layer, position)),
        sound: t.sound && sound,
    }
}

/// Bytes of a hidden row.
pub open spec fn row_bytes(m: Qwen3MoEShardedModel) -> int {
    m.config.hidden_size * 2
}

/// Rows that so many bytes fill.
pub open spec fn rows_in(m: Qwen3MoEShardedModel, bytes: usize) -> nat {
    if m.config.hidden_size > 0 {
        (bytes as int / row_bytes(m)) as nat
    } else {
        0
    }
}

/// The logits come from the weights of the rank.
pub open spec fn of_head(t: Trail, sound: bool) -> Trail {
    Trail { sound: t.sound && sound, ..t }
}

/// The pipeline after an operation.
pub open spec fn next(m: Qwen3MoEShardedModel, p: Pipe, op: Op) -> Pipe {
    let w = row_bytes(m);
    match op {
        Op::Embed { rank, stream, table, token, dst, hidden } => Pipe {
            rows: put(
                p.rows,
                rank,
                dst,
                w,
                seq![
                    Trail {
                        token,
                        layers: seq![],
                        sound: hidden == m.config.hidden_size
                            && m.shards@[rank as int].token_embd is Some && table == weight_of(
                            m.shards@[rank as int].token_embd->0,
                        ),
                    },
                ],
            ),
            ..p
        },
        Op::Layer { rank, stream, local, layer, pass, x, out, n_tokens, position, ordered } => {
            let xs = rows(p.rows, rank, x, w, n_tokens as nat);
            let own = m.shards@[rank as int].layers@[local as int].layer_idx == layer;
            Pipe {
                rows: put(
                    p.rows,
                    rank,
                    out,
                    w,
                    Seq::new(
                        n_tokens as nat,
                        |i: int| through(xs[i], layer, position + i, own),
                    ),
                ),
                taken: p.taken.insert(
                    (rank, local),
                    p.taken[(rank, local)] + Seq::new(
                        n_tokens as nat,
                        |i: int| (position + i, xs[i]),
                    ),
                ),
                ..p
            }
        },
        Op::GdnLayer { rank, local, layer, x, out } => Pipe {
            rows: p.rows.remove((rank, out.0 as int)),
            taken: p.taken.remove((rank, local)),
            ..p
        },
        Op::Copy { rank, stream, dst, src, bytes } => Pipe {
            rows: put(p.rows, rank, dst, w, rows(p.rows, rank, src, w, rows_in(m, bytes))),
            ..p
        },
        Op::PeerCopy { mode, dst_rank, dst, src_rank, src, bytes } => Pipe {
            rows: put(
                p.rows,
                dst_rank,
                dst,
                w,
                rows(p.rows, src_rank, src, w, rows_in(m, bytes)),
            ),
            ..p
        },
        Op::OutputHead { rank, norm, lm_head, x } => {
            let s = m.shards@[rank as int];
            let own = s.output_norm is Some && norm == weight_of(s.output_norm->0) && match s.output {
                Some(t) => lm_head == weight_of(t),
                None => s.token_embd is Some && lm_head == weight_of(s.token_embd->0),
            };
            Pipe { logits: p.logits.insert(rank, of_head(p.rows[(rank, x.0 as int)], own)), ..p }
        },
        Op::DownloadLogits { rank, slot, vocab } => Pipe {
            fetched: p.fetched.insert(
                slot,
                of_head(p.logits[rank], vocab == m.config.vocab_size),
            ),
            ..p
        },
        Op::Argmax { rank, vocab } => Pipe {
            picked: Some(of_head(p.logits[rank], vocab == m.config.vocab_size)),
            ..p
        },
        _ => p,
    }
}

/// The pipeline after operations in order.
pub open spec fn run_all(m: Qwen3MoEShardedModel, p: Pipe, ops: Seq<Op>) -> Pipe
    decreases ops.len(),
{
    if ops.len() == 0 {
        p
    } else {
        next(m, run_all(m, p, ops.drop_last()), ops.last())
    }
}

pub proof fn lemma_run_concat(m: Qwen3MoEShardedModel, p: Pipe, a: Seq<Op>, b: Seq<Op>)
    ensures
        run_all(m, p, a + b) == run_all(m, run_all(m, p, a), b),
    decreases b.len(),
{
    if b.len() == 0 {
        assert(a + b =~= a);
    } else {
        lemma_run_concat(m, p, a, b.drop_last());
        assert((a + b).drop_last() =~= a + b.drop_last());
        assert((a + b).last() == b.last());
    }
}

pub proof fn lemma_run_one(m: Qwen3MoEShardedModel, p: Pipe, op: Op)
    ensures
        run_all(m, p, seq![op]) == next(m, p, op),
{
    assert(seq![op].drop_last() =~= seq![]);
    assert(run_all(m, p, seq![op].drop_last()) == p);
}

/// A row after the first `l` of the layers, at a position.
pub open spec fn walked(layers: Seq<LayerWeights>, t: Trail, position: int, l: nat) -> Trail {
    Trail {
        token: t.token,
        layers: t.layers + Seq::new(l, |i: int| (layers[i].layer_idx, position)),
        sound: t.sound,
    }
}

/// Rank `r` holds the rows behind `base`.
pub open spec fn holds(
    m: Qwen3MoEShardedModel,
    p: Pipe,
    r: usize,
    base: DevicePtr,
    trails: Seq<Trail>,
) -> bool {
    forall|i: int|
        0 <= i < trails.len() ==> p.rows[#[trigger] at(r, base, i, row_bytes(m))] == trails[i]
}

/// All rows of a batch after the first `l` of the layers, the first at `position`.
pub open spec fn walked_all(
    layers: Seq<LayerWeights>,
    trails: Seq<Trail>,
    position: int,
    l: nat,
) -> Seq<Trail> {
    Seq::new(trails.len(), |i: int| walked(layers, trails[i], position + i, l))
}

/// The rows with their positions.
pub open spec fn placed(trails: Seq<Trail>, position: int) -> Seq<(int, Trail)> {
    Seq::new(trails.len(), |i: int| (position + i, trails[i]))
}

/// The first `l` layers of rank `r` have taken in the rows as they came to each of them,
/// and no other layer has taken in anything.
pub open spec fn fed_to(
    before: Pipe,
    now: Pipe,
    r: usize,
    layers: Seq<LayerWeights>,
    trails: Seq<Trail>,
    position: int,
    l: nat,
) -> bool {
    &&& forall|d: usize|
        d < l ==> #[trigger] now.taken[(r, d)] == before.taken[(r, d)] + placed(
            walked_all(layers, trails, position, d as nat),
            position,
        )
    &&& forall|e: (usize, usize)|
        !(e.0 == r && e.1 < l) ==> #[trigger] now.taken[e] == before.taken[e]
}

/// Logits and what was fetched are as they were.
pub open spec fn no_logits(a: Pipe, b: Pipe) -> bool {
    b.logits == a.logits && b.fetched == a.fetched && b.picked == a.picked
}

/// Nothing but two buffers of a rank may differ.
pub open spec fn only_two(
    m: Qwen3MoEShardedModel,
    before: Pipe,
    now: Pipe,
    r: usize,
    a: DevicePtr,
    b: DevicePtr,
    n: nat,
) -> bool {
    forall|e: (usize, int)|
        !within(e, r, a, row_bytes(m), n) && !within(e, r, b, row_bytes(m), n)
            ==> #[trigger] now.rows[e] == before.rows[e]
}

/// Rows that are copied arrive.
pub proof fn lemma_copied(
    m: Qwen3MoEShardedModel,
    p: Pipe,
    src_rank: usize,
    src: DevicePtr,
    dst_rank: usize,
    dst: DevicePtr,
    bytes: usize,
    trails: Seq<Trail>,
)
    requires
        m.config.hidden_size > 0,
        bytes == trails.len() * row_bytes(m),
        holds(m, p, src_rank, src, trails),
    ensures
        ({
            let w = row_bytes(m);
            let now = Pipe {
                rows: put(p.rows, dst_rank, dst, w, rows(p.rows, src_rank, src, w, rows_in(m, bytes))),
                ..p
            };
            &&& holds(m, now, dst_rank, dst, trails)
            &&& only(p.rows, now.rows, dst_rank, dst, w, trails.len())
        }),
{
    let w = row_bytes(m);
    let n = trails.len() as int;
    assert((n * w) / w == n) by (nonlinear_arith)
        requires
            w > 0,
    ;
    assert(rows(p.rows, src_rank, src, w, trails.len()) =~= trails);
    lemma_put(p.rows, dst_rank, dst, w, trails);
}

/// The first `l` layers of a rank.
proof fn lemma_walk(
    m: Qwen3MoEShardedModel,
    p: Pipe,
    c: Chain,
    trails: Seq<Trail>,
    l: nat,
)
    requires
        m.config.hidden_size > 0,
        l <= m.shards@[c.rank as int].layers@.len() <= usize::MAX,
        c.n_tokens == trails.len(),
        apart(c.a, c.b, row_bytes(m), trails.len()),
        holds(m, p, c.rank, c.a, trails),
    ensures
        ({
            let layers = m.shards@[c.rank as int].layers@;
            let now = run_all(m, p, flat(l, |i: int| seq![layer_op(m.config, layers, c, i)]));
            let x = x_at(c.a, c.b, l as int);
            &&& holds(m, now, c.rank, x, walked_all(layers, trails, c.position as int, l))
            &&& only_two(m, p, now, c.rank, c.a, c.b, trails.len())
            &&& fed_to(p, now, c.rank, layers, trails, c.position as int, l)
            &&& no_logits(p, now)
        }),
    decreases l,
{
    let layers = m.shards@[c.rank as int].layers@;
    let f = |i: int| seq![layer_op(m.config, layers, c, i)];
    let w = row_bytes(m);
    let n = trails.len();
    let pos = c.position as int;
    if l == 0 {
        assert forall|i: int| 0 <= i < n implies #[trigger] walked_all(layers, trails, pos, 0)[i]
            == trails[i] by {
            assert(walked(layers, trails[i], pos + i, 0) =~= trails[i]);
        }
    } else {
        let j = (l - 1) as nat;
        let jj = j as int;
        lemma_walk(m, p, c, trails, j);
        lemma_run_concat(m, p, flat(j, f), f(jj));
        let b = run_all(m, p, flat(j, f));
        let now = run_all(m, p, flat(l, f));
        let op = layer_op(m.config, layers, c, jj);
        lemma_run_one(m, b, op);
        let x = x_at(c.a, c.b, jj);
        let out = x_at(c.a, c.b, l as int);
        let mid = walked_all(layers, trails, pos, j);
        let xs = rows(b.rows, c.rank, x, w, n);
        assert(xs =~= mid);
        let layer = layers[jj].layer_idx;
        let vals = Seq::new(
            n,
            |i: int|
                through(
                    xs[i],
                    layer,
                    c.position + i,
                    m.shards@[c.rank as int].layers@[jj as usize as int].layer_idx == layer,
                ),
        );
        assert(now.rows == put(b.rows, c.rank, out, w, vals));
        lemma_put(b.rows, c.rank, out, w, vals);
        let last = walked_all(layers, trails, pos, l);
        assert forall|i: int| 0 <= i < n implies #[trigger] last[i] == vals[i] by {
            assert(last[i].layers =~= mid[i].layers.push((layer, pos + i)));
        }
        assert(holds(m, now, c.rank, out, last)) by {
            assert forall|i: int| 0 <= i < n implies now.rows[#[trigger] at(c.rank, out, i, w)]
                == last[i] by {
                assert(now.rows[at(c.rank, out, i, w)] == vals[i]);
            }
        }
        assert forall|e: (usize, int)|
            !within(e, c.rank, c.a, w, n) && !within(e, c.rank, c.b, w, n) implies #[trigger] now.rows[e]
            == p.rows[e] by {
            assert(b.rows[e] == p.rows[e]);
        }
        assert(Seq::new(n, |i: int| (c.position + i, xs[i])) =~= placed(mid, pos));
        assert forall|d: usize| d < l implies #[trigger] now.taken[(c.rank, d)] == p.taken[(
            c.rank,
            d,
        )] + placed(walked_all(layers, trails, pos, d as nat), pos) by {
            if d < j {
                assert(b.taken[(c.rank, d)] == p.taken[(c.rank, d)] + placed(
                    walked_all(layers, trails, pos, d as nat),
                    pos,
                ));
            } else {
                assert(b.taken[(c.rank, d)] == p.taken[(c.rank, d)]);
            }
        }
        assert forall|e: (usize, usize)| !(e.0 == c.rank && e.1 < l) implies #[trigger] now.taken[e]
            == p.taken[e] by {
            assert(b.taken[e] == p.taken[e]);
        }
    }
}

/// A rank's layers: every row of the batch goes through all of them, each at the position of
/// its own token, and ends in the row of the same number of the first buffer.
pub proof fn lemma_chain_rows(m: Qwen3MoEShardedModel, p: Pipe, c: Chain, trails: Seq<Trail>)
    requires
        m.config.hidden_size > 0,
        m.shards@[c.rank as int].layers@.len() <= usize::MAX,
        c.n_tokens == trails.len(),
        c.bytes == trails.len() * row_bytes(m),
        apart(c.a, c.b, row_bytes(m), trails.len()),
        holds(m, p, c.rank, c.a, trails),
    ensures
        ({
            let layers = m.shards@[c.rank as int].layers@;
            let now = run_all(m, p, chain_ops(m.config, layers, c));
            &&& holds(
                m,
                now,
                c.rank,
                c.a,
                walked_all(layers, trails, c.position as int, layers.len()),
            )
            &&& only_two(m, p, now, c.rank, c.a, c.b, trails.len())
            &&& fed_to(p, now, c.rank, layers, trails, c.position as int, layers.len())
            &&& no_logits(p, now)
        }),
{
    let layers = m.shards@[c.rank as int].layers@;
    let n = layers.len();
    let f = |i: int| seq![layer_op(m.config, layers, c, i)];
    let back = back_ops(c, n);
    lemma_walk(m, p, c, trails, n);
    lemma_run_concat(m, p, flat(n, f), back);
    let mid = run_all(m, p, flat(n, f));
    let last = walked_all(layers, trails, c.position as int, n);
    if x_at(c.a, c.b, n as int) != c.a {
        assert(back =~= seq![back[0]]);
        lemma_run_one(m, mid, back[0]);
        assert(trails.len() == last.len());
        lemma_copied(m, mid, c.rank, c.b, c.rank, c.a, c.bytes, last);
        let now = run_all(m, p, chain_ops(m.config, layers, c));
        assert forall|e: (usize, int)|
            !within(e, c.rank, c.a, row_bytes(m), trails.len()) && !within(
                e,
                c.rank,
                c.b,
                row_bytes(m),
                trails.len(),
            ) implies #[trigger] now.rows[e] == p.rows[e] by {
            assert(mid.rows[e] == p.rows[e]);
        }
    }
}

} // verus!
