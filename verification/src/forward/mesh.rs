//! What the operations of a tensor-parallel pass do to the memory of the ranks.
//!
//! A hidden row is known by the token that it began with and by what has been added to
//! it since. An operation whose operands do not belong together leaves an unknown row.

use crate::device::DevicePtr;
use crate::forward::op::{
    weight_of, AttnRefs, DenseFfnRefs, GdnRefs, MoeRefs, Op, SharedRefs, StreamSel, Weight,
};
use crate::forward::moe_tp::MoeBlock;
use crate::forward::rows::{at, put, rows};
use crate::names::blk_name;
use crate::tp_sharded::Qwen3MoETpModel;
use vstd::prelude::*;

verus! {

/// Which part of an FFN.
pub enum FfnPart {
    Dense,
    Routed,
    Shared,
    RoutedAndShared,
}

/// What half a layer adds to a hidden row: full attention with K and V at a position of
/// the cache, a step of a recurrent state, or an FFN.
pub enum Half {
    Attend { layer: usize, position: int },
    Recur { layer: usize },
    Ffn { layer: usize, part: FfnPart },
}

/// A hidden row: the embedding of a token and what was added to it, in order.
#[verifier::ext_equal]
pub struct Line {
    pub token: u32,
    pub halves: Seq<Half>,
}

impl Line {
    /// The row after one more half of a layer.
    pub open spec fn plus(self, half: Half) -> Line {
        Line { token: self.token, halves: self.halves.push(half) }
    }
}

/// The embedding of a token.
pub open spec fn embedded(token: u32) -> Line {
    Line { token, halves: seq![] }
}

/// What a row of memory holds. A share is what one rank contributes to a half; each of
/// its parts is computed on the first number of columns out of the second.
pub enum Cell {
    Hidden { line: Line },
    Normed { line: Line, weight: DevicePtr },
    Share { line: Line, half: Half, rank: usize, parts: Seq<(nat, nat)> },
    Unknown,
}

/// The memory of the ranks and what the next operations will take up.
pub struct Mesh {
    pub cells: Map<(usize, int), Cell>,
    /// The row behind the K and V of a rank, session, cache and position.
    pub kv: Map<(usize, usize, usize, int), Cell>,
    /// The rows that the recurrent state of a rank, session and cache has taken in.
    pub states: Map<(usize, usize, usize), Seq<Cell>>,
    /// Layer, session and position of the KV caches entered on a rank.
    pub gathered: Map<usize, Seq<(usize, usize, usize)>>,
    /// Hidden rows and partial results entered into the next all-reduce.
    pub operands: Map<usize, (DevicePtr, DevicePtr)>,
    /// Weight and result of the norms entered into the next all-reduce.
    pub norms: Map<usize, (DevicePtr, DevicePtr)>,
    /// The layer and the rows for which a rank has selected experts.
    pub routed: Map<usize, (usize, Seq<Cell>)>,
    /// The ranks whose mark stands behind all that they have written.
    pub marked: Set<usize>,
    /// `(q, p)` where `q` does not start before `p` has written all.
    pub ordered: Set<(usize, usize)>,
    /// The row behind the logits of a rank.
    pub logits: Map<usize, Cell>,
    /// The row behind the logits fetched for a session.
    pub fetched: Map<usize, Cell>,
    /// The row behind the logits whose largest was picked.
    pub picked: Option<Cell>,
}

/// `w` is a tensor of layer `layer` on the rank, by the last part of its name.
pub open spec fn named(
    m: Qwen3MoETpModel,
    rank: usize,
    layer: usize,
    suffix: Seq<char>,
    w: Weight,
) -> bool {
    let ts = m.shards@[rank as int].layers@[layer as int]@;
    exists|t: int|
        0 <= t < ts.len() && (#[trigger] ts[t]).name@ == blk_name(layer as nat, suffix)
            && weight_of(ts[t].tensor) == w
}

pub open spec fn attn_named(m: Qwen3MoETpModel, rank: usize, layer: usize, w: AttnRefs) -> bool {
    &&& named(m, rank, layer, "attn_norm.weight"@, w.attn_norm)
    &&& named(m, rank, layer, "attn_q.weight"@, w.attn_q)
    &&& named(m, rank, layer, "attn_k.weight"@, w.attn_k)
    &&& named(m, rank, layer, "attn_v.weight"@, w.attn_v)
    &&& named(m, rank, layer, "attn_output.weight"@, w.attn_output)
    &&& named(m, rank, layer, "attn_q_norm.weight"@, w.attn_q_norm)
    &&& named(m, rank, layer, "attn_k_norm.weight"@, w.attn_k_norm)
}

pub open spec fn gdn_named(m: Qwen3MoETpModel, rank: usize, layer: usize, w: GdnRefs) -> bool {
    &&& named(m, rank, layer, "attn_norm.weight"@, w.attn_norm)
    &&& named(m, rank, layer, "attn_qkv.weight"@, w.attn_qkv)
    &&& named(m, rank, layer, "attn_gate.weight"@, w.attn_gate)
    &&& named(m, rank, layer, "ssm_alpha.weight"@, w.ssm_alpha)
    &&& named(m, rank, layer, "ssm_beta.weight"@, w.ssm_beta)
    &&& named(m, rank, layer, "ssm_a"@, w.ssm_a)
    &&& named(m, rank, layer, "ssm_dt.bias"@, w.ssm_dt_bias)
    &&& named(m, rank, layer, "ssm_conv1d.weight"@, w.ssm_conv1d)
    &&& named(m, rank, layer, "ssm_norm.weight"@, w.ssm_norm)
    &&& named(m, rank, layer, "ssm_out.weight"@, w.ssm_out)
}

pub open spec fn dense_named(
    m: Qwen3MoETpModel,
    rank: usize,
    layer: usize,
    w: DenseFfnRefs,
) -> bool {
    &&& named(m, rank, layer, "ffn_gate.weight"@, w.ffn_gate)
    &&& named(m, rank, layer, "ffn_up.weight"@, w.ffn_up)
    &&& named(m, rank, layer, "ffn_down.weight"@, w.ffn_down)
}

pub open spec fn moe_named(m: Qwen3MoETpModel, rank: usize, layer: usize, w: MoeRefs) -> bool {
    &&& named(m, rank, layer, "ffn_gate_inp.weight"@, w.router)
    &&& named(m, rank, layer, "ffn_gate_exps.weight"@, w.gate_exps)
    &&& named(m, rank, layer, "ffn_up_exps.weight"@, w.up_exps)
    &&& named(m, rank, layer, "ffn_down_exps.weight"@, w.down_exps)
}

pub open spec fn shared_named(
    m: Qwen3MoETpModel,
    rank: usize,
    layer: usize,
    w: SharedRefs,
) -> bool {
    &&& named(m, rank, layer, "ffn_gate_shexp.weight"@, w.gate)
    &&& named(m, rank, layer, "ffn_up_shexp.weight"@, w.up)
    &&& named(m, rank, layer, "ffn_down_shexp.weight"@, w.down)
    &&& match w.gate_inp {
        Some(g) => named(m, rank, layer, "ffn_gate_inp_shexp.weight"@, g),
        None => forall|g: Weight| !named(m, rank, layer, "ffn_gate_inp_shexp.weight"@, g),
    }
}

/// `w` is the norm before the FFN of the layer, under either of its names.
pub open spec fn is_ffn_norm(m: Qwen3MoETpModel, rank: usize, layer: usize, w: Weight) -> bool {
    ||| named(m, rank, layer, "post_attention_norm.weight"@, w)
    ||| named(m, rank, layer, "ffn_norm.weight"@, w)
}

/// At this address is the norm before the FFN of the layer.
pub open spec fn ffn_norm_named(
    m: Qwen3MoETpModel,
    rank: usize,
    layer: usize,
    weight: DevicePtr,
) -> bool {
    exists|w: Weight| #[trigger] is_ffn_norm(m, rank, layer, w) && w.ptr == weight
}

/// The shapes are those of a share of the experts.
pub open spec fn experts_shaped(m: Qwen3MoETpModel, b: MoeBlock) -> bool {
    &&& b.hidden == m.config.hidden_size
    &&& b.num_experts == m.config.num_experts
    &&& b.top_k == m.config.num_experts_per_tok
    &&& b.gate_rows == m.config.num_experts * b.local_inter
    &&& b.down_rows == m.config.num_experts * m.config.hidden_size
}

/// Bytes of a hidden row.
pub open spec fn width(m: Qwen3MoETpModel) -> int {
    m.config.hidden_size * 2
}

/// Rows that so many elements fill.
pub open spec fn full_rows(m: Qwen3MoETpModel, elems: int) -> nat {
    if m.config.hidden_size > 0 && elems >= 0 {
        (elems / m.config.hidden_size as int) as nat
    } else {
        0
    }
}

/// Attention on a row: a share of what it adds.
pub open spec fn attended(x: Cell, ok: bool, half: Half, rank: usize, world: u32) -> Cell {
    match x {
        Cell::Hidden { line } => if ok {
            Cell::Share { line, half, rank, parts: seq![(1, world as nat)] }
        } else {
            Cell::Unknown
        },
        _ => Cell::Unknown,
    }
}

/// An FFN on a normed row: a share of what it adds.
pub open spec fn fed(
    m: Qwen3MoETpModel,
    x: Cell,
    ok: bool,
    layer: usize,
    part: FfnPart,
    rank: usize,
    columns: (nat, nat),
) -> Cell {
    match x {
        Cell::Normed { line, weight } => if ok && ffn_norm_named(m, rank, layer, weight) {
            Cell::Share { line, half: Half::Ffn { layer, part }, rank, parts: seq![columns] }
        } else {
            Cell::Unknown
        },
        _ => Cell::Unknown,
    }
}

/// `c` is the share of rank `p`, one of `world` that make up the whole.
pub open spec fn share_of(c: Cell, line: Line, half: Half, p: usize, world: nat) -> bool {
    match c {
        Cell::Share { line: l, half: h, rank, parts } => {
            &&& l == line
            &&& h == half
            &&& rank == p
            &&& forall|j: int|
                0 <= j < parts.len() ==> (#[trigger] parts[j]).0 * world == parts[j].1
        },
        _ => false,
    }
}

/// The sum of two rows.
pub open spec fn summed(a: Cell, b: Cell, rank: usize) -> Cell {
    match (a, b) {
        (Cell::Hidden { line }, Cell::Share { half, .. }) => if share_of(b, line, half, rank, 1) {
            Cell::Hidden { line: line.plus(half) }
        } else {
            Cell::Unknown
        },
        (
            Cell::Share { line, half: Half::Ffn { layer, part: FfnPart::Routed }, rank: ra, parts },
            Cell::Share {
                line: lb,
                half: Half::Ffn { layer: yb, part: FfnPart::Shared },
                rank: rb,
                parts: pb,
            },
        ) => if line == lb && layer == yb && ra == rb {
            Cell::Share {
                line,
                half: Half::Ffn { layer, part: FfnPart::RoutedAndShared },
                rank: ra,
                parts: parts + pb,
            }
        } else {
            Cell::Unknown
        },
        _ => Cell::Unknown,
    }
}

pub open spec fn normed(x: Cell, weight: DevicePtr) -> Cell {
    match x {
        Cell::Hidden { line } => Cell::Normed { line, weight },
        _ => Cell::Unknown,
    }
}

/// Row `i` of rank `q` after an all-reduce: its hidden row with the shares of all ranks.
pub open spec fn joined(m: Qwen3MoETpModel, mc: Mesh, world: u32, q: usize, i: int) -> Cell {
    let own = mc.cells[at(q, mc.operands[q].1, i, width(m))];
    match (mc.cells[at(q, mc.operands[q].0, i, width(m))], own) {
        (Cell::Hidden { line }, Cell::Share { half, .. }) => if (forall|p: usize|
            p < world ==> {
                &&& share_of(
                    mc.cells[at(p, (#[trigger] mc.operands[p]).1, i, width(m))],
                    line,
                    half,
                    p,
                    world as nat,
                )
                &&& p != q ==> mc.ordered.contains((q, p))
            }) {
            Cell::Hidden { line: line.plus(half) }
        } else {
            Cell::Unknown
        },
        _ => Cell::Unknown,
    }
}

/// The memory after the ranks below `k` have taken the result of an all-reduce.
pub open spec fn reduced(m: Qwen3MoETpModel, mc: Mesh, world: u32, n: nat, k: nat) -> Map<
    (usize, int),
    Cell,
>
    decreases k,
{
    if k == 0 {
        mc.cells
    } else {
        let q = (k - 1) as usize;
        put(
            reduced(m, mc, world, n, (k - 1) as nat),
            q,
            mc.operands[q].0,
            width(m),
            Seq::new(n, |i: int| joined(m, mc, world, q, i)),
        )
    }
}

/// The memory after the ranks below `k` have normed their hidden rows.
pub open spec fn renormed(
    m: Qwen3MoETpModel,
    mc: Mesh,
    cells: Map<(usize, int), Cell>,
    n: nat,
    k: nat,
) -> Map<(usize, int), Cell>
    decreases k,
{
    if k == 0 {
        cells
    } else {
        let q = (k - 1) as usize;
        let before = renormed(m, mc, cells, n, (k - 1) as nat);
        put(
            before,
            q,
            mc.norms[q].1,
            width(m),
            Seq::new(
                n,
                |i: int| normed(before[at(q, mc.operands[q].0, i, width(m))], mc.norms[q].0),
            ),
        )
    }
}

/// The K and V of rows at consecutive positions have been stored.
pub open spec fn stored(
    kv: Map<(usize, usize, usize, int), Cell>,
    rank: usize,
    session: usize,
    cache: usize,
    position: int,
    xs: Seq<Cell>,
) -> Map<(usize, usize, usize, int), Cell>
    decreases xs.len(),
{
    if xs.len() == 0 {
        kv
    } else {
        stored(kv, rank, session, cache, position, xs.drop_last()).insert(
            (rank, session, cache, position + xs.len() - 1),
            xs.last(),
        )
    }
}

/// The K and V of rows of several sessions have been stored.
pub open spec fn stored_slots(
    kv: Map<(usize, usize, usize, int), Cell>,
    rank: usize,
    cache: usize,
    slots: Seq<(usize, usize, usize)>,
    xs: Seq<Cell>,
    k: nat,
) -> Map<(usize, usize, usize, int), Cell>
    decreases k,
{
    if k == 0 {
        kv
    } else {
        stored_slots(kv, rank, cache, slots, xs, (k - 1) as nat).insert(
            (rank, slots[k - 1].1, cache, slots[k - 1].2 as int),
            xs[k - 1],
        )
    }
}

/// The mesh after a rank has written rows: what others knew of its progress is void.
pub open spec fn wrote(
    m: Qwen3MoETpModel,
    mc: Mesh,
    rank: usize,
    out: DevicePtr,
    vals: Seq<Cell>,
) -> Mesh {
    Mesh {
        cells: put(mc.cells, rank, out, width(m), vals),
        marked: mc.marked.remove(rank),
        ordered: mc.ordered.filter(|e: (usize, usize)| e.1 != rank),
        ..mc
    }
}

/// The mesh after an operation.
pub open spec fn after(m: Qwen3MoETpModel, mc: Mesh, op: Op) -> Mesh {
    let w = width(m);
    match op {
        Op::Embed { rank, stream, table, token, dst, hidden } => wrote(
            m,
            mc,
            rank,
            dst,
            seq![
                if table == weight_of(m.shards@[rank as int].token_embd) && hidden
                    == m.config.hidden_size {
                    Cell::Hidden { line: embedded(token) }
                } else {
                    Cell::Unknown
                },
            ],
        ),
        Op::FullAttn {
            rank,
            layer,
            cache,
            w: refs,
            pass,
            x,
            out,
            n_tokens,
            position,
            world,
            kv_replicated,
        } => {
            let xs = rows(mc.cells, rank, x, w, n_tokens as nat);
            let ok = attn_named(m, rank, layer, refs) && kv_replicated
                == m.tp.spec_kv_replicated();
            Mesh {
                kv: stored(mc.kv, rank, 0, cache, position as int, xs),
                ..wrote(
                    m,
                    mc,
                    rank,
                    out,
                    Seq::new(
                        n_tokens as nat,
                        |i: int|
                            attended(
                                xs[i],
                                ok,
                                Half::Attend { layer, position: position + i },
                                rank,
                                world,
                            ),
                    ),
                )
            }
        },
        Op::GatherKv { rank, layer, slot, position } => Mesh {
            gathered: mc.gathered.insert(
                rank,
                mc.gathered[rank].push((layer, slot, position)),
            ),
            ..mc
        },
        Op::FullAttnSlots { rank, layer, w: refs, x, out, n_slots, world, kv_replicated } => {
            let xs = rows(mc.cells, rank, x, w, n_slots as nat);
            let slots = mc.gathered[rank];
            let ok = attn_named(m, rank, layer, refs) && kv_replicated
                == m.tp.spec_kv_replicated() && slots.len() == n_slots && forall|i: int|
                0 <= i < slots.len() ==> (#[trigger] slots[i]).0 == layer;
            Mesh {
                kv: stored_slots(mc.kv, rank, layer, slots, xs, n_slots as nat),
                gathered: mc.gathered.insert(rank, seq![]),
                ..wrote(
                    m,
                    mc,
                    rank,
                    out,
                    Seq::new(
                        n_slots as nat,
                        |i: int|
                            attended(
                                xs[i],
                                ok,
                                Half::Attend { layer, position: slots[i].2 as int },
                                rank,
                                world,
                            ),
                    ),
                )
            }
        },
        Op::Gdn {
            rank,
            layer,
            cache,
            slot,
            w: refs,
            pass,
            x,
            out,
            n_tokens,
            world,
            kq_replicated,
        } => {
            let xs = rows(mc.cells, rank, x, w, n_tokens as nat);
            let ok = gdn_named(m, rank, layer, refs) && !kq_replicated;
            Mesh {
                states: mc.states.insert(
                    (rank, slot, cache),
                    mc.states[(rank, slot, cache)] + xs,
                ),
                ..wrote(
                    m,
                    mc,
                    rank,
                    out,
                    Seq::new(
                        n_tokens as nat,
                        |i: int| attended(xs[i], ok, Half::Recur { layer }, rank, world),
                    ),
                )
            }
        },
        Op::RecordDone { rank } => Mesh { marked: mc.marked.insert(rank), ..mc },
        Op::WaitDone { rank, peer } => if mc.marked.contains(peer) {
            Mesh { ordered: mc.ordered.insert((rank, peer)), ..mc }
        } else {
            mc
        },
        Op::Sync { rank, stream } => match stream {
            StreamSel::Default => Mesh {
                ordered: mc.ordered.union(Set::new(|e: (usize, usize)| e.1 == rank)),
                ..mc
            },
            StreamSel::Aux(_) => mc,
        },
        Op::ArOperand { rank, hidden, partial } => Mesh {
            operands: mc.operands.insert(rank, (hidden, partial)),
            ..mc
        },
        Op::ArNorm { rank, weight, out } => Mesh {
            norms: mc.norms.insert(rank, (weight, out)),
            ..mc
        },
        Op::AllReduce { world, elems } => {
            let n = full_rows(m, elems as int);
            Mesh {
                cells: reduced(m, mc, world, n, world as nat),
                operands: Map::empty(),
                marked: Set::empty(),
                ordered: Set::empty(),
                ..mc
            }
        },
        Op::AllReduceNorm { world, elems } => {
            let n = full_rows(m, elems as int);
            Mesh {
                cells: renormed(m, mc, reduced(m, mc, world, n, world as nat), n, world as nat),
                operands: Map::empty(),
                norms: Map::empty(),
                marked: Set::empty(),
                ordered: Set::empty(),
                ..mc
            }
        },
        Op::Add { rank, a, b, out, elems } => wrote(
            m,
            mc,
            rank,
            out,
            Seq::new(
                full_rows(m, elems as int),
                |i: int| summed(mc.cells[at(rank, a, i, w)], mc.cells[at(rank, b, i, w)], rank),
            ),
        ),
        Op::RmsNorm { rank, x, weight, out, rows: n, hidden } => wrote(
            m,
            mc,
            rank,
            out,
            Seq::new(
                n as nat,
                |i: int|
                    if hidden == m.config.hidden_size {
                        normed(mc.cells[at(rank, x, i, w)], weight)
                    } else {
                        Cell::Unknown
                    },
            ),
        ),
        Op::DenseFfn { rank, layer, w: refs, pass, x, out, n_tokens, world, pre_quantized } => wrote(
            m,
            mc,
            rank,
            out,
            Seq::new(
                n_tokens as nat,
                |i: int|
                    fed(
                        m,
                        mc.cells[at(rank, x, i, w)],
                        dense_named(m, rank, layer, refs) && !pre_quantized,
                        layer,
                        FfnPart::Dense,
                        rank,
                        (1, world as nat),
                    ),
            ),
        ),
        Op::Router { rank, layer, w: refs, pass, x, n_tokens } => Mesh {
            routed: if named(m, rank, layer, "ffn_gate_inp.weight"@, refs) {
                mc.routed.insert(rank, (layer, rows(mc.cells, rank, x, w, n_tokens as nat)))
            } else {
                mc.routed.remove(rank)
            },
            ..mc
        },
        Op::SharedExpert { rank, layer, w: refs, block, pass, x, out, n_tokens } => wrote(
            m,
            mc,
            rank,
            out,
            Seq::new(
                n_tokens as nat,
                |i: int|
                    fed(
                        m,
                        mc.cells[at(rank, x, i, w)],
                        shared_named(m, rank, layer, refs) && block.hidden == m.config.hidden_size
                            && m.config.shared_expert_intermediate_size is Some,
                        layer,
                        FfnPart::Shared,
                        rank,
                        (
                            block.local_inter as nat,
                            m.config.shared_expert_intermediate_size->0 as nat,
                        ),
                    ),
            ),
        ),
        Op::MoeFfn { rank, layer, w: refs, block, pass, x, out, n_tokens } => wrote(
            m,
            mc,
            rank,
            out,
            Seq::new(
                n_tokens as nat,
                |i: int|
                    fed(
                        m,
                        mc.cells[at(rank, x, i, w)],
                        moe_named(m, rank, layer, refs) && experts_shaped(m, block)
                            && mc.routed.dom().contains(rank) && mc.routed[rank] == (
                            layer,
                            rows(mc.cells, rank, x, w, n_tokens as nat),
                        ),
                        layer,
                        FfnPart::Routed,
                        rank,
                        (block.local_inter as nat, m.config.moe_intermediate_size as nat),
                    ),
            ),
        ),
        Op::OutputHead { rank, norm, lm_head, x } => {
            let s = m.shards@[rank as int];
            let table = match s.output {
                Some(t) => t,
                None => s.token_embd,
            };
            Mesh {
                logits: mc.logits.insert(
                    rank,
                    if norm == weight_of(s.output_norm) && lm_head == weight_of(table) {
                        mc.cells[(rank, x.0 as int)]
                    } else {
                        Cell::Unknown
                    },
                ),
                ..mc
            }
        },
        Op::DownloadLogits { rank, slot, vocab } => Mesh {
            fetched: mc.fetched.insert(
                slot,
                if vocab == m.config.vocab_size {
                    mc.logits[rank]
                } else {
                    Cell::Unknown
                },
            ),
            ..mc
        },
        Op::Argmax { rank, vocab } => Mesh {
            picked: Some(
                if vocab == m.config.vocab_size {
                    mc.logits[rank]
                } else {
                    Cell::Unknown
                },
            ),
            ..mc
        },
        Op::Copy { rank, stream, dst, src, bytes } => wrote(
            m,
            mc,
            rank,
            dst,
            rows(mc.cells, rank, src, w, full_rows(m, bytes as int / 2)),
        ),
        Op::PeerCopy { mode, dst_rank, dst, src_rank, src, bytes } => wrote(
            m,
            mc,
            dst_rank,
            dst,
            rows(mc.cells, src_rank, src, w, full_rows(m, bytes as int / 2)),
        ),
        Op::Layer { rank, out, n_tokens, .. } => wrote(
            m,
            mc,
            rank,
            out,
            Seq::new(n_tokens as nat, |i: int| Cell::Unknown),
        ),
        Op::GdnLayer { rank, out, .. } => wrote(m, mc, rank, out, seq![Cell::Unknown]),
        Op::ReserveStreams { .. } => mc,
        Op::ReserveBounces { .. } => mc,
        Op::ReserveLaneBounces { .. } => mc,
    }
}

/// The mesh after operations in order.
pub open spec fn after_all(m: Qwen3MoETpModel, mc: Mesh, ops: Seq<Op>) -> Mesh
    decreases ops.len(),
{
    if ops.len() == 0 {
        mc
    } else {
        after(m, after_all(m, mc, ops.drop_last()), ops.last())
    }
}

pub proof fn lemma_after_concat(m: Qwen3MoETpModel, mc: Mesh, a: Seq<Op>, b: Seq<Op>)
    ensures
        after_all(m, mc, a + b) == after_all(m, after_all(m, mc, a), b),
    decreases b.len(),
{
    if b.len() == 0 {
        assert(a + b =~= a);
    } else {
        lemma_after_concat(m, mc, a, b.drop_last());
        assert((a + b).drop_last() =~= a + b.drop_last());
        assert((a + b).last() == b.last());
    }
}

pub proof fn lemma_after_one(m: Qwen3MoETpModel, mc: Mesh, op: Op)
    ensures
        after_all(m, mc, seq![op]) == after(m, mc, op),
{
    assert(seq![op].drop_last() =~= seq![]);
    assert(after_all(m, mc, seq![op].drop_last()) == mc);
}

pub proof fn lemma_after_push(m: Qwen3MoETpModel, mc: Mesh, ops: Seq<Op>, op: Op)
    ensures
        after_all(m, mc, ops.push(op)) == after(m, after_all(m, mc, ops), op),
{
    assert(ops.push(op).drop_last() =~= ops);
}

} // verus!
