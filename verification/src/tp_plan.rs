//! Which tensors a rank of a mesh takes from the file, in which order, and how it
//! comes by its share of each.

use crate::config::Qwen3MoEConfig;
use crate::layout::{LayerDescriptor, ModelLayout, ResolvedTensor, TensorDirectory};
use crate::load_error::LoadError;
use crate::plan::{done, each, fail, flat, lemma_each_stops, lemma_ran_then2, ran, Run};
use crate::tensor::GgmlDType;
use crate::text::spec_ends_with;
use crate::tp_layout::Qwen35DenseTpLayout;
use crate::tp_load::{route_of, tp_route, TpRoute};
use crate::tp_sharded::{
    collect_layer_tensor_names, layer_names, made_model, range_error, shard_of, Qwen3MoETpModel,
    TpLayerTensor, TpLoadOpts, TpRankParts,
};
use crate::upload::{half_name, name_of_half};
use vstd::prelude::*;

verus! {

/// What of a tensor of the file a rank keeps under one name.
#[derive(Debug, Clone, Copy, PartialEq, Eq, Structural)]
pub enum TpPart {
    /// Its share of the whole tensor.
    Whole,
    /// Its share of the alpha rows of a fused tensor.
    Alpha,
    /// Its share of the beta rows of a fused tensor.
    Beta,
}

/// A tensor that a rank takes from the file.
#[derive(Debug)]
pub struct TpItem {
    /// The tensor's name in the file.
    pub source: String,
    pub part: TpPart,
    pub route: TpRoute,
    /// The name under which the rank keeps it.
    pub name: String,
}

/// A tensor that a rank takes from the file, with its names as text.
pub struct Piece {
    pub source: Seq<char>,
    pub part: TpPart,
    pub route: TpRoute,
    pub name: Seq<char>,
}

impl View for TpItem {
    type V = Piece;

    open spec fn view(&self) -> Piece {
        Piece {
            source: self.source@,
            part: self.part,
            route: self.route,
            name: self.name@,
        }
    }
}

/// The pieces of a list.
pub open spec fn pieces(items: Seq<TpItem>) -> Seq<Piece> {
    items.map_values(|i: TpItem| i@)
}

/// What a rank takes of a tensor of a layer: a fused tensor becomes two.
pub open spec fn layer_pieces_of(dir: TensorDirectory, name: String) -> Run<Piece, LoadError> {
    match dir.spec_info(name@) {
        None => fail(LoadError::NoInfo { name }),
        Some(info) => {
            let route = route_of(name@, info.dtype);
            done(
                if route is Split {
                    seq![
                        Piece {
                            source: name@,
                            part: TpPart::Alpha,
                            route,
                            name: half_name(name@, ".ssm_alpha.weight"@),
                        },
                        Piece {
                            source: name@,
                            part: TpPart::Beta,
                            route,
                            name: half_name(name@, ".ssm_beta.weight"@),
                        },
                    ]
                } else {
                    seq![Piece { source: name@, part: TpPart::Whole, route, name: name@ }]
                },
            )
        },
    }
}

/// What a rank takes of a layer, in the order of the layer's names.
pub open spec fn layer_run(dir: TensorDirectory, l: LayerDescriptor) -> Run<Piece, LoadError> {
    let names = layer_names(&l);
    each(names.len(), |i: int| layer_pieces_of(dir, names[i]))
}

/// How a rank comes by its share of a tensor outside the layers.
pub open spec fn global_route(dtype: GgmlDType) -> TpRoute {
    if dtype == GgmlDType::Mxfp4 {
        TpRoute::Values
    } else {
        TpRoute::Bytes
    }
}

/// What a rank takes of a tensor outside the layers, where it is asked for.
pub open spec fn global_run(dir: TensorDirectory, wanted: bool, t: Option<ResolvedTensor>) -> Run<
    Piece,
    LoadError,
> {
    match t {
        Some(t) if wanted => match dir.spec_info(t.name@) {
            None => fail(LoadError::NoInfo { name: t.name }),
            Some(info) => done(
                seq![
                    Piece {
                        source: t.name@,
                        part: TpPart::Whole,
                        route: global_route(info.dtype),
                        name: t.name@,
                    },
                ],
            ),
        },
        _ => done(seq![]),
    }
}

/// What a rank takes from the file.
#[derive(Debug)]
pub struct TpRankPlan {
    pub token_embd: Option<TpItem>,
    pub output_norm: Option<TpItem>,
    pub output: Option<TpItem>,
    /// The layers of the range.
    pub layers: Vec<Vec<TpItem>>,
}

/// An optional item as a list.
pub open spec fn opt_pieces(i: Option<TpItem>) -> Seq<Piece> {
    match i {
        Some(i) => seq![i@],
        None => seq![],
    }
}

/// The first layer from `il` on of which a tensor is not in the file.
pub open spec fn first_layer_error(
    dir: TensorDirectory,
    layers: Seq<LayerDescriptor>,
    il: nat,
    end: nat,
) -> Option<LoadError>
    decreases end - il,
{
    if il >= end {
        None
    } else {
        match layer_run(dir, layers[il as int]).err {
            Some(e) => Some(e),
            None => first_layer_error(dir, layers, il + 1, end),
        }
    }
}

/// Why a rank cannot take what the options ask for.
pub open spec fn plan_error(
    dir: TensorDirectory,
    layout: ModelLayout,
    opts: TpLoadOpts,
    num_layers: usize,
) -> Option<LoadError> {
    let embd = global_run(dir, opts.load_token_embd, Some(layout.token_embd));
    let norm = global_run(dir, opts.load_output_head, Some(layout.output_norm));
    let head = global_run(dir, opts.load_output_head, layout.output);
    if embd.err is Some {
        embd.err
    } else if norm.err is Some {
        norm.err
    } else if head.err is Some {
        head.err
    } else {
        first_layer_error(
            dir,
            layout.layers@,
            opts.start() as nat,
            opts.end(num_layers) as nat,
        )
    }
}

impl TpRankPlan {
    /// The plan is what the options ask for.
    pub open spec fn asked_for(
        &self,
        dir: TensorDirectory,
        layout: ModelLayout,
        opts: TpLoadOpts,
        num_layers: usize,
    ) -> bool {
        let start = opts.start();
        &&& opt_pieces(self.token_embd) == global_run(
            dir,
            opts.load_token_embd,
            Some(layout.token_embd),
        ).ops
        &&& opt_pieces(self.output_norm) == global_run(
            dir,
            opts.load_output_head,
            Some(layout.output_norm),
        ).ops
        &&& opt_pieces(self.output) == global_run(dir, opts.load_output_head, layout.output).ops
        &&& self.layers@.len() == opts.end(num_layers) - start
        &&& forall|i: int|
            0 <= i < self.layers@.len() ==> pieces((#[trigger] self.layers@[i])@) == layer_run(
                dir,
                layout.layers@[start + i],
            ).ops
    }
}

fn plan_global(dir: &TensorDirectory, wanted: bool, t: Option<&ResolvedTensor>) -> (res: Result<
    Option<TpItem>,
    LoadError,
>)
    ensures
        ({
            let run = global_run(
                *dir,
                wanted,
                match t {
                    Some(t) => Some(*t),
                    None => None,
                },
            );
            match res {
                Ok(i) => run.err is None && opt_pieces(i) == run.ops,
                Err(e) => run.err == Some(e),
            }
        }),
{
    let t: &ResolvedTensor = match t {
        Some(t) => t,
        None => return Ok(None),
    };
    if !wanted {
        return Ok(None);
    }
    let dtype: GgmlDType = match dir.info(t.name.as_str()) {
        Some(info) => info.dtype,
        None => return Err(LoadError::NoInfo { name: t.name.clone() }),
    };
    let route = if dtype == GgmlDType::Mxfp4 {
        TpRoute::Values
    } else {
        TpRoute::Bytes
    };
    Ok(
        Some(
            TpItem {
                source: t.name.clone(),
                part: TpPart::Whole,
                route,
                name: t.name.clone(),
            },
        ),
    )
}

fn plan_name(dir: &TensorDirectory, name: &String, out: &mut Vec<TpItem>) -> (res: Result<
    (),
    LoadError,
>)
    ensures
        ran(pieces(old(out)@), pieces(final(out)@), res, layer_pieces_of(*dir, *name)),
{
    let ghost before = pieces(out@);
    let dtype: GgmlDType = match dir.info(name.as_str()) {
        Some(info) => info.dtype,
        None => {
            proof {
                assert(pieces(out@) =~= before + Seq::<Piece>::empty());
            }
            return Err(LoadError::NoInfo { name: name.clone() });
        },
    };
    let route = tp_route(name.as_str(), dtype);
    match route {
        TpRoute::Split => {
            let alpha = name_of_half(name.as_str(), ".ssm_alpha.weight");
            let beta = name_of_half(name.as_str(), ".ssm_beta.weight");
            out.push(TpItem { source: name.clone(), part: TpPart::Alpha, route, name: alpha });
            out.push(TpItem { source: name.clone(), part: TpPart::Beta, route, name: beta });
        },
        _ => {
            out.push(
                TpItem { source: name.clone(), part: TpPart::Whole, route, name: name.clone() },
            );
        },
    }
    proof {
        assert(pieces(out@) =~= before + layer_pieces_of(*dir, *name).ops);
    }
    Ok(())
}

/// Lists what a rank takes of a layer.
pub fn plan_mesh_layer(dir: &TensorDirectory, desc: &LayerDescriptor) -> (res: Result<
    Vec<TpItem>,
    LoadError,
>)
    ensures
        match res {
            Ok(v) => layer_run(*dir, *desc).err is None && pieces(v@) == layer_run(*dir, *desc).ops,
            Err(e) => layer_run(*dir, *desc).err == Some(e),
        },
{
    let names = collect_layer_tensor_names(desc);
    let ghost all = layer_names(desc);
    let ghost f = |i: int| layer_pieces_of(*dir, all[i]);
    let mut out: Vec<TpItem> = Vec::new();
    let ghost base = pieces(out@);
    let n: usize = names.len();
    let mut i: usize = 0;
    proof {
        assert(pieces(out@) =~= base + each(0, f).ops);
    }
    while i < n
        invariant
            i <= n,
            n == names@.len(),
            all == names@,
            all == layer_names(desc),
            f == (|i: int| layer_pieces_of(*dir, all[i])),
            ran(base, pieces(out@), Ok::<(), LoadError>(()), each(i as nat, f)),
        decreases n - i,
    {
        let ghost mid = pieces(out@);
        match plan_name(dir, &names[i], &mut out) {
            Ok(_) => {
                proof {
                    lemma_ran_then2(
                        base,
                        mid,
                        pieces(out@),
                        Ok(()),
                        each(i as nat, f),
                        f(i as int),
                    );
                }
            },
            Err(e) => {
                proof {
                    lemma_ran_then2(
                        base,
                        mid,
                        pieces(out@),
                        Err(e),
                        each(i as nat, f),
                        f(i as int),
                    );
                    lemma_each_stops((i + 1) as nat, n as nat, f);
                }
                return Err(e);
            },
        }
        i = i + 1;
    }
    proof {
        assert(base =~= Seq::<Piece>::empty());
        assert(pieces(out@) =~= each(n as nat, f).ops);
    }
    Ok(out)
}

/// Lists what a rank takes from the file: the tensors outside the layers that the
/// options ask for, then the layers of their range.
pub fn plan_mesh_rank(
    dir: &TensorDirectory,
    layout: &ModelLayout,
    opts: &TpLoadOpts,
    num_layers: usize,
) -> (res: Result<TpRankPlan, LoadError>)
    requires
        opts.start() <= opts.end(num_layers) <= layout.layers@.len(),
    ensures
        match res {
            Ok(p) => plan_error(*dir, *layout, *opts, num_layers) is None && p.asked_for(
                *dir,
                *layout,
                *opts,
                num_layers,
            ),
            Err(e) => plan_error(*dir, *layout, *opts, num_layers) == Some(e),
        },
{
    let token_embd = match plan_global(dir, opts.load_token_embd, Some(&layout.token_embd)) {
        Ok(i) => i,
        Err(e) => return Err(e),
    };
    let output_norm = match plan_global(dir, opts.load_output_head, Some(&layout.output_norm)) {
        Ok(i) => i,
        Err(e) => return Err(e),
    };
    let output = match plan_global(dir, opts.load_output_head, layout.output.as_ref()) {
        Ok(i) => i,
        Err(e) => return Err(e),
    };
    let (start, end): (usize, usize) = match &opts.layer_range {
        Some(r) => (r.start, r.end),
        None => (0, num_layers),
    };
    let mut layers: Vec<Vec<TpItem>> = Vec::new();
    let mut il: usize = start;
    while il < end
        invariant
            start <= il <= end <= layout.layers@.len(),
            start == opts.start(),
            end == opts.end(num_layers),
            global_run(*dir, opts.load_token_embd, Some(layout.token_embd)).err is None,
            global_run(*dir, opts.load_output_head, Some(layout.output_norm)).err is None,
            global_run(*dir, opts.load_output_head, layout.output).err is None,
            layers@.len() == il - start,
            first_layer_error(*dir, layout.layers@, start as nat, end as nat)
                == first_layer_error(*dir, layout.layers@, il as nat, end as nat),
            forall|i: int|
                0 <= i < layers@.len() ==> pieces((#[trigger] layers@[i])@) == layer_run(
                    *dir,
                    layout.layers@[start + i],
                ).ops,
        decreases end - il,
    {
        match plan_mesh_layer(dir, &layout.layers[il]) {
            Ok(v) => {
                layers.push(v);
            },
            Err(e) => return Err(e),
        }
        il = il + 1;
    }
    Ok(TpRankPlan { token_embd, output_norm, output, layers })
}

/// The names under which a rank keeps the tensors of a layer: the layer's own, with
/// the two halves in place of a fused tensor.
pub open spec fn kept_names(l: LayerDescriptor) -> Seq<Seq<char>> {
    let names = layer_names(&l);
    flat(
        names.len(),
        |i: int|
            if spec_ends_with(names[i]@, ".ssm_ba.weight"@) {
                seq![
                    half_name(names[i]@, ".ssm_alpha.weight"@),
                    half_name(names[i]@, ".ssm_beta.weight"@),
                ]
            } else {
                seq![names[i]@]
            },
    )
}

/// The tensors are those of a list, in its order and under its names.
pub open spec fn follows(ts: Seq<TpLayerTensor>, items: Seq<TpItem>) -> bool {
    &&& ts.len() == items.len()
    &&& forall|k: int| 0 <= k < ts.len() ==> (#[trigger] ts[k]).name@ == items[k].name@
}

proof fn lemma_kept_names(dir: TensorDirectory, l: LayerDescriptor, n: nat)
    requires
        n <= layer_names(&l).len(),
        each(n, |i: int| layer_pieces_of(dir, layer_names(&l)[i])).err is None,
    ensures
        ({
            let names = layer_names(&l);
            flat(
                n,
                |i: int|
                    if spec_ends_with(names[i]@, ".ssm_ba.weight"@) {
                        seq![
                            half_name(names[i]@, ".ssm_alpha.weight"@),
                            half_name(names[i]@, ".ssm_beta.weight"@),
                        ]
                    } else {
                        seq![names[i]@]
                    },
            ) == each(n, |i: int| layer_pieces_of(dir, names[i])).ops.map_values(
                |p: Piece| p.name,
            )
        }),
    decreases n,
{
    let names = layer_names(&l);
    let f = |i: int| layer_pieces_of(dir, names[i]);
    let g = |i: int|
        if spec_ends_with(names[i]@, ".ssm_ba.weight"@) {
            seq![
                half_name(names[i]@, ".ssm_alpha.weight"@),
                half_name(names[i]@, ".ssm_beta.weight"@),
            ]
        } else {
            seq![names[i]@]
        };
    let name = |p: Piece| p.name;
    if n == 0 {
        assert(flat(n, g) =~= each(n, f).ops.map_values(name));
    } else {
        let k = n - 1;
        let m = k as nat;
        assert(each(m, f).err is None);
        lemma_kept_names(dir, l, m);
        assert(f(k).err is None);
        assert(f(k).ops.map_values(name) =~= g(k));
        assert(each(n, f).ops == each(m, f).ops + f(k).ops);
        assert(each(n, f).ops.map_values(name) =~= each(m, f).ops.map_values(name)
            + f(k).ops.map_values(name));
    }
}

/// Where the tensors that were brought to the ranks follow the plan, every rank of
/// the loaded model holds, for each layer of the range, the tensors that the layer
/// names, in that order, with the two halves in place of a fused tensor.
pub proof fn law_ranks_hold_the_named_tensors(
    dir: TensorDirectory,
    m: Qwen3MoETpModel,
    config: Qwen3MoEConfig,
    layout: ModelLayout,
    tp: Qwen35DenseTpLayout,
    opts: TpLoadOpts,
    device_ids: Seq<i32>,
    parts: Seq<TpRankParts>,
    plan: TpRankPlan,
    r: int,
    il: int,
)
    requires
        made_model(&m, config, layout, tp, &opts, device_ids, parts),
        range_error(config.num_layers, tp.spec_world(), &opts, device_ids.len()) is None,
        plan_error(dir, layout, opts, config.num_layers) is None,
        plan.asked_for(dir, layout, opts, config.num_layers),
        0 <= r < parts.len(),
        parts[r].layers@.len() == plan.layers@.len(),
        forall|i: int|
            0 <= i < plan.layers@.len() ==> follows(
                (#[trigger] parts[r].layers@[i])@,
                plan.layers@[i]@,
            ),
        opts.start() <= il < opts.end(config.num_layers),
    ensures
        m.shards@[r].layers@[il]@.map_values(|t: TpLayerTensor| t.name@) == kept_names(
            layout.layers@[il],
        ),
{
    let start = opts.start();
    let end = opts.end(config.num_layers);
    let i = il - start;
    assert(shard_of(
        &m.shards@[r],
        &parts[r],
        r as u32,
        &layout,
        start as nat,
        config.num_layers as nat,
    ));
    assert(m.shards@[r].layers@[il] == parts[r].layers@[i]);
    let l = layout.layers@[il];
    lemma_no_layer_error(dir, layout.layers@, start as nat, end as nat, il as nat);
    let names = layer_names(&l);
    lemma_kept_names(dir, l, names.len());
    let ts = parts[r].layers@[i]@;
    let items = plan.layers@[i]@;
    assert(follows(ts, items));
    assert(pieces(items) == layer_run(dir, l).ops);
    assert(kept_names(l) =~= ts.map_values(|t: TpLayerTensor| t.name@)) by {
        assert forall|k: int| 0 <= k < ts.len() implies ts[k].name@ == #[trigger] kept_names(
            l,
        )[k] by {
            assert(pieces(items)[k] == items[k]@);
        }
    }
}

proof fn lemma_no_layer_error(
    dir: TensorDirectory,
    layers: Seq<LayerDescriptor>,
    from: nat,
    end: nat,
    il: nat,
)
    requires
        first_layer_error(dir, layers, from, end) is None,
        from <= il < end,
    ensures
        layer_run(dir, layers[il as int]).err is None,
    decreases il - from,
{
    if from < il {
        lemma_no_layer_error(dir, layers, from + 1, end, il);
    }
}

} // verus!
