//! A model on one device.

use crate::config::Qwen3MoEConfig;
use crate::device::Free;
use crate::layout::{model_absent, MissingTensor, ModelLayout, TensorDirectory};
use crate::load::{indices, layers_on_device, layout_fits};
use crate::upload::{is_on_device, model_items, opt_on_device, weigh, PlacedTensor, Policy, Rule};
use crate::weights::{live_allocations, ModelWeights};
use vstd::prelude::*;

verus! {

/// A model whose weights are on one device.
#[derive(Debug)]
pub struct Qwen3MoEModel {
    pub config: Qwen3MoEConfig,
    pub layout: ModelLayout,
    pub weights: ModelWeights,
}

impl Qwen3MoEModel {
    /// Finds the tensors of the model in the file's directory.
    pub fn resolve(dir: &TensorDirectory, config: &Qwen3MoEConfig) -> (r: Result<
        ModelLayout,
        MissingTensor,
    >)
        requires
            dir.wf(),
        ensures
            match r {
                Ok(l) => model_absent(dir, config) is None && l.resolves(dir, config),
                Err(e) => model_absent(dir, config) == Some(e.name@),
            },
    {
        ModelLayout::from_gguf(dir, config)
    }

    /// The model whose tensors are on the device; `placed` says where.
    pub fn load(
        config: Qwen3MoEConfig,
        layout: ModelLayout,
        device_id: i32,
        placed: &Vec<PlacedTensor>,
    ) -> (r: Self)
        requires
            layout_fits(&layout),
            weigh(model_items(&layout)) <= usize::MAX,
        ensures
            r.config == config,
            r.layout == layout,
            r.weights.device_id == device_id,
            is_on_device(r.weights.token_embd, layout.token_embd, Rule::AsStored, placed@),
            is_on_device(r.weights.output_norm, layout.output_norm, Rule::AsStored, placed@),
            opt_on_device(r.weights.output, layout.output, Rule::AsStored, placed@),
            layers_on_device(
                r.weights.layers@,
                layout.layers@,
                indices(layout.layers@.len()),
                Policy::Verbatim,
                placed@,
            ),
            r.weights.total_bytes == weigh(model_items(&layout)),
            !r.weights.disposed,
    {
        let weights = ModelWeights::upload(&layout, device_id, placed);
        Qwen3MoEModel { config, layout, weights }
    }

    /// Gives up the model: returns the allocations to release.
    pub fn dispose(self) -> (r: Vec<Free>)
        ensures
            r@ == (if self.weights.disposed {
                seq![]
            } else {
                live_allocations(self.weights.release_order())
            }),
    {
        let mut w = self.weights;
        w.dispose()
    }
}

} // verus!
