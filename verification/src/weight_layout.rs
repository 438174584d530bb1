//! How a weight tensor is split over the ranks of a tensor-parallel mesh.

use vstd::prelude::*;

verus! {

/// Placement of one weight tensor on a mesh of `world` ranks.
#[derive(Debug, Clone, Copy, PartialEq, Eq, Structural)]
pub enum WeightLayout {
    /// Every rank holds the whole tensor.
    Replicated,
    /// The output dim `dim` is split into `world` equal slabs.
    ColParallel { world: u32, dim: usize },
    /// The input dim `dim` is split into `world` equal slabs.
    RowParallel { world: u32, dim: usize },
    /// The outer dim holds `[Q | K | V]`; each part is split by heads. With
    /// `kq_replicated` only V is split and every rank keeps Q and K whole.
    FusedQkvParallel {
        world: u32,
        num_v_heads: u32,
        num_k_heads: u32,
        head_v_dim: u32,
        head_k_dim: u32,
        kq_replicated: bool,
    },
}

impl WeightLayout {
    pub fn col_parallel(world: u32, dim: usize) -> (r: Self)
        ensures
            r == (WeightLayout::ColParallel { world, dim }),
    {
        WeightLayout::ColParallel { world, dim }
    }

    pub fn row_parallel(world: u32, dim: usize) -> (r: Self)
        ensures
            r == (WeightLayout::RowParallel { world, dim }),
    {
        WeightLayout::RowParallel { world, dim }
    }
}

} // verus!
