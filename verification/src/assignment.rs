//! Which rank of a pipeline owns which layer.

use crate::device::RankId;
use crate::plan::{flat, lemma_flat_same};
use vstd::multiset::Multiset;
use vstd::prelude::*;
use vstd::seq_lib::lemma_multiset_commutative;

verus! {

/// The owner of every layer in a pipeline of `ranks` ranks.
#[derive(Debug)]
pub struct LayerAssignment {
    pub rank_of: Vec<u32>,
    pub ranks: u32,
}

/// The layers before `n` that `rank` owns, in ascending order.
pub open spec fn owned_layers(rank_of: Seq<u32>, rank: u32, n: nat) -> Seq<usize>
    decreases n,
{
    if n == 0 {
        seq![]
    } else {
        let before = owned_layers(rank_of, rank, (n - 1) as nat);
        if rank_of[n - 1] == rank {
            before.push((n - 1) as usize)
        } else {
            before
        }
    }
}

/// The first layer of rank `r` where `n` layers are dealt out evenly and the
/// first ranks take one more where they do not divide.
pub open spec fn first_layer(n: nat, ranks: nat, r: nat) -> nat {
    r * (n / ranks) + if r < n % ranks {
        r
    } else {
        n % ranks
    }
}

impl LayerAssignment {
    /// Every layer has an owner.
    pub open spec fn wf(&self) -> bool {
        forall|il: int| 0 <= il < self.rank_of@.len() ==> #[trigger] self.rank_of@[il] < self.ranks
    }

    /// Deals `num_layers` layers out evenly in contiguous runs; where they do
    /// not divide, the first ranks take one more.
    pub fn contiguous(num_layers: usize, ranks: u32) -> (r: Self)
        requires
            ranks > 0,
        ensures
            r.wf(),
            r.ranks == ranks,
            r.rank_of@.len() == num_layers,
            forall|il: int|
                0 <= il < num_layers ==> first_layer(
                    num_layers as nat,
                    ranks as nat,
                    (#[trigger] r.rank_of@[il]) as nat,
                ) <= il < first_layer(
                    num_layers as nat,
                    ranks as nat,
                    (r.rank_of@[il] + 1) as nat,
                ),
    {
        let n_ranks: usize = ranks as usize;
        let base: usize = num_layers / n_ranks;
        let rem: usize = num_layers % n_ranks;
        let ghost n = num_layers as nat;
        let ghost k = ranks as nat;
        let mut rank_of: Vec<u32> = Vec::new();
        let mut r: u32 = 0;
        proof {
            assert(0 * (n / k) == 0);
            lemma_first_layer_end(n, k);
        }
        while r < ranks
            invariant
                r <= ranks,
                ranks > 0,
                n == num_layers,
                k == ranks,
                base == n / k,
                rem == n % k,
                first_layer(n, k, k) == n,
                rank_of@.len() == first_layer(n, k, r as nat),
                forall|il: int|
                    0 <= il < rank_of@.len() ==> (#[trigger] rank_of@[il]) < r && first_layer(
                        n,
                        k,
                        rank_of@[il] as nat,
                    ) <= il < first_layer(n, k, (rank_of@[il] + 1) as nat),
            decreases ranks - r,
        {
            let extra: usize = if (r as usize) < rem {
                1
            } else {
                0
            };
            proof {
                lemma_first_layer_step(n, k, r as nat);
                lemma_first_layer_mono(n, k, (r + 1) as nat, k);
            }
            let count: usize = base + extra;
            let mut j: usize = 0;
            while j < count
                invariant
                    j <= count,
                    r < ranks,
                    first_layer(n, k, (r + 1) as nat) == first_layer(n, k, r as nat) + count,
                    rank_of@.len() == first_layer(n, k, r as nat) + j,
                    forall|il: int|
                        0 <= il < rank_of@.len() ==> (#[trigger] rank_of@[il]) <= r && first_layer(
                            n,
                            k,
                            rank_of@[il] as nat,
                        ) <= il < first_layer(n, k, (rank_of@[il] + 1) as nat),
                decreases count - j,
            {
                rank_of.push(r);
                j = j + 1;
            }
            r = r + 1;
        }
        LayerAssignment { rank_of, ranks }
    }

    pub fn num_layers(&self) -> (r: usize)
        ensures
            r == self.rank_of@.len(),
    {
        self.rank_of.len()
    }

    pub fn num_ranks(&self) -> (r: u32)
        ensures
            r == self.ranks,
    {
        self.ranks
    }

    /// The layers that `rank` owns, in ascending order.
    pub fn layers_on(&self, rank: RankId) -> (r: Vec<usize>)
        ensures
            r@ == owned_layers(self.rank_of@, rank.0, self.rank_of@.len()),
    {
        let mut v: Vec<usize> = Vec::new();
        let mut il: usize = 0;
        while il < self.rank_of.len()
            invariant
                il <= self.rank_of@.len(),
                v@ == owned_layers(self.rank_of@, rank.0, il as nat),
            decreases self.rank_of@.len() - il,
        {
            if self.rank_of[il] == rank.0 {
                v.push(il);
            }
            il = il + 1;
        }
        v
    }

    /// Whether `rank` is the first stage.
    pub fn is_first(&self, rank: RankId) -> (r: bool)
        ensures
            r == (rank.0 == 0),
    {
        rank.0 == 0
    }

    /// Whether `rank` is the last stage.
    pub fn is_last(&self, rank: RankId) -> (r: bool)
        ensures
            r == (rank.0 + 1 == self.ranks),
    {
        self.ranks > 0 && rank.0 == self.ranks - 1
    }
}

proof fn lemma_first_layer_step(n: nat, ranks: nat, r: nat)
    requires
        r < ranks,
    ensures
        first_layer(n, ranks, r + 1) == first_layer(n, ranks, r) + n / ranks + if r < n % ranks {
            1nat
        } else {
            0nat
        },
{
    let q = n / ranks;
    assert((r + 1) * q == r * q + q) by (nonlinear_arith);
}

proof fn lemma_first_layer_end(n: nat, ranks: nat)
    requires
        ranks > 0,
    ensures
        first_layer(n, ranks, ranks) == n,
{
    assert(ranks * (n / ranks) + n % ranks == n && n % ranks < ranks) by (nonlinear_arith)
        requires
            ranks > 0,
    ;
}

proof fn lemma_first_layer_mono(n: nat, ranks: nat, a: nat, b: nat)
    requires
        a <= b <= ranks,
    ensures
        first_layer(n, ranks, a) <= first_layer(n, ranks, b),
    decreases b - a,
{
    if a < b {
        lemma_first_layer_mono(n, ranks, a, (b - 1) as nat);
        lemma_first_layer_step(n, ranks, (b - 1) as nat);
    }
}

/// A layer is listed for a rank exactly if that rank owns it.
pub proof fn law_layers_listed_for_owner(a: LayerAssignment, rank: RankId, il: nat)
    requires
        a.rank_of@.len() <= usize::MAX,
        il < a.rank_of@.len(),
    ensures
        owned_layers(a.rank_of@, rank.0, a.rank_of@.len()).contains(il as usize)
            <==> a.rank_of@[il as int] == rank.0,
{
    lemma_listed(a.rank_of@, rank.0, a.rank_of@.len(), il);
}

proof fn lemma_listed(rank_of: Seq<u32>, rank: u32, n: nat, il: nat)
    requires
        n <= rank_of.len(),
        rank_of.len() <= usize::MAX,
        il < rank_of.len(),
    ensures
        owned_layers(rank_of, rank, n).contains(il as usize) <==> il < n && rank_of[il as int]
            == rank,
        forall|j: int|
            0 <= j < owned_layers(rank_of, rank, n).len() ==> (#[trigger] owned_layers(
                rank_of,
                rank,
                n,
            )[j]) < n,
    decreases n,
{
    if n > 0 {
        let m = (n - 1) as nat;
        lemma_listed(rank_of, rank, m, il);
        let before = owned_layers(rank_of, rank, m);
        let after = owned_layers(rank_of, rank, n);
        if rank_of[m as int] == rank {
            assert(after == before.push(m as usize));
            if before.contains(il as usize) {
                let k = choose|k: int| 0 <= k < before.len() && before[k] == il as usize;
                assert(after[k] == il as usize);
            }
            if il == m {
                assert(after[before.len() as int] == il as usize);
            }
            if after.contains(il as usize) {
                let k = choose|k: int| 0 <= k < after.len() && after[k] == il as usize;
                if k < before.len() {
                    assert(before[k] == il as usize);
                } else {
                    assert(il == m);
                }
            }
        }
    }
}

/// A later rank of a contiguous assignment never owns an earlier layer.
pub proof fn law_contiguous_is_ordered(n: nat, ranks: nat, a: nat, b: nat, i: nat, j: nat)
    requires
        ranks > 0,
        a < b,
        b < ranks,
        first_layer(n, ranks, a) <= i < first_layer(n, ranks, a + 1),
        first_layer(n, ranks, b) <= j < first_layer(n, ranks, b + 1),
    ensures
        i < j,
{
    lemma_first_layer_mono(n, ranks, a + 1, b);
}

/// What becomes of the layers before `n` that `rank` owns, where `f` says what
/// becomes of a layer.
pub open spec fn dealt<T>(
    rank_of: Seq<u32>,
    n: nat,
    f: spec_fn(int) -> Seq<T>,
    rank: int,
) -> Seq<T> {
    let owned = owned_layers(rank_of, rank as u32, n);
    flat(owned.len(), |i: int| f(owned[i] as int))
}

/// One more layer goes to its owner and to no other rank.
proof fn lemma_dealt_step<T>(rank_of: Seq<u32>, n: nat, f: spec_fn(int) -> Seq<T>, rank: int)
    requires
        0 < n <= rank_of.len() <= usize::MAX,
        0 <= rank <= u32::MAX,
    ensures
        dealt(rank_of, n, f, rank) == dealt(rank_of, (n - 1) as nat, f, rank) + if rank_of[n - 1]
            == rank {
            f(n - 1)
        } else {
            Seq::empty()
        },
{
    let before = owned_layers(rank_of, rank as u32, (n - 1) as nat);
    let after = owned_layers(rank_of, rank as u32, n);
    let g = |i: int| f(before[i] as int);
    let h = |i: int| f(after[i] as int);
    if rank_of[n - 1] == rank {
        assert forall|i: int| 0 <= i < before.len() implies #[trigger] g(i) == h(i) by {
            assert(after[i] == before[i]);
        }
        lemma_flat_same(before.len(), g, h);
        assert(after[before.len() as int] == n - 1);
        assert(flat(after.len(), h) == flat(before.len(), h) + h(before.len() as int));
    } else {
        assert(dealt(rank_of, n, f, rank) =~= dealt(rank_of, (n - 1) as nat, f, rank)
            + Seq::empty());
    }
}

/// One more layer makes the ranks before `m` together more by what becomes of it.
proof fn lemma_ranks_gain<T>(rank_of: Seq<u32>, n: nat, f: spec_fn(int) -> Seq<T>, m: nat)
    requires
        0 < n <= rank_of.len() <= usize::MAX,
        m <= u32::MAX,
    ensures
        flat(m, |r: int| dealt(rank_of, n, f, r)).to_multiset() == flat(
            m,
            |r: int| dealt(rank_of, (n - 1) as nat, f, r),
        ).to_multiset().add(
            if rank_of[n - 1] < m {
                f(n - 1).to_multiset()
            } else {
                Multiset::empty()
            },
        ),
    decreases m,
{
    let now = |r: int| dealt(rank_of, n, f, r);
    let old_parts = |r: int| dealt(rank_of, (n - 1) as nat, f, r);
    if m == 0 {
        assert(flat(m, now).to_multiset() =~= flat(m, old_parts).to_multiset().add(
            Multiset::empty(),
        ));
    } else {
        let k = (m - 1) as nat;
        lemma_ranks_gain(rank_of, n, f, k);
        lemma_dealt_step(rank_of, n, f, k as int);
        lemma_multiset_commutative(flat(k, now), now(k as int));
        lemma_multiset_commutative(flat(k, old_parts), old_parts(k as int));
        let gain = if rank_of[n - 1] == k {
            f(n - 1)
        } else {
            Seq::empty()
        };
        lemma_multiset_commutative(old_parts(k as int), gain);
        Seq::<T>::empty().to_multiset_ensures();
        assert(Seq::<T>::empty().to_multiset() =~= Multiset::empty());
        assert(flat(m, now).to_multiset() =~= flat(m, old_parts).to_multiset().add(
            if rank_of[n - 1] < m {
                f(n - 1).to_multiset()
            } else {
                Multiset::empty()
            },
        ));
    }
}

proof fn lemma_ranks_cover<T>(rank_of: Seq<u32>, ranks: u32, n: nat, f: spec_fn(int) -> Seq<T>)
    requires
        n <= rank_of.len() <= usize::MAX,
        forall|il: int| 0 <= il < rank_of.len() ==> #[trigger] rank_of[il] < ranks,
    ensures
        flat(ranks as nat, |r: int| dealt(rank_of, n, f, r)).to_multiset() == flat(
            n,
            f,
        ).to_multiset(),
    decreases n,
{
    if n == 0 {
        lemma_nothing_dealt(rank_of, ranks as nat, f);
    } else {
        assert(rank_of[n - 1] < ranks);
        lemma_ranks_cover(rank_of, ranks, (n - 1) as nat, f);
        lemma_ranks_gain(rank_of, n, f, ranks as nat);
        lemma_multiset_commutative(flat((n - 1) as nat, f), f(n - 1));
    }
}

proof fn lemma_nothing_dealt<T>(rank_of: Seq<u32>, m: nat, f: spec_fn(int) -> Seq<T>)
    ensures
        flat(m, |r: int| dealt(rank_of, 0, f, r)) == Seq::<T>::empty(),
    decreases m,
{
    if m > 0 {
        lemma_nothing_dealt(rank_of, (m - 1) as nat, f);
        let none = |r: int| dealt(rank_of, 0, f, r);
        assert(none(m - 1) == Seq::<T>::empty());
        assert(flat(m, none) =~= Seq::<T>::empty());
    }
}

/// Every layer is dealt to one rank, once: whatever becomes of a layer, the ranks
/// together do it exactly once for each.
pub proof fn law_layers_dealt_once<T>(a: LayerAssignment, f: spec_fn(int) -> Seq<T>)
    requires
        a.wf(),
        a.rank_of@.len() <= usize::MAX,
    ensures
        flat(
            a.ranks as nat,
            |r: int| dealt(a.rank_of@, a.rank_of@.len(), f, r),
        ).to_multiset() == flat(a.rank_of@.len(), f).to_multiset(),
{
    lemma_ranks_cover(a.rank_of@, a.ranks, a.rank_of@.len(), f);
}

} // verus!
