//! Sequences of operations made of parts.

use vstd::prelude::*;

verus! {

/// The parts `f(0)` to `f(n - 1)`, one after the other.
pub open spec fn flat<T>(n: nat, f: spec_fn(int) -> Seq<T>) -> Seq<T>
    decreases n,
{
    if n == 0 {
        seq![]
    } else {
        flat((n - 1) as nat, f) + f(n - 1)
    }
}

/// Parts that agree give the same sequence.
pub proof fn lemma_flat_same<T>(n: nat, f: spec_fn(int) -> Seq<T>, g: spec_fn(int) -> Seq<T>)
    requires
        forall|i: int| 0 <= i < n ==> #[trigger] f(i) == g(i),
    ensures
        flat(n, f) == flat(n, g),
    decreases n,
{
    if n > 0 {
        lemma_flat_same((n - 1) as nat, f, g);
        assert(f(n - 1) == g(n - 1));
    }
}

/// Appends all of `tail` to `out`.
pub fn extend<T>(out: &mut Vec<T>, tail: Vec<T>)
    ensures
        final(out)@ == old(out)@ + tail@,
{
    let mut t = tail;
    out.append(&mut t);
}

/// What a procedure that issues operations does: the operations that it issues
/// in order, and the error with which it stops after them, if it does.
#[verifier::reject_recursive_types(O)]
#[verifier::reject_recursive_types(E)]
pub struct Run<O, E> {
    pub ops: Seq<O>,
    pub err: Option<E>,
}

/// Issues `ops` and succeeds.
pub open spec fn done<O, E>(ops: Seq<O>) -> Run<O, E> {
    Run { ops, err: None }
}

/// Fails without an operation.
pub open spec fn fail<O, E>(e: E) -> Run<O, E> {
    Run { ops: seq![], err: Some(e) }
}

/// `a`, and where it succeeds `b` after it.
pub open spec fn then2<O, E>(a: Run<O, E>, b: Run<O, E>) -> Run<O, E> {
    if a.err is Some {
        a
    } else {
        Run { ops: a.ops + b.ops, err: b.err }
    }
}

/// `f(0)` to `f(n - 1)` in order, as far as they succeed.
pub open spec fn each<O, E>(n: nat, f: spec_fn(int) -> Run<O, E>) -> Run<O, E>
    decreases n,
{
    if n == 0 {
        done(seq![])
    } else {
        then2(each((n - 1) as nat, f), f(n - 1))
    }
}

/// Appending to a list of operations took it from `before` to `after` with the
/// outcome `r`, as `run` says.
pub open spec fn ran<O, E>(
    before: Seq<O>,
    after: Seq<O>,
    r: Result<(), E>,
    run: Run<O, E>,
) -> bool {
    &&& after == before + run.ops
    &&& match r {
        Ok(_) => run.err is None,
        Err(e) => run.err == Some(e),
    }
}

/// Two successful or failing steps in a row.
pub proof fn lemma_ran_then2<O, E>(
    before: Seq<O>,
    mid: Seq<O>,
    after: Seq<O>,
    r: Result<(), E>,
    a: Run<O, E>,
    b: Run<O, E>,
)
    requires
        ran(before, mid, Ok::<(), E>(()), a),
        ran(mid, after, r, b),
    ensures
        ran(before, after, r, then2(a, b)),
{
    assert(before + (a.ops + b.ops) =~= (before + a.ops) + b.ops);
}

/// A loop that stopped early stopped for good.
pub proof fn lemma_each_stops<O, E>(i: nat, n: nat, f: spec_fn(int) -> Run<O, E>)
    requires
        i <= n,
        each(i, f).err is Some,
    ensures
        each(n, f) == each(i, f),
    decreases n,
{
    if i < n {
        lemma_each_stops(i, (n - 1) as nat, f);
    }
}

/// Steps that agree run alike.
pub proof fn lemma_each_same<O, E>(
    n: nat,
    f: spec_fn(int) -> Run<O, E>,
    g: spec_fn(int) -> Run<O, E>,
)
    requires
        forall|i: int| 0 <= i < n ==> #[trigger] f(i) == g(i),
    ensures
        each(n, f) == each(n, g),
    decreases n,
{
    if n > 0 {
        lemma_each_same((n - 1) as nat, f, g);
        assert(f(n - 1) == g(n - 1));
    }
}

/// A step that fails makes the whole fail.
pub proof fn lemma_each_fails<O, E>(n: nat, f: spec_fn(int) -> Run<O, E>, k: int)
    requires
        0 <= k < n,
        f(k).err is Some,
    ensures
        each(n, f).err is Some,
    decreases n,
{
    if k < n - 1 {
        lemma_each_fails((n - 1) as nat, f, k);
    }
}

/// Where every step gives one thing or fails, the `k`-th thing is what the
/// `k`-th step gives.
pub proof fn lemma_each_ones<O, E>(n: nat, f: spec_fn(int) -> Run<O, E>)
    requires
        each(n, f).err is None,
        forall|i: int| 0 <= i < n && (#[trigger] f(i)).err is None ==> f(i).ops.len() == 1,
    ensures
        each(n, f).ops.len() == n,
        forall|i: int|
            0 <= i < n ==> (#[trigger] f(i)).err is None && each(n, f).ops[i] == f(i).ops[0],
    decreases n,
{
    if n > 0 {
        let m = (n - 1) as nat;
        lemma_each_ones(m, f);
        assert(f(n - 1).err is None);
        assert(each(n, f).ops == each(m, f).ops + f(n - 1).ops);
    }
}

} // verus!
