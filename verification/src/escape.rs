//! The escape-time evaluator: how many steps of `z <- z^2 + c` it takes, from
//! `z = 0`, until `|z|^2` reaches the escape bound.

use crate::arithmetic::{deterministic, ready, Arithmetic, NormOrder};
use vstd::prelude::*;

verus! {

/// The squared escape radius: an orbit has escaped once `|z|^2` reaches it.
pub const ESCAPE_NORM: u32 = 4;

/// Whether a comparison of `|z|^2` with the escape bound means that `z` has
/// escaped. The bound itself counts as escaped; a magnitude that is not a
/// number does not.
pub open spec fn escapes(order: NormOrder) -> bool {
    order == NormOrder::Equal || order == NormOrder::Above
}

/// Tells whether `order`, a comparison of `|z|^2` with the escape bound, means escape.
pub fn has_escaped(order: NormOrder) -> (b: bool)
    ensures
        b == escapes(order),
{
    match order {
        NormOrder::Equal | NormOrder::Above => true,
        NormOrder::Below | NormOrder::Unordered => false,
    }
}

/// The comparison may report that `z` lies inside the escape radius.
pub open spec fn may_stay<Z, N>(norm_order: N, z: Z) -> bool where N: Fn(&Z, u32) -> NormOrder {
    exists|o: NormOrder| #[trigger] norm_order.ensures((&z, ESCAPE_NORM), o) && !escapes(o)
}

/// The comparison may report that `z` has reached the escape radius.
pub open spec fn may_escape<Z, N>(norm_order: N, z: Z) -> bool where N: Fn(&Z, u32) -> NormOrder {
    exists|o: NormOrder| #[trigger] norm_order.ensures((&z, ESCAPE_NORM), o) && escapes(o)
}

/// `next` may be the point after `z` on the orbit of `c`: `z^2 + c`.
pub open spec fn is_step<Z, O, M, A, Q, N>(
    ops: Arithmetic<O, M, A, Q, N>,
    z: Z,
    c: Z,
    next: Z,
) -> bool where
    O: Fn(&Z) -> Z,
    M: Fn(i32, &Z) -> Z,
    A: Fn(Z, &Z) -> Z,
    Q: Fn(Z) -> Z,
    N: Fn(&Z, u32) -> NormOrder,
 {
    exists|squared: Z| #[trigger]
        ops.square.ensures((z,), squared) && ops.plus.ensures((squared, &c), next)
}

/// `orbit` is the orbit of `c` up to its `n`-th point, and `n` is its escape
/// time under the cap `max_iter`:
/// the orbit starts at zero, each point but the last was found inside the
/// radius and stepped to the next, and the last point was found to have
/// escaped unless the cap was reached first.
pub open spec fn is_escape_run<Z, O, M, A, Q, N>(
    ops: Arithmetic<O, M, A, Q, N>,
    c: Z,
    max_iter: int,
    orbit: Seq<Z>,
    n: int,
) -> bool where
    O: Fn(&Z) -> Z,
    M: Fn(i32, &Z) -> Z,
    A: Fn(Z, &Z) -> Z,
    Q: Fn(Z) -> Z,
    N: Fn(&Z, u32) -> NormOrder,
 {
    &&& 0 <= n <= max_iter
    &&& orbit.len() == n + 1
    &&& ops.zero.ensures((&c,), orbit[0])
    &&& forall|i: int| 0 <= i < n ==> #[trigger] may_stay(ops.norm_order, orbit[i])
    &&& forall|i: int| 0 <= i < n ==> #[trigger] is_step(ops, orbit[i], c, orbit[i + 1])
    &&& n < max_iter ==> may_escape(ops.norm_order, orbit[n])
}

/// `n` is an escape time of `c` under the cap `max_iter`.
pub open spec fn is_escape_time<Z, O, M, A, Q, N>(
    ops: Arithmetic<O, M, A, Q, N>,
    c: Z,
    max_iter: int,
    n: int,
) -> bool where
    O: Fn(&Z) -> Z,
    M: Fn(i32, &Z) -> Z,
    A: Fn(Z, &Z) -> Z,
    Q: Fn(Z) -> Z,
    N: Fn(&Z, u32) -> NormOrder,
 {
    exists|orbit: Seq<Z>| is_escape_run(ops, c, max_iter, orbit, n)
}

/// The point after `z` on the orbit of `c`: `z^2 + c`. Where an operation
/// has several results, one of them.
pub open spec fn next_point<Z, O, M, A, Q, N>(ops: Arithmetic<O, M, A, Q, N>, z: Z, c: Z) -> Z where
    O: Fn(&Z) -> Z,
    M: Fn(i32, &Z) -> Z,
    A: Fn(Z, &Z) -> Z,
    Q: Fn(Z) -> Z,
    N: Fn(&Z, u32) -> NormOrder,
 {
    choose|next: Z| is_step(ops, z, c, next)
}

/// The `i`-th point of the orbit of `c`: zero for `i = 0`, and `z^2 + c` after
/// the point `z` before it. Where an operation has several results, one of
/// them.
pub open spec fn orbit_point<Z, O, M, A, Q, N>(
    ops: Arithmetic<O, M, A, Q, N>,
    c: Z,
    i: nat,
) -> Z where
    O: Fn(&Z) -> Z,
    M: Fn(i32, &Z) -> Z,
    A: Fn(Z, &Z) -> Z,
    Q: Fn(Z) -> Z,
    N: Fn(&Z, u32) -> NormOrder,

    decreases i,
{
    if i == 0 {
        choose|start: Z| ops.zero.ensures((&c,), start)
    } else {
        next_point(ops, orbit_point(ops, c, (i - 1) as nat), c)
    }
}

/// The first index from `from` on, below `max_iter`, at which the orbit of
/// `c` has reached the escape radius, and `max_iter` if there is none.
pub open spec fn first_escape<Z, O, M, A, Q, N>(
    ops: Arithmetic<O, M, A, Q, N>,
    c: Z,
    from: nat,
    max_iter: nat,
) -> nat where
    O: Fn(&Z) -> Z,
    M: Fn(i32, &Z) -> Z,
    A: Fn(Z, &Z) -> Z,
    Q: Fn(Z) -> Z,
    N: Fn(&Z, u32) -> NormOrder,

    decreases max_iter - from,
{
    if from >= max_iter {
        max_iter
    } else if may_escape(ops.norm_order, orbit_point(ops, c, from)) {
        from
    } else {
        first_escape(ops, c, from + 1, max_iter)
    }
}

/// The escape time of `c` under the cap `max_iter`: the index of the first
/// point of its orbit with `|z|^2` at or above the escape bound, and
/// `max_iter` if none of the first `max_iter` points is.
pub open spec fn escape_time<Z, O, M, A, Q, N>(
    ops: Arithmetic<O, M, A, Q, N>,
    c: Z,
    max_iter: nat,
) -> nat where
    O: Fn(&Z) -> Z,
    M: Fn(i32, &Z) -> Z,
    A: Fn(Z, &Z) -> Z,
    Q: Fn(Z) -> Z,
    N: Fn(&Z, u32) -> NormOrder,
 {
    first_escape(ops, c, 0, max_iter)
}

/// Counts the steps of `z <- z^2 + c` from zero until `|z|^2` reaches
/// [`ESCAPE_NORM`], or returns `max_iter` if that does not happen within
/// `max_iter` steps.
pub fn iterations<Z, O, M, A, Q, N>(c: &Z, max_iter: usize, ops: &Arithmetic<O, M, A, Q, N>) -> (n:
    usize) where
    O: Fn(&Z) -> Z,
    M: Fn(i32, &Z) -> Z,
    A: Fn(Z, &Z) -> Z,
    Q: Fn(Z) -> Z,
    N: Fn(&Z, u32) -> NormOrder,

    requires
        ready(*ops),
    ensures
        n <= max_iter,
        is_escape_time(*ops, *c, max_iter as int, n as int),
        deterministic(*ops) ==> n == escape_time(*ops, *c, max_iter as nat),
{
    let mut z = (ops.zero)(c);
    let ghost mut orbit: Seq<Z> = seq![z];
    let mut i: usize = 0;
    while i < max_iter
        invariant_except_break
            is_escape_run(*ops, *c, i as int, orbit, i as int),
        invariant
            i <= max_iter,
            orbit.len() == i + 1,
            orbit[i as int] == z,
            ready(*ops),
        ensures
            is_escape_run(*ops, *c, max_iter as int, orbit, i as int),
        decreases max_iter - i,
    {
        let order = (ops.norm_order)(&z, ESCAPE_NORM);
        if has_escaped(order) {
            break ;
        }
        let ghost before = z;
        let squared = (ops.square)(z);
        z = (ops.plus)(squared, c);
        proof {
            orbit = orbit.push(z);
        }
        i += 1;
    }
    proof {
        if deterministic(*ops) {
            lemma_run_follows_orbit(*ops, *c, max_iter as int, orbit, i as int);
        }
    }
    i
}

/// With operations that have one result for each argument, an orbit has one next point.
pub proof fn lemma_step_unique<Z, O, M, A, Q, N>(
    ops: Arithmetic<O, M, A, Q, N>,
    z: Z,
    c: Z,
    next1: Z,
    next2: Z,
) where
    O: Fn(&Z) -> Z,
    M: Fn(i32, &Z) -> Z,
    A: Fn(Z, &Z) -> Z,
    Q: Fn(Z) -> Z,
    N: Fn(&Z, u32) -> NormOrder,

    requires
        deterministic(ops),
        is_step(ops, z, c, next1),
        is_step(ops, z, c, next2),
    ensures
        next1 == next2,
{
    let s1 = choose|squared: Z| #[trigger]
        ops.square.ensures((z,), squared) && ops.plus.ensures((squared, &c), next1);
    let s2 = choose|squared: Z| #[trigger]
        ops.square.ensures((z,), squared) && ops.plus.ensures((squared, &c), next2);
}

/// With operations that have one result for each argument, a run is the
/// orbit of its coordinate, point for point, and its count is the escape time.
pub proof fn lemma_run_follows_orbit<Z, O, M, A, Q, N>(
    ops: Arithmetic<O, M, A, Q, N>,
    c: Z,
    max_iter: int,
    orbit: Seq<Z>,
    n: int,
) where
    O: Fn(&Z) -> Z,
    M: Fn(i32, &Z) -> Z,
    A: Fn(Z, &Z) -> Z,
    Q: Fn(Z) -> Z,
    N: Fn(&Z, u32) -> NormOrder,

    requires
        deterministic(ops),
        is_escape_run(ops, c, max_iter, orbit, n),
    ensures
        forall|i: int| 0 <= i <= n ==> #[trigger] orbit[i] == orbit_point(ops, c, i as nat),
        n == escape_time(ops, c, max_iter as nat),
{
    lemma_orbit_prefix(ops, c, max_iter, orbit, n, n);
    lemma_first_escape_from(ops, c, max_iter, orbit, n, 0);
}

/// The first `m + 1` points of a run are those of the orbit.
proof fn lemma_orbit_prefix<Z, O, M, A, Q, N>(
    ops: Arithmetic<O, M, A, Q, N>,
    c: Z,
    max_iter: int,
    orbit: Seq<Z>,
    n: int,
    m: int,
) where
    O: Fn(&Z) -> Z,
    M: Fn(i32, &Z) -> Z,
    A: Fn(Z, &Z) -> Z,
    Q: Fn(Z) -> Z,
    N: Fn(&Z, u32) -> NormOrder,

    requires
        deterministic(ops),
        is_escape_run(ops, c, max_iter, orbit, n),
        0 <= m <= n,
    ensures
        forall|i: int| 0 <= i <= m ==> #[trigger] orbit[i] == orbit_point(ops, c, i as nat),
    decreases m,
{
    if m > 0 {
        lemma_orbit_prefix(ops, c, max_iter, orbit, n, m - 1);
        let before = orbit_point(ops, c, (m - 1) as nat);
        assert(orbit[m - 1] == before);
        assert(is_step(ops, orbit[m - 1], c, orbit[m - 1 + 1]));
        lemma_step_unique(ops, before, c, orbit[m], orbit_point(ops, c, m as nat));
    }
}

/// No point of a run before its last has escaped, so the search for the
/// first escape, started anywhere in the run, ends at the run's count.
proof fn lemma_first_escape_from<Z, O, M, A, Q, N>(
    ops: Arithmetic<O, M, A, Q, N>,
    c: Z,
    max_iter: int,
    orbit: Seq<Z>,
    n: int,
    from: int,
) where
    O: Fn(&Z) -> Z,
    M: Fn(i32, &Z) -> Z,
    A: Fn(Z, &Z) -> Z,
    Q: Fn(Z) -> Z,
    N: Fn(&Z, u32) -> NormOrder,

    requires
        deterministic(ops),
        is_escape_run(ops, c, max_iter, orbit, n),
        forall|i: int| 0 <= i <= n ==> #[trigger] orbit[i] == orbit_point(ops, c, i as nat),
        0 <= from <= n,
    ensures
        first_escape(ops, c, from as nat, max_iter as nat) == n,
    decreases n - from,
{
    if from < n {
        assert(may_stay(ops.norm_order, orbit[from]));
        assert(!may_escape(ops.norm_order, orbit_point(ops, c, from as nat)));
        lemma_first_escape_from(ops, c, max_iter, orbit, n, from + 1);
    } else if n < max_iter {
        assert(orbit[n] == orbit_point(ops, c, n as nat));
    }
}

/// An escape time never exceeds the cap, and with operations that have one
/// result for each argument a coordinate has one escape time and one orbit:
/// evaluating it again gives the same count.
pub proof fn lemma_escape_time_unique<Z, O, M, A, Q, N>(
    ops: Arithmetic<O, M, A, Q, N>,
    c: Z,
    max_iter: int,
    orbit1: Seq<Z>,
    n1: int,
    orbit2: Seq<Z>,
    n2: int,
) where
    O: Fn(&Z) -> Z,
    M: Fn(i32, &Z) -> Z,
    A: Fn(Z, &Z) -> Z,
    Q: Fn(Z) -> Z,
    N: Fn(&Z, u32) -> NormOrder,

    requires
        deterministic(ops),
        is_escape_run(ops, c, max_iter, orbit1, n1),
        is_escape_run(ops, c, max_iter, orbit2, n2),
    ensures
        0 <= n1 <= max_iter,
        n1 == n2,
        orbit1 == orbit2,
{
    let same = |a: Z, b: Z| a == b;
    assert forall|z: Z, w: Z, a: Z, b: Z|
        same(z, w) && #[trigger] is_step(ops, z, c, a) && #[trigger] is_step(
            ops,
            w,
            c,
            b,
        ) implies same(a, b) by {
        lemma_step_unique(ops, z, c, a, b);
    }
    lemma_related_runs_agree(ops, same, c, c, max_iter, orbit1, n1, orbit2, n2);
}

/// Two coordinates whose orbits stay related escape at the same count.
///
/// `rel` relates the two starting points, is kept by a step of both orbits,
/// and related points are either both inside the escape radius or both
/// outside. With `rel` the mirror image across the real axis this is the
/// symmetry of the set under complex conjugation, for an arithmetic that
/// commutes with conjugation.
pub proof fn lemma_related_runs_agree<Z, O, M, A, Q, N>(
    ops: Arithmetic<O, M, A, Q, N>,
    rel: spec_fn(Z, Z) -> bool,
    c: Z,
    d: Z,
    max_iter: int,
    orbit_c: Seq<Z>,
    n_c: int,
    orbit_d: Seq<Z>,
    n_d: int,
) where
    O: Fn(&Z) -> Z,
    M: Fn(i32, &Z) -> Z,
    A: Fn(Z, &Z) -> Z,
    Q: Fn(Z) -> Z,
    N: Fn(&Z, u32) -> NormOrder,

    requires
        forall|a: Z, b: Z|
            #[trigger] ops.zero.ensures((&c,), a) && #[trigger] ops.zero.ensures((&d,), b)
                ==> rel(a, b),
        forall|z: Z, w: Z, a: Z, b: Z|
            rel(z, w) && #[trigger] is_step(ops, z, c, a) && #[trigger] is_step(ops, w, d, b)
                ==> rel(a, b),
        forall|z: Z, w: Z, o: NormOrder, p: NormOrder|
            rel(z, w) && #[trigger] ops.norm_order.ensures((&z, ESCAPE_NORM), o)
                && #[trigger] ops.norm_order.ensures((&w, ESCAPE_NORM), p) ==> escapes(o)
                == escapes(p),
        is_escape_run(ops, c, max_iter, orbit_c, n_c),
        is_escape_run(ops, d, max_iter, orbit_d, n_d),
    ensures
        n_c == n_d,
        forall|i: int| 0 <= i <= n_c ==> rel(#[trigger] orbit_c[i], orbit_d[i]),
{
    let m = if n_c <= n_d {
        n_c
    } else {
        n_d
    };
    lemma_related_prefix(ops, rel, c, d, max_iter, orbit_c, n_c, orbit_d, n_d, m);
    if n_c < n_d {
        assert(may_stay(ops.norm_order, orbit_d[n_c]));
    } else if n_d < n_c {
        assert(may_stay(ops.norm_order, orbit_c[n_d]));
    }
}

/// The first `m + 1` points of two related orbits are related pairwise.
proof fn lemma_related_prefix<Z, O, M, A, Q, N>(
    ops: Arithmetic<O, M, A, Q, N>,
    rel: spec_fn(Z, Z) -> bool,
    c: Z,
    d: Z,
    max_iter: int,
    orbit_c: Seq<Z>,
    n_c: int,
    orbit_d: Seq<Z>,
    n_d: int,
    m: int,
) where
    O: Fn(&Z) -> Z,
    M: Fn(i32, &Z) -> Z,
    A: Fn(Z, &Z) -> Z,
    Q: Fn(Z) -> Z,
    N: Fn(&Z, u32) -> NormOrder,

    requires
        forall|a: Z, b: Z|
            #[trigger] ops.zero.ensures((&c,), a) && #[trigger] ops.zero.ensures((&d,), b)
                ==> rel(a, b),
        forall|z: Z, w: Z, a: Z, b: Z|
            rel(z, w) && #[trigger] is_step(ops, z, c, a) && #[trigger] is_step(ops, w, d, b)
                ==> rel(a, b),
        is_escape_run(ops, c, max_iter, orbit_c, n_c),
        is_escape_run(ops, d, max_iter, orbit_d, n_d),
        0 <= m <= n_c,
        m <= n_d,
    ensures
        forall|i: int| 0 <= i <= m ==> rel(#[trigger] orbit_c[i], orbit_d[i]),
    decreases m,
{
    if m > 0 {
        lemma_related_prefix(ops, rel, c, d, max_iter, orbit_c, n_c, orbit_d, n_d, m - 1);
        assert(is_step(ops, orbit_c[m - 1], c, orbit_c[m - 1 + 1]));
        assert(is_step(ops, orbit_d[m - 1], d, orbit_d[m - 1 + 1]));
    }
}

/// `z` is inside the escape radius and a step with `c` leaves it where it is.
pub open spec fn is_fixed_inside<Z, O, M, A, Q, N>(
    ops: Arithmetic<O, M, A, Q, N>,
    z: Z,
    c: Z,
) -> bool where
    O: Fn(&Z) -> Z,
    M: Fn(i32, &Z) -> Z,
    A: Fn(Z, &Z) -> Z,
    Q: Fn(Z) -> Z,
    N: Fn(&Z, u32) -> NormOrder,
 {
    &&& forall|o: NormOrder|
        #[trigger] ops.norm_order.ensures((&z, ESCAPE_NORM), o) ==> !escapes(o)
    &&& forall|next: Z| #[trigger] is_step(ops, z, c, next) ==> next == z
}

/// A coordinate whose orbit does not leave its starting point never escapes:
/// its escape time is the cap, whatever the cap. So it is for `c = 0`, where
/// `0^2 + 0` is `0` and `|0|^2` is below the bound.
pub proof fn lemma_fixed_start_reaches_cap<Z, O, M, A, Q, N>(
    ops: Arithmetic<O, M, A, Q, N>,
    c: Z,
    max_iter: int,
    orbit: Seq<Z>,
    n: int,
) where
    O: Fn(&Z) -> Z,
    M: Fn(i32, &Z) -> Z,
    A: Fn(Z, &Z) -> Z,
    Q: Fn(Z) -> Z,
    N: Fn(&Z, u32) -> NormOrder,

    requires
        forall|z: Z| #[trigger] ops.zero.ensures((&c,), z) ==> is_fixed_inside(ops, z, c),
        is_escape_run(ops, c, max_iter, orbit, n),
    ensures
        n == max_iter,
        forall|i: int| 0 <= i <= n ==> #[trigger] orbit[i] == orbit[0],
{
    lemma_fixed_prefix(ops, c, max_iter, orbit, n, n);
    if n < max_iter {
        // The run stopped early, so its last point escaped; but that point is the first one.
        assert(orbit[n] == orbit[0]);
        assert(may_escape(ops.norm_order, orbit[n]));
    }
}

/// The first `m + 1` points of an orbit that starts at a fixed point are that point.
proof fn lemma_fixed_prefix<Z, O, M, A, Q, N>(
    ops: Arithmetic<O, M, A, Q, N>,
    c: Z,
    max_iter: int,
    orbit: Seq<Z>,
    n: int,
    m: int,
) where
    O: Fn(&Z) -> Z,
    M: Fn(i32, &Z) -> Z,
    A: Fn(Z, &Z) -> Z,
    Q: Fn(Z) -> Z,
    N: Fn(&Z, u32) -> NormOrder,

    requires
        forall|z: Z| #[trigger] ops.zero.ensures((&c,), z) ==> is_fixed_inside(ops, z, c),
        is_escape_run(ops, c, max_iter, orbit, n),
        0 <= m <= n,
    ensures
        forall|i: int| 0 <= i <= m ==> #[trigger] orbit[i] == orbit[0],
    decreases m,
{
    if m > 0 {
        lemma_fixed_prefix(ops, c, max_iter, orbit, n, m - 1);
        assert(is_step(ops, orbit[m - 1], c, orbit[m - 1 + 1]));
    }
}

/// The escape test is inclusive: an orbit whose `i`-th point has `|z|^2`
/// equal to the bound, with `i` below the cap, has escape time `i` unless it
/// escaped before.
pub proof fn lemma_bound_counts_as_escaped<Z, O, M, A, Q, N>(
    ops: Arithmetic<O, M, A, Q, N>,
    c: Z,
    max_iter: int,
    orbit: Seq<Z>,
    n: int,
    i: int,
) where
    O: Fn(&Z) -> Z,
    M: Fn(i32, &Z) -> Z,
    A: Fn(Z, &Z) -> Z,
    Q: Fn(Z) -> Z,
    N: Fn(&Z, u32) -> NormOrder,

    requires
        is_escape_run(ops, c, max_iter, orbit, n),
        0 <= i <= n,
        i < max_iter,
        forall|o: NormOrder|
            #[trigger] ops.norm_order.ensures((&orbit[i], ESCAPE_NORM), o) ==> o
                == NormOrder::Equal,
    ensures
        escapes(NormOrder::Equal),
        n == i,
{
    if i < n {
        assert(may_stay(ops.norm_order, orbit[i]));
    }
}

} // verus!
