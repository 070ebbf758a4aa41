//! Sequence indices and coordinates: a linear index over a shape, with
//! the last axis varying fastest.

use vstd::arithmetic::div_mod::{
    lemma_fundamental_div_mod, lemma_fundamental_div_mod_converse, lemma_multiply_divide_lt,
};
use vstd::arithmetic::mul::{lemma_mul_inequality, lemma_mul_is_commutative};
use vstd::prelude::*;

verus! {

/// The number of points of a shape: the product of its sizes.
pub open spec fn product(shape: Seq<usize>) -> nat
    decreases shape.len(),
{
    if shape.len() == 0 {
        1
    } else {
        product(shape.drop_last()) * shape.last() as nat
    }
}

/// The coordinates of the point with sequence index `s`, unravelled
/// row-major: the last coordinate is `s` modulo the last size, and the
/// ones before it are those of the quotient.
pub open spec fn unravel(shape: Seq<usize>, s: nat) -> Seq<nat>
    decreases shape.len(),
{
    if shape.len() == 0 {
        Seq::empty()
    } else {
        unravel(shape.drop_last(), s / (shape.last() as nat)).push(s % (shape.last() as nat))
    }
}

/// The sequence index of the point with the given coordinates.
pub open spec fn ravel(shape: Seq<usize>, coords: Seq<nat>) -> nat
    decreases shape.len(),
{
    if shape.len() == 0 {
        0
    } else {
        ravel(shape.drop_last(), coords.drop_last()) * shape.last() as nat + coords.last()
    }
}

/// The stride of axis `i`: the product of the sizes of the axes after
/// it.
pub open spec fn stride(shape: Seq<usize>, i: int) -> nat {
    product(shape.skip(i + 1))
}

/// The sum of the first `n` coordinates, each times the stride of its
/// axis.
pub open spec fn stride_sum(shape: Seq<usize>, coords: Seq<nat>, n: nat) -> nat
    decreases n,
{
    if n == 0 {
        0
    } else {
        stride_sum(shape, coords, (n - 1) as nat) + coords[n - 1] * stride(shape, n - 1)
    }
}

/// Whether the coordinates name a point of the shape.
pub open spec fn in_shape(shape: Seq<usize>, coords: Seq<nat>) -> bool {
    &&& coords.len() == shape.len()
    &&& forall|i: int| 0 <= i < shape.len() ==> #[trigger] coords[i] < shape[i]
}

/// A shape with a point has no axis of size zero.
pub proof fn lemma_product_positive(shape: Seq<usize>)
    requires
        product(shape) > 0,
    ensures
        forall|i: int| 0 <= i < shape.len() ==> #[trigger] shape[i] > 0,
    decreases shape.len(),
{
    if shape.len() > 0 {
        let front = shape.drop_last();
        let last = shape.last() as nat;
        assert(product(front) > 0 && last > 0) by (nonlinear_arith)
            requires
                product(front) * last > 0,
        ;
        lemma_product_positive(front);
        assert forall|i: int| 0 <= i < shape.len() implies #[trigger] shape[i] > 0 by {
            if i < front.len() {
                assert(front[i] == shape[i]);
            }
        }
    }
}

/// The coordinates of a sequence index below the number of points name a
/// point of the shape.
pub proof fn lemma_unravel_in_shape(shape: Seq<usize>, s: nat)
    requires
        s < product(shape),
    ensures
        in_shape(shape, unravel(shape, s)),
    decreases shape.len(),
{
    if shape.len() > 0 {
        let front = shape.drop_last();
        let last = shape.last() as nat;
        lemma_product_positive(shape);
        assert(shape[shape.len() - 1] > 0);
        lemma_mul_is_commutative(product(front) as int, last as int);
        lemma_multiply_divide_lt(s as int, last as int, product(front) as int);
        lemma_unravel_in_shape(front, s / last);
        let coords = unravel(shape, s);
        assert forall|i: int| 0 <= i < shape.len() implies #[trigger] coords[i] < shape[i] by {
            if i < front.len() {
                assert(coords[i] == unravel(front, s / last)[i]);
                assert(front[i] == shape[i]);
            }
        }
    }
}

/// Round trip: the sequence index of the coordinates of `s` is `s`.
pub proof fn lemma_ravel_unravel(shape: Seq<usize>, s: nat)
    requires
        s < product(shape),
    ensures
        ravel(shape, unravel(shape, s)) == s,
    decreases shape.len(),
{
    if shape.len() > 0 {
        let front = shape.drop_last();
        let last = shape.last() as nat;
        lemma_product_positive(shape);
        assert(shape[shape.len() - 1] > 0);
        lemma_mul_is_commutative(product(front) as int, last as int);
        lemma_multiply_divide_lt(s as int, last as int, product(front) as int);
        lemma_ravel_unravel(front, s / last);
        assert(unravel(shape, s).drop_last() =~= unravel(front, s / last));
        lemma_fundamental_div_mod(s as int, last as int);
        lemma_mul_is_commutative((s / last) as int, last as int);
    }
}

/// The sequence index of a point lies below the number of points.
pub proof fn lemma_ravel_bound(shape: Seq<usize>, coords: Seq<nat>)
    requires
        in_shape(shape, coords),
    ensures
        ravel(shape, coords) < product(shape),
    decreases shape.len(),
{
    if shape.len() > 0 {
        let front = shape.drop_last();
        let last = shape.last() as nat;
        assert(coords[shape.len() - 1] < shape[shape.len() - 1]);
        assert(in_shape(front, coords.drop_last())) by {
            assert forall|i: int| 0 <= i < front.len() implies #[trigger] coords.drop_last()[i]
                < front[i] by {
                assert(coords[i] < shape[i]);
            }
        }
        lemma_ravel_bound(front, coords.drop_last());
        let r = ravel(front, coords.drop_last());
        lemma_mul_inequality((r + 1) as int, product(front) as int, last as int);
        assert((r + 1) * last == r * last + last) by (nonlinear_arith);
    }
}

/// Round trip the other way: the coordinates of the sequence index of a
/// point are those of the point.
pub proof fn lemma_unravel_ravel(shape: Seq<usize>, coords: Seq<nat>)
    requires
        in_shape(shape, coords),
    ensures
        unravel(shape, ravel(shape, coords)) == coords,
    decreases shape.len(),
{
    if shape.len() == 0 {
        assert(coords =~= Seq::<nat>::empty());
    } else {
        let front = shape.drop_last();
        let last = shape.last() as nat;
        assert(coords[shape.len() - 1] < shape[shape.len() - 1]);
        assert(in_shape(front, coords.drop_last())) by {
            assert forall|i: int| 0 <= i < front.len() implies #[trigger] coords.drop_last()[i]
                < front[i] by {
                assert(coords[i] < shape[i]);
            }
        }
        lemma_unravel_ravel(front, coords.drop_last());
        let r = ravel(front, coords.drop_last());
        lemma_fundamental_div_mod_converse(
            ravel(shape, coords) as int,
            last as int,
            r as int,
            coords.last() as int,
        );
        assert(unravel(shape, ravel(shape, coords)) =~= coords);
    }
}

/// The sequence index is the sum of the coordinates, each times the
/// stride of its axis.
pub proof fn lemma_ravel_is_stride_sum(shape: Seq<usize>, coords: Seq<nat>)
    requires
        coords.len() == shape.len(),
    ensures
        ravel(shape, coords) == stride_sum(shape, coords, shape.len()),
    decreases shape.len(),
{
    if shape.len() > 0 {
        let n = shape.len();
        let front = shape.drop_last();
        let last = shape.last() as nat;
        lemma_ravel_is_stride_sum(front, coords.drop_last());
        lemma_stride_sum_extend(shape, coords, (n - 1) as nat);
        assert(shape.skip(n as int) =~= Seq::<usize>::empty());
        assert(stride(shape, n - 1) == 1);
        assert(coords[n - 1] * 1 == coords[n - 1]) by (nonlinear_arith);
    }
}

/// Adding an axis at the end multiplies the strides of the axes before
/// it by its size.
pub proof fn lemma_stride_sum_extend(shape: Seq<usize>, coords: Seq<nat>, k: nat)
    requires
        shape.len() > 0,
        coords.len() == shape.len(),
        k < shape.len(),
    ensures
        stride_sum(shape, coords, k) == stride_sum(shape.drop_last(), coords.drop_last(), k)
            * shape.last() as nat,
    decreases k,
{
    let front = shape.drop_last();
    let last = shape.last() as nat;
    if k == 0 {
        assert(0 * last == 0) by (nonlinear_arith);
    } else {
        lemma_stride_sum_extend(shape, coords, (k - 1) as nat);
        assert(shape.skip(k as int).drop_last() =~= front.skip(k as int));
        assert(shape.skip(k as int).last() == shape.last());
        assert(stride(shape, k - 1) == stride(front, k - 1) * last);
        let a = stride_sum(front, coords.drop_last(), (k - 1) as nat);
        let c = coords[k - 1];
        let st = stride(front, k - 1);
        assert(coords.drop_last()[k - 1] == c);
        assert((a + c * st) * last == a * last + c * (st * last)) by (nonlinear_arith);
    }
}

/// Computes the coordinates of a sequence index.
pub fn unravel_index(shape: &Vec<usize>, seq: usize) -> (coords: Vec<usize>)
    requires
        seq < product(shape@),
    ensures
        coords@.map_values(|c: usize| c as nat) == unravel(shape@, seq as nat),
        coords@.len() == shape@.len(),
        forall|i: int| 0 <= i < shape@.len() ==> #[trigger] coords@[i] < shape@[i],
{
    proof {
        lemma_product_positive(shape@);
        lemma_unravel_in_shape(shape@, seq as nat);
    }
    let n = shape.len();
    let mut coords: Vec<usize> = Vec::new();
    let mut k: usize = 0;
    while k < n
        invariant
            k <= n,
            coords@.len() == k,
        decreases n - k,
    {
        coords.push(0);
        k += 1;
    }
    let mut rest: usize = seq;
    let mut i: usize = n;
    assert(shape@.take(n as int) =~= shape@);
    while i > 0
        invariant
            n == shape@.len(),
            coords@.len() == n,
            i <= n,
            forall|j: int| 0 <= j < n ==> #[trigger] shape@[j] > 0,
            unravel(shape@, seq as nat) =~= unravel(shape@.take(i as int), rest as nat)
                + coords@.skip(i as int).map_values(|c: usize| c as nat),
        decreases i,
    {
        let ghost prefix = shape@.take(i as int);
        let ghost tail = coords@.skip(i as int).map_values(|c: usize| c as nat);
        i -= 1;
        let size = shape[i];
        assert(prefix.last() == size);
        assert(prefix.drop_last() =~= shape@.take(i as int));
        coords.set(i, rest % size);
        let ghost digit = (rest % size) as nat;
        rest = rest / size;
        assert(coords@.skip(i as int).map_values(|c: usize| c as nat) =~= seq![digit] + tail);
        assert(unravel(prefix, (rest * size + digit) as nat) =~= unravel(
            shape@.take(i as int),
            rest as nat,
        ).push(digit)) by {
            lemma_fundamental_div_mod_converse(
                (rest * size + digit) as int,
                size as int,
                rest as int,
                digit as int,
            );
        }
    }
    assert(shape@.take(0) =~= Seq::<usize>::empty());
    assert(coords@.skip(0) =~= coords@);
    assert(coords@.map_values(|c: usize| c as nat) =~= unravel(shape@, seq as nat));
    proof {
        assert forall|j: int| 0 <= j < shape@.len() implies #[trigger] coords@[j] < shape@[j] by {
            assert(coords@.map_values(|c: usize| c as nat)[j] == coords@[j] as nat);
        }
    }
    coords
}

/// Computes the sequence index of a point, where the coordinates name
/// one.
pub fn ravel_index(shape: &Vec<usize>, coords: &Vec<usize>) -> (seq: Option<usize>)
    requires
        product(shape@) <= usize::MAX,
    ensures
        match seq {
            Some(s) => {
                &&& in_shape(shape@, coords@.map_values(|c: usize| c as nat))
                &&& s == ravel(shape@, coords@.map_values(|c: usize| c as nat))
                &&& s < product(shape@)
            },
            None => !in_shape(shape@, coords@.map_values(|c: usize| c as nat)),
        },
{
    let ghost cs = coords@.map_values(|c: usize| c as nat);
    let n = shape.len();
    if coords.len() != n {
        return None;
    }
    let mut k: usize = 0;
    while k < n
        invariant
            n == shape@.len(),
            n == coords@.len(),
            cs == coords@.map_values(|c: usize| c as nat),
            k <= n,
            forall|j: int| 0 <= j < k ==> #[trigger] cs[j] < shape@[j],
        decreases n - k,
    {
        if coords[k] >= shape[k] {
            assert(!(cs[k as int] < shape@[k as int]));
            return None;
        }
        k += 1;
    }
    assert(in_shape(shape@, cs));
    proof {
        lemma_ravel_bound(shape@, cs);
    }
    let mut acc: usize = 0;
    let mut i: usize = 0;
    assert(shape@.take(0) =~= Seq::<usize>::empty());
    while i < n
        invariant
            n == shape@.len(),
            n == coords@.len(),
            cs == coords@.map_values(|c: usize| c as nat),
            in_shape(shape@, cs),
            i <= n,
            acc == ravel(shape@.take(i as int), cs.take(i as int)),
            product(shape@) <= usize::MAX,
        decreases n - i,
    {
        let ghost next_shape = shape@.take(i + 1);
        let ghost next_coords = cs.take(i + 1);
        proof {
            assert(next_shape.drop_last() =~= shape@.take(i as int));
            assert(next_coords.drop_last() =~= cs.take(i as int));
            assert(in_shape(next_shape, next_coords)) by {
                assert forall|j: int| 0 <= j < next_shape.len() implies #[trigger] next_coords[j]
                    < next_shape[j] by {
                    assert(cs[j] < shape@[j]);
                }
            }
            lemma_ravel_bound(next_shape, next_coords);
            assert forall|j: int| 0 <= j < shape@.len() implies #[trigger] shape@[j] > 0 by {
                assert(cs[j] < shape@[j]);
            }
            lemma_product_prefix(shape@, (i + 1) as nat);
            assert(cs[i as int] == coords@[i as int] as nat);
        }
        assert(acc * shape@[i as int] + coords@[i as int] == ravel(next_shape, next_coords));
        acc = acc * shape[i] + coords[i];
        i += 1;
    }
    assert(shape@.take(n as int) =~= shape@);
    assert(cs.take(n as int) =~= cs);
    Some(acc)
}

/// A prefix of a shape that has a point has no more points than the
/// whole shape.
pub proof fn lemma_product_prefix(shape: Seq<usize>, k: nat)
    requires
        k <= shape.len(),
        forall|i: int| 0 <= i < shape.len() ==> #[trigger] shape[i] > 0,
    ensures
        product(shape.take(k as int)) <= product(shape),
    decreases shape.len() - k,
{
    if k == shape.len() {
        assert(shape.take(k as int) =~= shape);
    } else {
        lemma_product_prefix(shape, k + 1);
        let longer = shape.take(k as int + 1);
        assert(longer.drop_last() =~= shape.take(k as int));
        assert(longer.last() == shape[k as int]);
        assert(shape[k as int] > 0);
        let p = product(shape.take(k as int));
        let last = shape[k as int] as nat;
        assert(p <= p * last) by (nonlinear_arith)
            requires
                last >= 1,
        ;
    }
}

} // verus!
