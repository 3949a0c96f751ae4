//! A minimal reverse-mode automatic-differentiation engine over scalar
//! values, plus a small feed-forward neural network built on top of it.
//!
//! Scalars are exact fixed-point numbers (see [`scalar`]): arithmetic on
//! them is deterministic and fully specified, with a single absorbing
//! non-finite value standing in for overflow and division by zero.
//! The computation graph is an arena of nodes addressed by index
//! (see [`engine`]); the backward pass propagates gradients through the
//! graph in reverse topological order. [`nn`] builds neurons, layers and a
//! multilayer perceptron on top of the engine, and [`loss`] reduces
//! prediction/target pairs to a differentiable squared-error sum.

use vstd::prelude::*;

pub mod engine;
pub mod nn;
pub mod scalar;

use crate::engine::{Graph, Val};
use crate::nn::datas;
use crate::scalar::{
    lemma_mul_minus_one, lemma_zero_squared, sc_add, sc_from_int, sc_mul, sc_pow, sc_zero, Scalar,
};

verus! {

/// The squared difference of one prediction/target pair, as the engine
/// builds it: the target times minus one, added to the prediction, raised
/// to the power two.
pub open spec fn sq_diff(p: Scalar, a: Scalar) -> Scalar {
    sc_pow(sc_add(p, sc_mul(a, sc_from_int(-1))), 2)
}

/// The squared-error sum of the first `k` prediction/target value pairs,
/// accumulated left to right.
pub open spec fn loss_data(pd: Seq<Scalar>, ad: Seq<Scalar>, k: int) -> Scalar
    decreases k,
{
    if k <= 1 {
        sq_diff(pd[0], ad[0])
    } else {
        sc_add(loss_data(pd, ad, k - 1), sq_diff(pd[k - 1], ad[k - 1]))
    }
}

/// Reduces equal-length, non-empty prediction and target sequences to a
/// single value: the sum over all pairs of the squared difference, built
/// out of the engine's subtraction and power operators, so the result is
/// itself differentiable by the backward pass.
#[verifier::loop_isolation(false)]
pub fn loss(g: &mut Graph, pred: &Vec<Val>, actual: &Vec<Val>) -> (v: Val)
    requires
        old(g).wf(),
        pred@.len() == actual@.len(),
        pred@.len() >= 1,
        forall|i: int| 0 <= i < pred@.len() ==> (#[trigger] pred@[i]).idx < old(g)@.len(),
        forall|i: int| 0 <= i < actual@.len() ==> (#[trigger] actual@[i]).idx < old(g)@.len(),
    ensures
        final(g).wf(),
        old(g)@.len() <= final(g)@.len(),
        forall|k: int| 0 <= k < old(g)@.len() ==> final(g)@[k] == old(g)@[k],
        v.idx < final(g)@.len(),
        final(g)@[v.idx as int].data == loss_data(
            datas(old(g)@, pred@),
            datas(old(g)@, actual@),
            pred@.len() as int,
        ),
        final(g)@[v.idx as int].grad == sc_zero(),
{
    let ghost pd = datas(old(g)@, pred@);
    let ghost ad = datas(old(g)@, actual@);
    let n = pred.len();
    let d0 = pred[0].sub(g, actual[0]);
    let mut acc = d0.pow(g, 2);
    let mut i: usize = 1;
    while i < n
        invariant
            1 <= i <= n,
            g.wf(),
            old(g)@.len() <= g@.len(),
            forall|k: int| 0 <= k < old(g)@.len() ==> g@[k] == old(g)@[k],
            acc.idx < g@.len(),
            g@[acc.idx as int].data == loss_data(pd, ad, i as int),
            g@[acc.idx as int].grad == sc_zero(),
        decreases n - i,
    {
        let d = pred[i].sub(g, actual[i]);
        let t = d.pow(g, 2);
        acc = acc.add(g, t);
        i = i + 1;
    }
    acc
}

/// Law: the squared-error loss of predictions against targets with the
/// very same values is exactly zero — subtraction, squaring and summation
/// are all exact at zero in this arithmetic. The one family of values left
/// out is the most negative finite mantissa, whose negation is not
/// representable.
pub proof fn lemma_loss_of_equal_is_zero(pd: Seq<Scalar>, k: int)
    requires
        1 <= k <= pd.len(),
        forall|i: int|
            0 <= i < pd.len() ==> (#[trigger] pd[i]) is Finite && pd[i]->m > i64::MIN,
    ensures
        loss_data(pd, pd, k) == sc_zero(),
    decreases k,
{
    lemma_sq_diff_self_zero(pd[k - 1]);
    if k > 1 {
        lemma_loss_of_equal_is_zero(pd, k - 1);
    }
}

/// The squared difference of a finite value with itself is exactly zero.
proof fn lemma_sq_diff_self_zero(p: Scalar)
    requires
        p is Finite,
        p->m > i64::MIN,
    ensures
        sq_diff(p, p) == sc_zero(),
{
    lemma_mul_minus_one(p);
    assert(sc_add(p, sc_mul(p, sc_from_int(-1))) == sc_zero());
    lemma_zero_squared();
}

} // verus!
