//! Neurons, layers and the multilayer perceptron, built on the engine.
//!
//! A neuron owns one bias node and one weight node per input, all leaves
//! initialized to independent random values in [-1, 1]; evaluating it on
//! matching inputs builds the graph for the hyperbolic tangent of the bias
//! plus the weighted sum of the inputs. A layer evaluates each of its
//! neurons on the same inputs; a network threads its input through its
//! layers in order. All three enumerate their parameter handles and can
//! reset every parameter's gradient.

use vstd::prelude::*;

use crate::engine::{Graph, Val, ValInner};
use crate::scalar::{sc_add, sc_mul, sc_tanh, sc_zero, Scalar};

verus! {

#[verifier::external_type_specification]
#[verifier::external_body]
pub struct ExThreadRng(rand::rngs::ThreadRng);

/// Relies on rand::thread_rng: a handle to the thread-local random
/// generator. Nothing is promised of the numbers it will yield.
#[verifier::external_body]
fn fresh_rng() -> rand::rngs::ThreadRng {
    rand::thread_rng()
}

/// Relies on rand::Rng::gen_range: a value drawn uniformly from the given
/// inclusive range. It panics only on an empty range, which the
/// precondition rules out; of the result, only its bounds are promised,
/// since it depends on the generator's state.
#[verifier::external_body]
fn draw_in_range(rng: &mut rand::rngs::ThreadRng, lo: i64, hi: i64) -> (r: i64)
    requires
        lo <= hi,
    ensures
        lo <= r <= hi,
{
    rand::Rng::gen_range(rng, lo..=hi)
}

/// The values of the nodes `vs` point at.
pub open spec fn datas(gs: Seq<ValInner>, vs: Seq<Val>) -> Seq<Scalar> {
    vs.map_values(|v: Val| gs[v.idx as int].data)
}

/// The bias plus the weighted sum of the first `k` inputs, accumulated
/// left to right: `b + x_0 w_0 + ... + x_(k-1) w_(k-1)`.
pub open spec fn affine(wd: Seq<Scalar>, xd: Seq<Scalar>, b: Scalar, k: int) -> Scalar
    decreases k,
{
    if k <= 0 {
        b
    } else {
        sc_add(affine(wd, xd, b, k - 1), sc_mul(xd[k - 1], wd[k - 1]))
    }
}

/// A freshly initialized parameter node: a leaf with gradient zero whose
/// value is finite and lies in [-1, 1].
pub open spec fn unit_leaf(n: ValInner) -> bool {
    &&& n.op is None
    &&& n.grad == sc_zero()
    &&& n.data is Finite
    &&& -65536 <= n.data->m <= 65536
}

/// An individual neuron: one bias and one weight per input, all leaf
/// nodes of the graph the neuron was created in.
pub struct Neuron {
    bias: Val,
    weights: Vec<Val>,
}

impl Neuron {
    /// The handle on the bias node.
    pub closed spec fn spec_bias(self) -> Val {
        self.bias
    }

    /// The handles on the weight nodes.
    pub closed spec fn spec_weights(self) -> Seq<Val> {
        self.weights@
    }

    /// The neuron's input arity: its number of weights.
    pub open spec fn nin(self) -> nat {
        self.spec_weights().len()
    }

    /// All the neuron's parameter handles point into the graph.
    pub open spec fn wf(self, gs: Seq<ValInner>) -> bool {
        &&& self.spec_bias().idx < gs.len()
        &&& forall|i: int|
            0 <= i < self.spec_weights().len() ==> (#[trigger] self.spec_weights()[i]).idx
                < gs.len()
    }

    /// Whether node `k` is one of the neuron's parameters.
    pub open spec fn is_param(self, k: int) -> bool {
        ||| self.spec_bias().idx == k
        ||| exists|i: int|
            0 <= i < self.spec_weights().len() && (#[trigger] self.spec_weights()[i]).idx == k
    }

    /// What this neuron computes on inputs with values `xd`: the
    /// hyperbolic tangent of the bias plus the weighted sum of the inputs.
    pub open spec fn out(self, gs: Seq<ValInner>, xd: Seq<Scalar>) -> Scalar {
        sc_tanh(
            affine(
                datas(gs, self.spec_weights()),
                xd,
                gs[self.spec_bias().idx as int].data,
                self.nin() as int,
            ),
        )
    }

    /// Creates a neuron of input arity `nin`: appends `nin` weight leaves
    /// and one bias leaf to the graph, each holding an independent random
    /// value in [-1, 1] with gradient zero.
    #[verifier::loop_isolation(false)]
    pub fn new(g: &mut Graph, nin: usize) -> (r: Neuron)
        requires
            old(g).wf(),
            nin >= 1,
        ensures
            final(g).wf(),
            final(g)@.len() == old(g)@.len() + nin + 1,
            forall|k: int| 0 <= k < old(g)@.len() ==> final(g)@[k] == old(g)@[k],
            forall|k: int|
                old(g)@.len() <= k < final(g)@.len() ==> unit_leaf(#[trigger] final(g)@[k]),
            r.nin() == nin,
            forall|t: int|
                0 <= t < nin ==> (#[trigger] r.spec_weights()[t]).idx == old(g)@.len() + t,
            r.spec_bias().idx == old(g)@.len() + nin,
            r.wf(final(g)@),
    {
        let mut rng = fresh_rng();
        let mut weights: Vec<Val> = Vec::new();
        let mut i: usize = 0;
        while i < nin
            invariant
                i <= nin,
                weights@.len() == i,
                g.wf(),
                g@.len() == old(g)@.len() + i,
                forall|k: int| 0 <= k < old(g)@.len() ==> g@[k] == old(g)@[k],
                forall|k: int| old(g)@.len() <= k < g@.len() ==> unit_leaf(#[trigger] g@[k]),
                forall|t: int|
                    0 <= t < i ==> (#[trigger] weights@[t]).idx == old(g)@.len() + t,
            decreases nin - i,
        {
            let m = draw_in_range(&mut rng, -65536, 65536);
            let v = Val::new(g, Scalar::from_raw(m));
            weights.push(v);
            i = i + 1;
        }
        let mb = draw_in_range(&mut rng, -65536, 65536);
        let bias = Val::new(g, Scalar::from_raw(mb));
        Neuron { bias, weights }
    }

    /// Evaluates the neuron: builds, from the input handles, the graph for
    /// the hyperbolic tangent of the bias plus the weighted sum of the
    /// inputs, and returns the handle on the result node. The input length
    /// must match the weight count.
    #[verifier::loop_isolation(false)]
    pub fn call(&self, g: &mut Graph, input: &Vec<Val>) -> (v: Val)
        requires
            old(g).wf(),
            self.wf(old(g)@),
            input@.len() == self.nin(),
            forall|i: int|
                0 <= i < input@.len() ==> (#[trigger] input@[i]).idx < old(g)@.len(),
        ensures
            final(g).wf(),
            old(g)@.len() <= final(g)@.len(),
            forall|k: int| 0 <= k < old(g)@.len() ==> final(g)@[k] == old(g)@[k],
            v.idx < final(g)@.len(),
            final(g)@[v.idx as int].data == self.out(old(g)@, datas(old(g)@, input@)),
            final(g)@[v.idx as int].grad == sc_zero(),
    {
        let ghost wd = datas(old(g)@, self.spec_weights());
        let ghost xd = datas(old(g)@, input@);
        let mut acc: Val = self.bias;
        let n = self.weights.len();
        let mut i: usize = 0;
        while i < n
            invariant
                i <= n,
                g.wf(),
                old(g)@.len() <= g@.len(),
                forall|k: int| 0 <= k < old(g)@.len() ==> g@[k] == old(g)@[k],
                acc.idx < g@.len(),
                g@[acc.idx as int].data == affine(
                    wd,
                    xd,
                    old(g)@[self.spec_bias().idx as int].data,
                    i as int,
                ),
            decreases n - i,
        {
            let p = input[i].mul(g, self.weights[i]);
            acc = acc.add(g, p);
            i = i + 1;
        }
        acc.tanh(g)
    }

    /// The neuron's parameter handles: every weight, then the bias.
    pub fn parameters(&self) -> (r: Vec<Val>)
        ensures
            r@ =~= self.spec_weights().push(self.spec_bias()),
    {
        let mut params: Vec<Val> = Vec::new();
        let mut i: usize = 0;
        let n = self.weights.len();
        while i < n
            invariant
                i <= n,
                n == self.spec_weights().len(),
                params@ =~= self.spec_weights().take(i as int),
            decreases n - i,
        {
            params.push(self.weights[i]);
            i = i + 1;
        }
        params.push(self.bias);
        proof {
            assert(params@ =~= self.spec_weights().push(self.spec_bias()));
        }
        params
    }

    /// Resets the gradient of every parameter of the neuron to zero,
    /// touching no value, no operation record, and no other node.
    #[verifier::loop_isolation(false)]
    pub fn zero_grad(&self, g: &mut Graph)
        requires
            old(g).wf(),
            self.wf(old(g)@),
        ensures
            final(g).wf(),
            final(g)@.len() == old(g)@.len(),
            forall|k: int|
                0 <= k < final(g)@.len() ==> final(g)@[k].data == old(g)@[k].data && final(g)@[k].op == old(g)@[k].op,
            forall|k: int|
                0 <= k < final(g)@.len() && self.is_param(k) ==> final(g)@[k].grad == sc_zero(),
            forall|k: int|
                0 <= k < final(g)@.len() && !self.is_param(k) ==> final(g)@[k].grad == old(g)@[k].grad,
    {
        let n = self.weights.len();
        let mut i: usize = 0;
        while i < n
            invariant
                i <= n,
                g.wf(),
                g@.len() == old(g)@.len(),
                forall|k: int|
                    0 <= k < g@.len() ==> g@[k].data == old(g)@[k].data && g@[k].op == old(g)@[k].op,
                forall|k: int|
                    0 <= k < g@.len() && has_weight(*self, i as int, k) ==> g@[k].grad
                        == sc_zero(),
                forall|k: int|
                    0 <= k < g@.len() && !has_weight(*self, i as int, k) ==> g@[k].grad == old(g)@[k].grad,
            decreases n - i,
        {
            let ghost gprev = g@;
            self.weights[i].zero_grad(g);
            proof {
                assert forall|k: int|
                    0 <= k < g@.len() && has_weight(*self, i + 1, k) implies g@[k].grad
                    == sc_zero() by {
                    if k != self.spec_weights()[i as int].idx {
                        assert(has_weight(*self, i as int, k));
                    }
                }
                assert forall|k: int|
                    0 <= k < g@.len() && !has_weight(*self, i + 1, k) implies g@[k].grad == old(g)@[k].grad by {
                    assert(!has_weight(*self, i as int, k));
                    assert(k != self.spec_weights()[i as int].idx);
                    assert(g@[k].grad == gprev[k].grad);
                }
            }
            i = i + 1;
        }
        let ghost gmid = g@;
        self.bias.zero_grad(g);
        proof {
            let n_w = self.spec_weights().len() as int;
            assert forall|k: int| 0 <= k < g@.len() && self.is_param(k) implies g@[k].grad
                == sc_zero() by {
                if k != self.spec_bias().idx as int {
                    assert(has_weight(*self, n_w, k));
                    assert(gmid[k].grad == sc_zero());
                }
            }
            assert forall|k: int|
                0 <= k < g@.len() && !self.is_param(k) implies g@[k].grad == old(g)@[k].grad by {
                assert(!has_weight(*self, n_w, k));
            }
        }
    }
}

/// Whether node `k` is one of the first `upto` weights of the neuron.
pub open spec fn has_weight(n: Neuron, upto: int, k: int) -> bool {
    exists|t: int| 0 <= t < upto && (#[trigger] n.spec_weights()[t]).idx == k
}

/// A neuron's output formula reads only nodes of the graph prefix the two
/// sequences share, so extending the graph does not change it.
pub proof fn lemma_out_congruent(gs1: Seq<ValInner>, gs2: Seq<ValInner>, n: Neuron, xd: Seq<Scalar>)
    requires
        n.wf(gs1),
        gs1.len() <= gs2.len(),
        forall|k: int| 0 <= k < gs1.len() ==> gs2[k] == gs1[k],
    ensures
        n.out(gs2, xd) == n.out(gs1, xd),
{
    assert(datas(gs2, n.spec_weights()) =~= datas(gs1, n.spec_weights()));
}

/// A neuron whose parameters point into a graph still points into any
/// extension of it.
pub proof fn lemma_neuron_wf_monotone(n: Neuron, gs1: Seq<ValInner>, gs2: Seq<ValInner>)
    requires
        n.wf(gs1),
        gs1.len() <= gs2.len(),
    ensures
        n.wf(gs2),
{
}

/// A layer of neurons, all of the same input arity, evaluated on shared
/// inputs.
pub struct Layer {
    neurons: Vec<Neuron>,
}

/// What a layer computes on inputs with values `xd`: one output per
/// neuron, every neuron reading the same inputs.
pub open spec fn layer_out(gs: Seq<ValInner>, l: Layer, xd: Seq<Scalar>) -> Seq<Scalar> {
    Seq::new(l.nout(), |j: int| l.spec_neurons()[j].out(gs, xd))
}

/// Whether node `k` is a parameter of one of the first `upto` neurons.
pub open spec fn has_neuron_param(l: Layer, upto: int, k: int) -> bool {
    exists|j: int| 0 <= j < upto && (#[trigger] l.spec_neurons()[j]).is_param(k)
}

/// The parameter handles of the first `j` neurons of the layer: each
/// neuron's weights then its bias, concatenated in neuron order.
pub open spec fn layer_params(l: Layer, j: int) -> Seq<Val>
    decreases j,
{
    if j <= 0 {
        Seq::empty()
    } else {
        layer_params(l, j - 1) + l.spec_neurons()[j - 1].spec_weights().push(
            l.spec_neurons()[j - 1].spec_bias(),
        )
    }
}

/// The number of parameters of the first `j` neurons of the layer.
pub open spec fn layer_param_len(l: Layer, j: int) -> int
    decreases j,
{
    if j <= 0 {
        0
    } else {
        layer_param_len(l, j - 1) + l.spec_neurons()[j - 1].nin() + 1
    }
}

impl Layer {
    /// The layer's neurons.
    pub closed spec fn spec_neurons(self) -> Seq<Neuron> {
        self.neurons@
    }

    /// The layer's output arity: its number of neurons.
    pub open spec fn nout(self) -> nat {
        self.spec_neurons().len()
    }

    /// The layer's input arity: its neurons' common input arity.
    pub open spec fn nin(self) -> nat {
        if self.spec_neurons().len() == 0 {
            0
        } else {
            self.spec_neurons()[0].nin()
        }
    }

    /// Every neuron points into the graph and has the layer's input arity.
    pub open spec fn wf(self, gs: Seq<ValInner>) -> bool {
        forall|j: int|
            0 <= j < self.spec_neurons().len() ==> (#[trigger] self.spec_neurons()[j]).wf(gs)
                && self.spec_neurons()[j].nin() == self.nin()
    }

    /// Whether node `k` is a parameter of one of the layer's neurons.
    pub open spec fn is_param(self, k: int) -> bool {
        has_neuron_param(self, self.spec_neurons().len() as int, k)
    }

    /// Creates a layer of `nout` neurons of input arity `nin`: appends
    /// `nout * (nin + 1)` fresh parameter leaves to the graph, each
    /// holding an independent random value in [-1, 1] with gradient zero.
    #[verifier::loop_isolation(false)]
    pub fn new(g: &mut Graph, nin: usize, nout: usize) -> (r: Layer)
        requires
            old(g).wf(),
            nin >= 1,
        ensures
            final(g).wf(),
            final(g)@.len() == old(g)@.len() + nout * (nin + 1),
            forall|k: int| 0 <= k < old(g)@.len() ==> final(g)@[k] == old(g)@[k],
            forall|k: int|
                old(g)@.len() <= k < final(g)@.len() ==> unit_leaf(#[trigger] final(g)@[k]),
            r.nout() == nout,
            forall|j: int|
                0 <= j < nout ==> (#[trigger] r.spec_neurons()[j]).nin() == nin,
            r.wf(final(g)@),
    {
        let mut neurons: Vec<Neuron> = Vec::new();
        let mut j: usize = 0;
        while j < nout
            invariant
                j <= nout,
                neurons@.len() == j,
                g.wf(),
                g@.len() == old(g)@.len() + j * (nin + 1),
                forall|k: int| 0 <= k < old(g)@.len() ==> g@[k] == old(g)@[k],
                forall|k: int| old(g)@.len() <= k < g@.len() ==> unit_leaf(#[trigger] g@[k]),
                forall|t: int|
                    0 <= t < j ==> (#[trigger] neurons@[t]).nin() == nin && neurons@[t].wf(g@),
            decreases nout - j,
        {
            let ghost gpre = g@;
            let n = Neuron::new(g, nin);
            proof {
                assert((j + 1) * (nin + 1) == j * (nin + 1) + (nin + 1)) by (nonlinear_arith);
                assert forall|t: int|
                    0 <= t < j implies (#[trigger] neurons@[t]).nin() == nin && neurons@[t].wf(
                    g@,
                ) by {
                    lemma_neuron_wf_monotone(neurons@[t], gpre, g@);
                }
            }
            neurons.push(n);
            j = j + 1;
        }
        Layer { neurons }
    }

    /// Evaluates every neuron of the layer on the same inputs, in order,
    /// and returns one result handle per neuron.
    #[verifier::loop_isolation(false)]
    pub fn call(&self, g: &mut Graph, input: &Vec<Val>) -> (r: Vec<Val>)
        requires
            old(g).wf(),
            self.wf(old(g)@),
            self.nout() > 0 ==> input@.len() == self.nin(),
            forall|i: int|
                0 <= i < input@.len() ==> (#[trigger] input@[i]).idx < old(g)@.len(),
        ensures
            final(g).wf(),
            old(g)@.len() <= final(g)@.len(),
            forall|k: int| 0 <= k < old(g)@.len() ==> final(g)@[k] == old(g)@[k],
            r@.len() == self.nout(),
            forall|j: int|
                0 <= j < r@.len() ==> (#[trigger] r@[j]).idx < final(g)@.len() && final(g)@[r@[j].idx as int].data == layer_out(old(g)@, *self, datas(old(g)@, input@))[j]
                    && final(g)@[r@[j].idx as int].grad == sc_zero(),
    {
        let ghost xd = datas(old(g)@, input@);
        let mut out: Vec<Val> = Vec::new();
        let n = self.neurons.len();
        let mut j: usize = 0;
        while j < n
            invariant
                j <= n,
                out@.len() == j,
                g.wf(),
                old(g)@.len() <= g@.len(),
                forall|k: int| 0 <= k < old(g)@.len() ==> g@[k] == old(g)@[k],
                forall|t: int|
                    0 <= t < j ==> (#[trigger] out@[t]).idx < g@.len() && g@[out@[t].idx as int].data
                        == self.spec_neurons()[t].out(old(g)@, xd) && g@[out@[t].idx as int].grad
                        == sc_zero(),
            decreases n - j,
        {
            let ghost gpre = g@;
            proof {
                lemma_neuron_wf_monotone(self.spec_neurons()[j as int], old(g)@, gpre);
            }
            let v = self.neurons[j].call(g, input);
            proof {
                assert(datas(gpre, input@) =~= xd);
                lemma_out_congruent(old(g)@, gpre, self.spec_neurons()[j as int], xd);
            }
            out.push(v);
            j = j + 1;
        }
        out
    }

    /// The layer's parameter handles: each neuron's parameters in neuron
    /// order.
    pub fn parameters(&self) -> (r: Vec<Val>)
        ensures
            r@ == layer_params(*self, self.nout() as int),
            r@.len() == layer_param_len(*self, self.nout() as int),
            forall|t: int| 0 <= t < r@.len() ==> self.is_param((#[trigger] r@[t]).idx as int),
    {
        let mut params: Vec<Val> = Vec::new();
        let n = self.neurons.len();
        let mut j: usize = 0;
        while j < n
            invariant
                j <= n,
                n == self.spec_neurons().len(),
                params@ == layer_params(*self, j as int),
                params@.len() == layer_param_len(*self, j as int),
                forall|t: int|
                    0 <= t < params@.len() ==> self.is_param((#[trigger] params@[t]).idx as int),
            decreases n - j,
        {
            let mut ps = self.neurons[j].parameters();
            proof {
                let neuron = self.spec_neurons()[j as int];
                assert forall|t: int| 0 <= t < ps@.len() implies self.is_param(
                    (#[trigger] ps@[t]).idx as int,
                ) by {
                    if t < neuron.spec_weights().len() {
                        assert(has_weight(neuron, neuron.spec_weights().len() as int, ps@[t].idx as int));
                    }
                    assert(neuron.is_param(ps@[t].idx as int));
                    assert(has_neuron_param(*self, self.spec_neurons().len() as int, ps@[t].idx as int));
                }
            }
            params.append(&mut ps);
            proof {
                assert(params@ =~= layer_params(*self, j + 1));
            }
            j = j + 1;
        }
        params
    }

    /// Resets the gradient of every parameter of every neuron of the
    /// layer, touching no value, no operation record, and no other node.
    #[verifier::loop_isolation(false)]
    pub fn zero_grad(&self, g: &mut Graph)
        requires
            old(g).wf(),
            self.wf(old(g)@),
        ensures
            final(g).wf(),
            final(g)@.len() == old(g)@.len(),
            forall|k: int|
                0 <= k < final(g)@.len() ==> final(g)@[k].data == old(g)@[k].data && final(g)@[k].op == old(g)@[k].op,
            forall|k: int|
                0 <= k < final(g)@.len() && self.is_param(k) ==> final(g)@[k].grad == sc_zero(),
            forall|k: int|
                0 <= k < final(g)@.len() && !self.is_param(k) ==> final(g)@[k].grad == old(g)@[k].grad,
    {
        let n = self.neurons.len();
        let mut j: usize = 0;
        while j < n
            invariant
                j <= n,
                g.wf(),
                g@.len() == old(g)@.len(),
                forall|k: int|
                    0 <= k < g@.len() ==> g@[k].data == old(g)@[k].data && g@[k].op == old(g)@[k].op,
                forall|k: int|
                    0 <= k < g@.len() && has_neuron_param(*self, j as int, k) ==> g@[k].grad
                        == sc_zero(),
                forall|k: int|
                    0 <= k < g@.len() && !has_neuron_param(*self, j as int, k) ==> g@[k].grad
                        == old(g)@[k].grad,
            decreases n - j,
        {
            let ghost gprev = g@;
            proof {
                lemma_neuron_wf_monotone(self.spec_neurons()[j as int], old(g)@, gprev);
            }
            self.neurons[j].zero_grad(g);
            proof {
                let neuron = self.spec_neurons()[j as int];
                assert forall|k: int|
                    0 <= k < g@.len() && has_neuron_param(*self, j + 1, k) implies g@[k].grad
                    == sc_zero() by {
                    if neuron.is_param(k) {
                    } else {
                        assert(has_neuron_param(*self, j as int, k));
                        assert(gprev[k].grad == sc_zero());
                    }
                }
                assert forall|k: int|
                    0 <= k < g@.len() && !has_neuron_param(*self, j + 1, k) implies g@[k].grad
                    == old(g)@[k].grad by {
                    assert(!has_neuron_param(*self, j as int, k));
                    assert(!neuron.is_param(k));
                    assert(g@[k].grad == gprev[k].grad);
                }
            }
            j = j + 1;
        }
    }
}

/// A layer's output formula reads only nodes of the graph prefix the two
/// sequences share, so extending the graph does not change it.
pub proof fn lemma_layer_out_congruent(
    gs1: Seq<ValInner>,
    gs2: Seq<ValInner>,
    l: Layer,
    xd: Seq<Scalar>,
)
    requires
        l.wf(gs1),
        gs1.len() <= gs2.len(),
        forall|k: int| 0 <= k < gs1.len() ==> gs2[k] == gs1[k],
    ensures
        layer_out(gs2, l, xd) == layer_out(gs1, l, xd),
{
    assert forall|j: int| 0 <= j < l.nout() implies l.spec_neurons()[j].out(gs2, xd)
        == l.spec_neurons()[j].out(gs1, xd) by {
        lemma_out_congruent(gs1, gs2, l.spec_neurons()[j], xd);
    }
    assert(layer_out(gs2, l, xd) =~= layer_out(gs1, l, xd));
}

/// A layer whose parameters point into a graph still points into any
/// extension of it.
pub proof fn lemma_layer_wf_monotone(l: Layer, gs1: Seq<ValInner>, gs2: Seq<ValInner>)
    requires
        l.wf(gs1),
        gs1.len() <= gs2.len(),
    ensures
        l.wf(gs2),
{
    assert forall|j: int|
        0 <= j < l.spec_neurons().len() implies (#[trigger] l.spec_neurons()[j]).wf(gs2)
        && l.spec_neurons()[j].nin() == l.nin() by {
        lemma_neuron_wf_monotone(l.spec_neurons()[j], gs1, gs2);
    }
}

/// A multilayer perceptron: layers evaluated in order, each layer's
/// neuron count matching the next layer's input arity.
pub struct MLP {
    layers: Vec<Layer>,
}

/// What the first `i` layers compute on input values `xd`: the input
/// threaded through them in order.
pub open spec fn mlp_out(gs: Seq<ValInner>, layers: Seq<Layer>, xd: Seq<Scalar>, i: int) -> Seq<
    Scalar,
>
    decreases i,
{
    if i <= 0 {
        xd
    } else {
        layer_out(gs, layers[i - 1], mlp_out(gs, layers, xd, i - 1))
    }
}

/// Whether node `k` is a parameter of one of the first `upto` layers.
pub open spec fn has_layer_param(m: MLP, upto: int, k: int) -> bool {
    exists|l: int| 0 <= l < upto && (#[trigger] m.spec_layers()[l]).is_param(k)
}

/// The parameter handles of the first `i` layers, in layer order.
pub open spec fn mlp_params(layers: Seq<Layer>, i: int) -> Seq<Val>
    decreases i,
{
    if i <= 0 {
        Seq::empty()
    } else {
        mlp_params(layers, i - 1) + layer_params(layers[i - 1], layers[i - 1].nout() as int)
    }
}

/// The number of parameters of the first `i` layers.
pub open spec fn mlp_param_len(layers: Seq<Layer>, i: int) -> int
    decreases i,
{
    if i <= 0 {
        0
    } else {
        mlp_param_len(layers, i - 1) + layer_param_len(layers[i - 1], layers[i - 1].nout() as int)
    }
}

/// The number of parameter nodes an MLP built over the layer-size
/// sequence `sizes` owns: for each adjacent pair, one weight per input
/// plus one bias, for each neuron of the later size.
pub open spec fn mlp_param_count(sizes: Seq<usize>, i: int) -> int
    decreases i,
{
    if i <= 0 {
        0
    } else {
        mlp_param_count(sizes, i - 1) + (sizes[i - 1] + 1) * sizes[i]
    }
}

impl MLP {
    /// The network's layers.
    pub closed spec fn spec_layers(self) -> Seq<Layer> {
        self.layers@
    }

    /// Every layer points into the graph, and each layer's neuron count
    /// matches the next layer's input arity.
    pub open spec fn wf(self, gs: Seq<ValInner>) -> bool {
        &&& forall|l: int|
            0 <= l < self.spec_layers().len() ==> (#[trigger] self.spec_layers()[l]).wf(gs)
        &&& forall|l: int|
            1 <= l < self.spec_layers().len() && (#[trigger] self.spec_layers()[l]).nout() > 0
                ==> self.spec_layers()[l].nin() == self.spec_layers()[l - 1].nout()
    }

    /// Whether node `k` is a parameter of one of the network's layers.
    pub open spec fn is_param(self, k: int) -> bool {
        has_layer_param(self, self.spec_layers().len() as int, k)
    }

    /// Creates a network over the layer-size sequence `sizes`: one layer
    /// per adjacent pair of sizes, so layer `l` holds `sizes[l + 1]`
    /// neurons of input arity `sizes[l]`. All parameters are fresh leaves
    /// holding independent random values in [-1, 1] with gradient zero.
    #[verifier::loop_isolation(false)]
    pub fn new(g: &mut Graph, sizes: &Vec<usize>) -> (r: MLP)
        requires
            old(g).wf(),
            forall|i: int| 0 <= i < sizes@.len() - 1 ==> sizes@[i] >= 1,
        ensures
            final(g).wf(),
            forall|k: int| 0 <= k < old(g)@.len() ==> final(g)@[k] == old(g)@[k],
            forall|k: int|
                old(g)@.len() <= k < final(g)@.len() ==> unit_leaf(#[trigger] final(g)@[k]),
            r.spec_layers().len() == (if sizes@.len() == 0 {
                0int
            } else {
                sizes@.len() - 1
            }),
            forall|l: int|
                0 <= l < r.spec_layers().len() ==> (#[trigger] r.spec_layers()[l]).nout()
                    == sizes@[l + 1] && (forall|j: int|
                    0 <= j < r.spec_layers()[l].nout()
                        ==> (#[trigger] r.spec_layers()[l].spec_neurons()[j]).nin() == sizes@[l]),
            final(g)@.len() == old(g)@.len() + mlp_param_count(
                sizes@,
                sizes@.len() as int - 1,
            ),
            r.wf(final(g)@),
    {
        let mut layers: Vec<Layer> = Vec::new();
        let count = sizes.len();
        let mut i: usize = 0;
        while i + 1 < count
            invariant
                i + 1 <= count || i == 0,
                layers@.len() == i,
                g.wf(),
                old(g)@.len() <= g@.len(),
                forall|k: int| 0 <= k < old(g)@.len() ==> g@[k] == old(g)@[k],
                forall|k: int| old(g)@.len() <= k < g@.len() ==> unit_leaf(#[trigger] g@[k]),
                g@.len() == old(g)@.len() + mlp_param_count(sizes@, i as int),
                forall|l: int|
                    0 <= l < i ==> (#[trigger] layers@[l]).nout() == sizes@[l + 1] && (forall|
                        j: int,
                    |
                        0 <= j < layers@[l].nout() ==> (#[trigger] layers@[l].spec_neurons()[j]).nin()
                            == sizes@[l]),
                forall|l: int| 0 <= l < i ==> (#[trigger] layers@[l]).wf(g@),
            decreases count - i,
        {
            let ghost gpre = g@;
            let layer = Layer::new(g, sizes[i], sizes[i + 1]);
            proof {
                assert forall|l: int| 0 <= l < i implies (#[trigger] layers@[l]).wf(g@) by {
                    lemma_layer_wf_monotone(layers@[l], gpre, g@);
                }
                let a = sizes@[i as int] as int;
                let b = sizes@[i as int + 1] as int;
                assert(b * (a + 1) == (a + 1) * b && (a + 1) * b >= 0) by (nonlinear_arith)
                    requires
                        a >= 0,
                        b >= 0,
                ;
            }
            layers.push(layer);
            i = i + 1;
        }
        let r = MLP { layers };
        proof {
            assert forall|l: int|
                1 <= l < r.spec_layers().len() && (#[trigger] r.spec_layers()[l]).nout()
                    > 0 implies r.spec_layers()[l].nin() == r.spec_layers()[l - 1].nout() by {
                assert(r.spec_layers()[l].spec_neurons()[0].nin() == sizes@[l]);
            }
        }
        r
    }

    /// Runs the network: threads the input handles through every layer in
    /// order and returns the final layer's outputs (the input itself when
    /// there is no layer).
    #[verifier::loop_isolation(false)]
    pub fn call(&self, g: &mut Graph, input: &Vec<Val>) -> (r: Vec<Val>)
        requires
            old(g).wf(),
            self.wf(old(g)@),
            self.spec_layers().len() > 0 && self.spec_layers()[0].nout() > 0 ==> input@.len()
                == self.spec_layers()[0].nin(),
            forall|i: int|
                0 <= i < input@.len() ==> (#[trigger] input@[i]).idx < old(g)@.len(),
        ensures
            final(g).wf(),
            old(g)@.len() <= final(g)@.len(),
            forall|k: int| 0 <= k < old(g)@.len() ==> final(g)@[k] == old(g)@[k],
            r@.len() == (if self.spec_layers().len() == 0 {
                input@.len()
            } else {
                self.spec_layers()[self.spec_layers().len() - 1].nout()
            }),
            forall|j: int| 0 <= j < r@.len() ==> (#[trigger] r@[j]).idx < final(g)@.len(),
            datas(final(g)@, r@) == mlp_out(
                old(g)@,
                self.spec_layers(),
                datas(old(g)@, input@),
                self.spec_layers().len() as int,
            ),
    {
        let ghost xd0 = datas(old(g)@, input@);
        let mut cur: Vec<Val> = Vec::new();
        let n_in = input.len();
        let mut t: usize = 0;
        while t < n_in
            invariant
                t <= n_in,
                cur@ =~= input@.take(t as int),
            decreases n_in - t,
        {
            cur.push(input[t]);
            t = t + 1;
        }
        proof {
            assert(cur@ =~= input@);
        }
        let count = self.layers.len();
        let mut l: usize = 0;
        while l < count
            invariant
                l <= count,
                g.wf(),
                old(g)@.len() <= g@.len(),
                forall|k: int| 0 <= k < old(g)@.len() ==> g@[k] == old(g)@[k],
                forall|j: int| 0 <= j < cur@.len() ==> (#[trigger] cur@[j]).idx < g@.len(),
                datas(g@, cur@) == mlp_out(old(g)@, self.spec_layers(), xd0, l as int),
                cur@.len() == (if l == 0 {
                    input@.len()
                } else {
                    self.spec_layers()[l - 1].nout()
                }),
            decreases count - l,
        {
            let ghost gpre = g@;
            let ghost xd_cur = datas(gpre, cur@);
            proof {
                lemma_layer_wf_monotone(self.spec_layers()[l as int], old(g)@, gpre);
                if self.spec_layers()[l as int].nout() > 0 {
                    if l == 0 {
                    } else {
                        assert(self.spec_layers()[l as int].nin() == self.spec_layers()[l as int
                            - 1].nout());
                    }
                }
            }
            let next = self.layers[l].call(g, &cur);
            proof {
                lemma_layer_out_congruent(
                    old(g)@,
                    gpre,
                    self.spec_layers()[l as int],
                    xd_cur,
                );
                assert(datas(g@, next@) =~= layer_out(gpre, self.spec_layers()[l as int], xd_cur));
            }
            cur = next;
            l = l + 1;
        }
        cur
    }

    /// The network's parameter handles: each layer's parameters in layer
    /// order.
    pub fn parameters(&self) -> (r: Vec<Val>)
        ensures
            r@ == mlp_params(self.spec_layers(), self.spec_layers().len() as int),
            r@.len() == mlp_param_len(self.spec_layers(), self.spec_layers().len() as int),
            forall|t: int| 0 <= t < r@.len() ==> self.is_param((#[trigger] r@[t]).idx as int),
    {
        let mut params: Vec<Val> = Vec::new();
        let n = self.layers.len();
        let mut l: usize = 0;
        while l < n
            invariant
                l <= n,
                n == self.spec_layers().len(),
                params@ == mlp_params(self.spec_layers(), l as int),
                params@.len() == mlp_param_len(self.spec_layers(), l as int),
                forall|t: int|
                    0 <= t < params@.len() ==> self.is_param((#[trigger] params@[t]).idx as int),
            decreases n - l,
        {
            let mut ps = self.layers[l].parameters();
            proof {
                assert forall|t: int| 0 <= t < ps@.len() implies self.is_param(
                    (#[trigger] ps@[t]).idx as int,
                ) by {
                    assert(self.spec_layers()[l as int].is_param(ps@[t].idx as int));
                    assert(has_layer_param(
                        *self,
                        self.spec_layers().len() as int,
                        ps@[t].idx as int,
                    ));
                }
            }
            params.append(&mut ps);
            proof {
                assert(params@ =~= mlp_params(self.spec_layers(), l + 1));
            }
            l = l + 1;
        }
        params
    }

    /// Resets the gradient of every parameter of the network, touching no
    /// value, no operation record, and no other node.
    #[verifier::loop_isolation(false)]
    pub fn zero_grad(&self, g: &mut Graph)
        requires
            old(g).wf(),
            self.wf(old(g)@),
        ensures
            final(g).wf(),
            final(g)@.len() == old(g)@.len(),
            forall|k: int|
                0 <= k < final(g)@.len() ==> final(g)@[k].data == old(g)@[k].data
                    && final(g)@[k].op == old(g)@[k].op,
            forall|k: int|
                0 <= k < final(g)@.len() && self.is_param(k) ==> final(g)@[k].grad == sc_zero(),
            forall|k: int|
                0 <= k < final(g)@.len() && !self.is_param(k) ==> final(g)@[k].grad
                    == old(g)@[k].grad,
    {
        let n = self.layers.len();
        let mut l: usize = 0;
        while l < n
            invariant
                l <= n,
                g.wf(),
                g@.len() == old(g)@.len(),
                forall|k: int|
                    0 <= k < g@.len() ==> g@[k].data == old(g)@[k].data && g@[k].op
                        == old(g)@[k].op,
                forall|k: int|
                    0 <= k < g@.len() && has_layer_param(*self, l as int, k) ==> g@[k].grad
                        == sc_zero(),
                forall|k: int|
                    0 <= k < g@.len() && !has_layer_param(*self, l as int, k) ==> g@[k].grad
                        == old(g)@[k].grad,
            decreases n - l,
        {
            let ghost gprev = g@;
            proof {
                lemma_layer_wf_monotone(self.spec_layers()[l as int], old(g)@, gprev);
            }
            self.layers[l].zero_grad(g);
            proof {
                let layer = self.spec_layers()[l as int];
                assert forall|k: int|
                    0 <= k < g@.len() && has_layer_param(*self, l + 1, k) implies g@[k].grad
                    == sc_zero() by {
                    if layer.is_param(k) {
                    } else {
                        assert(has_layer_param(*self, l as int, k));
                        assert(gprev[k].grad == sc_zero());
                    }
                }
                assert forall|k: int|
                    0 <= k < g@.len() && !has_layer_param(*self, l + 1, k) implies g@[k].grad
                    == old(g)@[k].grad by {
                    assert(!has_layer_param(*self, l as int, k));
                    assert(!layer.is_param(k));
                    assert(g@[k].grad == gprev[k].grad);
                }
            }
            l = l + 1;
        }
    }
}

/// The parameter count of a layer of uniform input arity: one weight per
/// input plus one bias, per neuron.
pub proof fn lemma_layer_param_len_uniform(l: Layer, j: int, nin: int)
    requires
        0 <= j <= l.spec_neurons().len(),
        forall|t: int| 0 <= t < l.spec_neurons().len() ==> (#[trigger] l.spec_neurons()[t]).nin() == nin,
    ensures
        layer_param_len(l, j) == j * (nin + 1),
    decreases j,
{
    if j <= 0 {
        assert(0 * (nin + 1) == 0) by (nonlinear_arith);
    } else {
        lemma_layer_param_len_uniform(l, j - 1, nin);
        assert(j * (nin + 1) == (j - 1) * (nin + 1) + (nin + 1)) by (nonlinear_arith);
    }
}

/// The parameter count of a network built over the layer-size sequence
/// `sizes` matches the sum, over adjacent pairs, of the later size times
/// one more than the earlier size.
pub proof fn lemma_mlp_param_count(m: MLP, sizes: Seq<usize>, i: int)
    requires
        m.spec_layers().len() == (if sizes.len() == 0 {
            0int
        } else {
            sizes.len() - 1
        }),
        forall|l: int|
            0 <= l < m.spec_layers().len() ==> (#[trigger] m.spec_layers()[l]).nout() == sizes[l
                + 1] && (forall|j: int|
                0 <= j < m.spec_layers()[l].nout()
                    ==> (#[trigger] m.spec_layers()[l].spec_neurons()[j]).nin() == sizes[l]),
        0 <= i <= m.spec_layers().len(),
    ensures
        mlp_param_len(m.spec_layers(), i) == mlp_param_count(sizes, i),
    decreases i,
{
    if i > 0 {
        lemma_mlp_param_count(m, sizes, i - 1);
        let layer = m.spec_layers()[i - 1];
        lemma_layer_param_len_uniform(layer, layer.nout() as int, sizes[i - 1] as int);
    }
}

} // verus!
