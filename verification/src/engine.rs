//! The computation graph and its operators.
//!
//! A [`Graph`] is an arena of nodes. Every operator reads its operand
//! nodes, computes the forward result, and appends one brand-new node that
//! records the operation and the arena indices of its operands, so operand
//! indices always point at strictly earlier nodes and the graph is acyclic
//! by construction. A [`Val`] is a plain handle on a node; two handles, or
//! the two operand slots of one operation, may name the same node — that
//! aliasing is how "using a value twice" is represented.
//!
//! The backward pass ([`Val::backward`]) seeds the root gradient with one
//! and then walks the arena once in descending index order — a reverse
//! topological order of the graph — adding each reached node's chain-rule
//! contribution into its operands' gradients. Gradients only ever
//! accumulate; data and operation records are never touched by it.

use vstd::prelude::*;

use crate::scalar::{
    sc_add, sc_exp, sc_from_int, sc_mul, sc_one, sc_pow, sc_relu, sc_sub, sc_tanh, sc_zero, ONE_RAW,
    Scalar,
};

verus! {

/// The operation that produced a derived node: the operator tag, the arena
/// indices of its operand node(s), and any cached forward intermediate the
/// backward rule needs.
#[derive(Clone, Copy, Debug)]
pub enum Op {
    Add { left: usize, right: usize },
    Mul { left: usize, right: usize },
    Pow { base: usize, exponent: i32 },
    Tanh { val: usize, tanh: Scalar },
    Exp { val: usize, exp: Scalar },
    ReLU { relu: Scalar, prev: usize },
}

/// One node of the computation graph: the forward value, the accumulated
/// gradient, and the operation that produced the node (`None` for a leaf).
#[derive(Clone, Copy, Debug)]
pub struct ValInner {
    pub data: Scalar,
    pub grad: Scalar,
    pub op: Option<Op>,
}

/// A computation graph: an arena of nodes addressed by index.
pub struct Graph {
    nodes: Vec<ValInner>,
}

/// A handle on one node of a [`Graph`]. Copying a handle shares the node.
#[derive(Clone, Copy, Debug, PartialEq, Eq, Structural)]
pub struct Val {
    pub idx: usize,
}

/// The operand indices of `op` all lie below `i`.
pub open spec fn op_wf(op: Op, i: int) -> bool {
    match op {
        Op::Add { left, right } => left < i && right < i,
        Op::Mul { left, right } => left < i && right < i,
        Op::Pow { base, exponent } => base < i,
        Op::Tanh { val, tanh } => val < i,
        Op::Exp { val, exp } => val < i,
        Op::ReLU { relu, prev } => prev < i,
    }
}

/// A node at position `i` refers only to strictly earlier nodes.
pub open spec fn node_wf(n: ValInner, i: int) -> bool {
    n.op matches Some(op) ==> op_wf(op, i)
}

/// A leaf node holding `data`: gradient zero, no producing operation.
pub open spec fn leaf_node(data: Scalar) -> ValInner {
    ValInner { data, grad: sc_zero(), op: None }
}

/// The node appended by addition of nodes `l` and `r` of `g`.
pub open spec fn add_node(g: Seq<ValInner>, l: int, r: int) -> ValInner {
    ValInner {
        data: sc_add(g[l].data, g[r].data),
        grad: sc_zero(),
        op: Some(Op::Add { left: l as usize, right: r as usize }),
    }
}

/// The node appended by multiplication of nodes `l` and `r` of `g`.
pub open spec fn mul_node(g: Seq<ValInner>, l: int, r: int) -> ValInner {
    ValInner {
        data: sc_mul(g[l].data, g[r].data),
        grad: sc_zero(),
        op: Some(Op::Mul { left: l as usize, right: r as usize }),
    }
}

/// The node appended by raising node `b` of `g` to the constant power `e`.
pub open spec fn pow_node(g: Seq<ValInner>, b: int, e: int) -> ValInner {
    ValInner {
        data: sc_pow(g[b].data, e),
        grad: sc_zero(),
        op: Some(Op::Pow { base: b as usize, exponent: e as i32 }),
    }
}

/// The node appended by the hyperbolic tangent of node `x` of `g`; the
/// forward result is cached in the operation record for the backward rule.
pub open spec fn tanh_node(g: Seq<ValInner>, x: int) -> ValInner {
    ValInner {
        data: sc_tanh(g[x].data),
        grad: sc_zero(),
        op: Some(Op::Tanh { val: x as usize, tanh: sc_tanh(g[x].data) }),
    }
}

/// The node appended by the exponential of node `x` of `g`; the forward
/// result is cached in the operation record for the backward rule.
pub open spec fn exp_node(g: Seq<ValInner>, x: int) -> ValInner {
    ValInner {
        data: sc_exp(g[x].data),
        grad: sc_zero(),
        op: Some(Op::Exp { val: x as usize, exp: sc_exp(g[x].data) }),
    }
}

/// The node appended by the rectification of node `x` of `g`; the forward
/// result is cached in the operation record for the backward rule.
pub open spec fn relu_node(g: Seq<ValInner>, x: int) -> ValInner {
    ValInner {
        data: sc_relu(g[x].data),
        grad: sc_zero(),
        op: Some(Op::ReLU { relu: sc_relu(g[x].data), prev: x as usize }),
    }
}

/// The two nodes appended by negation of node `x`: a constant leaf for
/// minus one, then the product of `x` with it.
pub open spec fn neg_nodes(g: Seq<ValInner>, x: int) -> Seq<ValInner> {
    let g1 = g.push(leaf_node(sc_from_int(-1)));
    g1.push(mul_node(g1, x, g.len() as int))
}

/// The three nodes appended by subtraction of node `y` from node `x`: the
/// negation of `y`, then the sum of `x` with it.
pub open spec fn sub_nodes(g: Seq<ValInner>, x: int, y: int) -> Seq<ValInner> {
    let g1 = neg_nodes(g, y);
    g1.push(add_node(g1, x, g.len() + 1int))
}

/// The two nodes appended by division of node `x` by node `y`: the
/// reciprocal of `y` as a power by minus one, then the product of `x`
/// with it.
pub open spec fn div_nodes(g: Seq<ValInner>, x: int, y: int) -> Seq<ValInner> {
    let g1 = g.push(pow_node(g, y, -1));
    g1.push(mul_node(g1, x, g.len() as int))
}

/// `n` with its gradient replaced by `grd`.
pub open spec fn with_grad(n: ValInner, grd: Scalar) -> ValInner {
    ValInner { data: n.data, grad: grd, op: n.op }
}

/// Adds the contribution `c` into the gradient of node `k`.
pub open spec fn bump(g: Seq<ValInner>, k: int, c: Scalar) -> Seq<ValInner> {
    g.update(k, with_grad(g[k], sc_add(g[k].grad, c)))
}

/// The chain-rule contributions of node `j` into its operands' gradients:
/// each operand's local partial derivative times `j`'s own gradient is
/// added into that operand's gradient. When both operand slots of an
/// addition or multiplication name the same node, both contributions are
/// still added — for the product of a node with itself the local
/// derivative is twice the operand's value.
pub open spec fn apply_op(g: Seq<ValInner>, op: Op, gj: Scalar) -> Seq<ValInner> {
    match op {
        Op::Add { left, right } => if left == right {
            bump(bump(g, left as int, gj), left as int, gj)
        } else {
            bump(bump(g, left as int, gj), right as int, gj)
        },
        Op::Mul { left, right } => if left == right {
            bump(
                g,
                left as int,
                sc_mul(sc_mul(sc_from_int(2), g[left as int].data), gj),
            )
        } else {
            bump(
                bump(g, left as int, sc_mul(g[right as int].data, gj)),
                right as int,
                sc_mul(g[left as int].data, gj),
            )
        },
        Op::Pow { base, exponent } => bump(
            g,
            base as int,
            sc_mul(
                sc_mul(
                    sc_from_int(exponent as int),
                    sc_pow(g[base as int].data, exponent as int - 1),
                ),
                gj,
            ),
        ),
        Op::Tanh { val, tanh } => bump(
            g,
            val as int,
            sc_mul(sc_sub(sc_one(), sc_mul(tanh, tanh)), gj),
        ),
        Op::Exp { val, exp } => bump(g, val as int, sc_mul(exp, gj)),
        Op::ReLU { relu, prev } => bump(
            g,
            prev as int,
            if relu is Finite && relu->m > 0 {
                gj
            } else {
                sc_zero()
            },
        ),
    }
}

/// The chain-rule contributions of node `j` into its operands' gradients.
pub open spec fn step_grads(g: Seq<ValInner>, j: int) -> Seq<ValInner> {
    match g[j].op {
        None => g,
        Some(op) => apply_op(g, op, g[j].grad),
    }
}

/// Marks the operands of `op` as reachable.
pub open spec fn op_marks(m: Seq<bool>, op: Op) -> Seq<bool> {
    match op {
        Op::Add { left, right } => m.update(left as int, true).update(right as int, true),
        Op::Mul { left, right } => m.update(left as int, true).update(right as int, true),
        Op::Pow { base, exponent } => m.update(base as int, true),
        Op::Tanh { val, tanh } => m.update(val as int, true),
        Op::Exp { val, exp } => m.update(val as int, true),
        Op::ReLU { relu, prev } => m.update(prev as int, true),
    }
}

/// Marks the operands of node `j` as reachable, if it has any.
pub open spec fn step_marks(g: Seq<ValInner>, m: Seq<bool>, j: int) -> Seq<bool> {
    match g[j].op {
        None => m,
        Some(op) => op_marks(m, op),
    }
}

/// One backward sweep over nodes `j` down to `0`: where a node is marked
/// reachable from the root, its contributions are added into its operands'
/// gradients and the operands are marked in turn. Since operands always
/// lie at strictly smaller indices, descending index order visits every
/// node only after all its consumers have contributed.
pub open spec fn sweep(g: Seq<ValInner>, m: Seq<bool>, j: int) -> (Seq<ValInner>, Seq<bool>)
    decreases j + 1,
{
    if j < 0 {
        (g, m)
    } else {
        let g2 = if m[j] { step_grads(g, j) } else { g };
        let m2 = if m[j] { step_marks(g, m, j) } else { m };
        sweep(g2, m2, j - 1)
    }
}

/// The root's gradient overwritten with one: the seed of the backward pass.
pub open spec fn seed_root(g: Seq<ValInner>, root: int) -> Seq<ValInner> {
    g.update(root, with_grad(g[root], sc_one()))
}

/// The initial reachability marks: only the root is marked.
pub open spec fn init_marks(root: int) -> Seq<bool> {
    Seq::new((root + 1) as nat, |i: int| i == root)
}

/// The whole backward pass as a function of the node sequence: seed the
/// root's gradient with one, then sweep from the root down to node zero.
pub open spec fn backward_model(g: Seq<ValInner>, root: int) -> Seq<ValInner> {
    sweep(seed_root(g, root), init_marks(root), root).0
}

impl View for Graph {
    type V = Seq<ValInner>;

    closed spec fn view(&self) -> Seq<ValInner> {
        self.nodes@
    }
}

impl Graph {
    /// Every node of the graph refers only to strictly earlier nodes.
    pub open spec fn wf(&self) -> bool {
        forall|i: int| 0 <= i < self@.len() ==> node_wf(self@[i], i)
    }

    /// An empty graph.
    pub fn new() -> (g: Graph)
        ensures
            g@ =~= Seq::<ValInner>::empty(),
            g.wf(),
    {
        Graph { nodes: Vec::new() }
    }

    /// The number of nodes in the graph.
    pub fn len(&self) -> (n: usize)
        ensures
            n == self@.len(),
    {
        self.nodes.len()
    }

    /// Appends a node, keeping the graph well formed.
    fn push_node(&mut self, n: ValInner) -> (v: Val)
        requires
            old(self).wf(),
            node_wf(n, old(self)@.len() as int),
        ensures
            final(self).wf(),
            final(self)@ =~= old(self)@.push(n),
            v.idx == old(self)@.len(),
    {
        let idx = self.nodes.len();
        self.nodes.push(n);
        proof {
            assert forall|i: int| 0 <= i < self@.len() implies node_wf(self@[i], i) by {
                if i < old(self)@.len() {
                    assert(node_wf(old(self)@[i], i));
                }
            }
        }
        Val { idx }
    }
}

impl Val {
    /// Creates a new leaf node with the given value, gradient zero and no
    /// producing operation, and returns a handle on it.
    pub fn new(g: &mut Graph, data: Scalar) -> (v: Val)
        requires
            old(g).wf(),
        ensures
            final(g).wf(),
            final(g)@ =~= old(g)@.push(leaf_node(data)),
            v.idx == old(g)@.len(),
    {
        g.push_node(ValInner { data, grad: Scalar::from_raw(0), op: None })
    }

    /// The node's current value.
    pub fn data(&self, g: &Graph) -> (r: Scalar)
        requires
            self.idx < g@.len(),
        ensures
            r == g@[self.idx as int].data,
    {
        g.nodes[self.idx].data
    }

    /// The node's accumulated gradient.
    pub fn grad(&self, g: &Graph) -> (r: Scalar)
        requires
            self.idx < g@.len(),
        ensures
            r == g@[self.idx as int].grad,
    {
        g.nodes[self.idx].grad
    }

    /// Adds `delta` to the node's value in place, touching neither its
    /// gradient nor its operation record nor any other node.
    pub fn add_data(&self, g: &mut Graph, delta: Scalar)
        requires
            old(g).wf(),
            self.idx < old(g)@.len(),
        ensures
            final(g).wf(),
            final(g)@.len() == old(g)@.len(),
            final(g)@[self.idx as int] == (ValInner {
                data: sc_add(old(g)@[self.idx as int].data, delta),
                grad: old(g)@[self.idx as int].grad,
                op: old(g)@[self.idx as int].op,
            }),
            forall|k: int|
                0 <= k < final(g)@.len() && k != self.idx as int ==> final(g)@[k] == old(g)@[k],
    {
        let n = g.nodes[self.idx];
        let updated = ValInner { data: n.data.add(delta), grad: n.grad, op: n.op };
        g.nodes.set(self.idx, updated);
        proof {
            assert forall|i: int| 0 <= i < g@.len() implies node_wf(g@[i], i) by {
                assert(node_wf(old(g)@[i], i));
            }
        }
    }

    /// Resets the node's gradient to zero, touching neither its value nor
    /// its operation record nor any other node.
    pub fn zero_grad(&self, g: &mut Graph)
        requires
            old(g).wf(),
            self.idx < old(g)@.len(),
        ensures
            final(g).wf(),
            final(g)@.len() == old(g)@.len(),
            final(g)@[self.idx as int] == (ValInner {
                data: old(g)@[self.idx as int].data,
                grad: sc_zero(),
                op: old(g)@[self.idx as int].op,
            }),
            forall|k: int|
                0 <= k < final(g)@.len() && k != self.idx as int ==> final(g)@[k] == old(g)@[k],
    {
        let n = g.nodes[self.idx];
        let updated = ValInner { data: n.data, grad: Scalar::from_raw(0), op: n.op };
        g.nodes.set(self.idx, updated);
        proof {
            assert forall|i: int| 0 <= i < g@.len() implies node_wf(g@[i], i) by {
                assert(node_wf(old(g)@[i], i));
            }
        }
    }

    /// Addition: appends a node whose value is the sum of the operands'
    /// values; the operands are untouched.
    pub fn add(&self, g: &mut Graph, other: Val) -> (v: Val)
        requires
            old(g).wf(),
            self.idx < old(g)@.len(),
            other.idx < old(g)@.len(),
        ensures
            final(g).wf(),
            final(g)@ =~= old(g)@.push(add_node(old(g)@, self.idx as int, other.idx as int)),
            v.idx == old(g)@.len(),
    {
        let data = self.data(g).add(other.data(g));
        g.push_node(ValInner {
            data,
            grad: Scalar::from_raw(0),
            op: Some(Op::Add { left: self.idx, right: other.idx }),
        })
    }

    /// Multiplication: appends a node whose value is the product of the
    /// operands' values; the operands are untouched.
    pub fn mul(&self, g: &mut Graph, other: Val) -> (v: Val)
        requires
            old(g).wf(),
            self.idx < old(g)@.len(),
            other.idx < old(g)@.len(),
        ensures
            final(g).wf(),
            final(g)@ =~= old(g)@.push(mul_node(old(g)@, self.idx as int, other.idx as int)),
            v.idx == old(g)@.len(),
    {
        let data = self.data(g).mul(other.data(g));
        g.push_node(ValInner {
            data,
            grad: Scalar::from_raw(0),
            op: Some(Op::Mul { left: self.idx, right: other.idx }),
        })
    }

    /// Power by a constant: appends a node whose value is the operand's
    /// value raised to `exponent`; the operand is untouched.
    pub fn pow(&self, g: &mut Graph, exponent: i32) -> (v: Val)
        requires
            old(g).wf(),
            self.idx < old(g)@.len(),
        ensures
            final(g).wf(),
            final(g)@ =~= old(g)@.push(pow_node(old(g)@, self.idx as int, exponent as int)),
            v.idx == old(g)@.len(),
    {
        let data = self.data(g).powi(exponent as i64);
        g.push_node(ValInner {
            data,
            grad: Scalar::from_raw(0),
            op: Some(Op::Pow { base: self.idx, exponent }),
        })
    }

    /// Hyperbolic tangent: appends a node whose value is the hyperbolic
    /// tangent of the operand's value, caching that result for the
    /// backward rule; the operand is untouched.
    pub fn tanh(&self, g: &mut Graph) -> (v: Val)
        requires
            old(g).wf(),
            self.idx < old(g)@.len(),
        ensures
            final(g).wf(),
            final(g)@ =~= old(g)@.push(tanh_node(old(g)@, self.idx as int)),
            v.idx == old(g)@.len(),
    {
        let t = self.data(g).tanh();
        g.push_node(ValInner {
            data: t,
            grad: Scalar::from_raw(0),
            op: Some(Op::Tanh { val: self.idx, tanh: t }),
        })
    }

    /// Exponential: appends a node whose value is the exponential of the
    /// operand's value, caching that result for the backward rule; the
    /// operand is untouched.
    pub fn exp(&self, g: &mut Graph) -> (v: Val)
        requires
            old(g).wf(),
            self.idx < old(g)@.len(),
        ensures
            final(g).wf(),
            final(g)@ =~= old(g)@.push(exp_node(old(g)@, self.idx as int)),
            v.idx == old(g)@.len(),
    {
        let e = self.data(g).exp();
        g.push_node(ValInner {
            data: e,
            grad: Scalar::from_raw(0),
            op: Some(Op::Exp { val: self.idx, exp: e }),
        })
    }

    /// Rectified linear unit: appends a node whose value is the greater of
    /// zero and the operand's value, caching that result for the backward
    /// rule; the operand is untouched.
    pub fn relu(&self, g: &mut Graph) -> (v: Val)
        requires
            old(g).wf(),
            self.idx < old(g)@.len(),
        ensures
            final(g).wf(),
            final(g)@ =~= old(g)@.push(relu_node(old(g)@, self.idx as int)),
            v.idx == old(g)@.len(),
    {
        let r = self.data(g).relu();
        g.push_node(ValInner {
            data: r,
            grad: Scalar::from_raw(0),
            op: Some(Op::ReLU { relu: r, prev: self.idx }),
        })
    }

    /// Negation: multiplication by a fresh constant leaf holding minus one.
    pub fn neg(&self, g: &mut Graph) -> (v: Val)
        requires
            old(g).wf(),
            self.idx < old(g)@.len(),
        ensures
            final(g).wf(),
            final(g)@ =~= neg_nodes(old(g)@, self.idx as int),
            v.idx == old(g)@.len() + 1,
    {
        let minus_one = Val::new(g, Scalar::from_int(-1));
        self.mul(g, minus_one)
    }

    /// Subtraction: addition of the negation of `other`.
    pub fn sub(&self, g: &mut Graph, other: Val) -> (v: Val)
        requires
            old(g).wf(),
            self.idx < old(g)@.len(),
            other.idx < old(g)@.len(),
        ensures
            final(g).wf(),
            final(g)@ =~= sub_nodes(old(g)@, self.idx as int, other.idx as int),
            v.idx == old(g)@.len() + 2,
    {
        let negated = other.neg(g);
        self.add(g, negated)
    }

    /// Division: multiplication by `other` raised to the power minus one.
    pub fn div(&self, g: &mut Graph, other: Val) -> (v: Val)
        requires
            old(g).wf(),
            self.idx < old(g)@.len(),
            other.idx < old(g)@.len(),
        ensures
            final(g).wf(),
            final(g)@ =~= div_nodes(old(g)@, self.idx as int, other.idx as int),
            v.idx == old(g)@.len() + 1,
    {
        let reciprocal = other.pow(g, -1);
        self.mul(g, reciprocal)
    }

    /// The backward pass: overwrites this node's gradient with one, then
    /// propagates gradients to every node reachable from it, in reverse
    /// topological order, adding each reached node's chain-rule
    /// contribution into its operands' gradients. Values and operation
    /// records are never touched, and neither is the gradient of any node
    /// not reachable from this one.
    #[verifier::loop_isolation(false)]
    pub fn backward(&self, g: &mut Graph)
        requires
            old(g).wf(),
            self.idx < old(g)@.len(),
        ensures
            final(g).wf(),
            final(g)@ == backward_model(old(g)@, self.idx as int),
            final(g)@.len() == old(g)@.len(),
            forall|k: int|
                0 <= k < old(g)@.len() ==> final(g)@[k].data == old(g)@[k].data
                    && final(g)@[k].op == old(g)@[k].op,
            forall|k: int|
                0 <= k < old(g)@.len() && !reaches(old(g)@, self.idx as int, k)
                    ==> final(g)@[k].grad == old(g)@[k].grad,
    {
        let root = self.idx;
        let glen = g.nodes.len();
        let seed = g.nodes[root];
        g.nodes.set(
            root,
            ValInner { data: seed.data, grad: Scalar::from_raw(ONE_RAW), op: seed.op },
        );
        let ghost g0 = g@;
        proof {
            assert(g0 =~= seed_root(old(g)@, root as int));
        }
        let mut marks: Vec<bool> = Vec::new();
        let mut t: usize = 0;
        while t < root
            invariant
                t <= root,
                marks@.len() == t,
                forall|i: int| 0 <= i < t ==> marks@[i] == false,
            decreases root - t,
        {
            marks.push(false);
            t = t + 1;
        }
        marks.push(true);
        let ghost m0 = marks@;
        proof {
            assert(m0 =~= init_marks(root as int));
        }
        let mut jj: usize = root + 1;
        while jj > 0
            invariant
                jj <= root + 1,
                g@.len() == old(g)@.len(),
                marks@.len() == root + 1,
                g.wf(),
                sweep(g@, marks@, jj as int - 1) == sweep(g0, m0, root as int),
                forall|k: int|
                    0 <= k < old(g)@.len() ==> g@[k].data == old(g)@[k].data
                        && g@[k].op == old(g)@[k].op,
            decreases jj,
        {
            let j = jj - 1;
            let ghost gpre = g@;
            let ghost mpre = marks@;
            if marks[j] {
                let node = g.nodes[j];
                match node.op {
                    None => {
                        proof {
                            assert(g@ =~= step_grads(gpre, j as int));
                            assert(marks@ =~= step_marks(gpre, mpre, j as int));
                        }
                    },
                    Some(op) => {
                        proof {
                            assert(node_wf(gpre[j as int], j as int));
                            lemma_op_wf_monotone(op, j as int, gpre.len() as int);
                            lemma_op_wf_monotone(op, j as int, mpre.len() as int);
                        }
                        op.backward(node.grad, &mut g.nodes, &mut marks);
                        proof {
                            lemma_apply_op_preserves(gpre, op, node.grad);
                            assert(g@ == step_grads(gpre, j as int));
                            assert(marks@ == step_marks(gpre, mpre, j as int));
                            assert forall|i: int| 0 <= i < g@.len() implies node_wf(
                                g@[i],
                                i,
                            ) by {
                                assert(g@[i].op == gpre[i].op);
                                assert(node_wf(gpre[i], i));
                            }
                        }
                    },
                }
            }
            jj = j;
        }
        proof {
            assert(g@ == sweep(g@, marks@, -1).0);
            assert forall|k: int|
                0 <= k < old(g)@.len() && !reaches(old(g)@, root as int, k) implies g@[k].grad
                == old(g)@[k].grad by {
                lemma_backward_only_touches_reachable(old(g)@, root as int, k);
            }
        }
    }
}

/// Operand indices below a bound stay below any larger bound.
pub proof fn lemma_op_wf_monotone(op: Op, i1: int, i2: int)
    requires
        op_wf(op, i1),
        i1 <= i2,
    ensures
        op_wf(op, i2),
{
}

/// Propagation touches gradients alone: it changes no length, no value
/// and no operation record.
pub proof fn lemma_apply_op_preserves(g: Seq<ValInner>, op: Op, gj: Scalar)
    requires
        op_wf(op, g.len() as int),
    ensures
        apply_op(g, op, gj).len() == g.len(),
        forall|k: int|
            0 <= k < g.len() ==> (#[trigger] apply_op(g, op, gj)[k]).data == g[k].data
                && apply_op(g, op, gj)[k].op == g[k].op,
{
}

impl Op {
    /// One node's backward rule. Given the node's own gradient `own_grad`,
    /// it computes each operand's local partial derivative, multiplies it
    /// by `own_grad` following the chain rule, adds the product into that
    /// operand's gradient, and marks the operand as reachable. When both
    /// operand slots name the same node, both contributions are added.
    pub fn backward(&self, own_grad: Scalar, nodes: &mut Vec<ValInner>, marks: &mut Vec<bool>)
        requires
            op_wf(*self, old(nodes)@.len() as int),
            op_wf(*self, old(marks)@.len() as int),
        ensures
            final(nodes)@ == apply_op(old(nodes)@, *self, own_grad),
            final(marks)@ == op_marks(old(marks)@, *self),
    {
        let gj = own_grad;
        match *self {
            Op::Add { left, right } => {
                if left == right {
                    let ln = nodes[left];
                    let ng = ln.grad.add(gj).add(gj);
                    nodes.set(left, ValInner { data: ln.data, grad: ng, op: ln.op });
                    marks.set(left, true);
                    proof {
                        assert(nodes@ =~= apply_op(old(nodes)@, *self, gj));
                        assert(marks@ =~= op_marks(old(marks)@, *self));
                    }
                } else {
                    let ln = nodes[left];
                    nodes.set(
                        left,
                        ValInner { data: ln.data, grad: ln.grad.add(gj), op: ln.op },
                    );
                    let rn = nodes[right];
                    nodes.set(
                        right,
                        ValInner { data: rn.data, grad: rn.grad.add(gj), op: rn.op },
                    );
                    marks.set(left, true);
                    marks.set(right, true);
                    proof {
                        assert(nodes@ =~= apply_op(old(nodes)@, *self, gj));
                        assert(marks@ =~= op_marks(old(marks)@, *self));
                    }
                }
            },
            Op::Mul { left, right } => {
                if left == right {
                    let ln = nodes[left];
                    let c = Scalar::from_int(2).mul(ln.data).mul(gj);
                    nodes.set(
                        left,
                        ValInner { data: ln.data, grad: ln.grad.add(c), op: ln.op },
                    );
                    marks.set(left, true);
                    proof {
                        assert(nodes@ =~= apply_op(old(nodes)@, *self, gj));
                        assert(marks@ =~= op_marks(old(marks)@, *self));
                    }
                } else {
                    let ln = nodes[left];
                    let rn = nodes[right];
                    let cl = rn.data.mul(gj);
                    let cr = ln.data.mul(gj);
                    nodes.set(
                        left,
                        ValInner { data: ln.data, grad: ln.grad.add(cl), op: ln.op },
                    );
                    let rn2 = nodes[right];
                    nodes.set(
                        right,
                        ValInner { data: rn2.data, grad: rn2.grad.add(cr), op: rn2.op },
                    );
                    marks.set(left, true);
                    marks.set(right, true);
                    proof {
                        assert(nodes@ =~= apply_op(old(nodes)@, *self, gj));
                        assert(marks@ =~= op_marks(old(marks)@, *self));
                    }
                }
            },
            Op::Pow { base, exponent } => {
                let bn = nodes[base];
                let c = Scalar::from_int(exponent as i64).mul(
                    bn.data.powi((exponent as i64) - 1),
                ).mul(gj);
                nodes.set(base, ValInner { data: bn.data, grad: bn.grad.add(c), op: bn.op });
                marks.set(base, true);
                proof {
                    assert(nodes@ =~= apply_op(old(nodes)@, *self, gj));
                    assert(marks@ =~= op_marks(old(marks)@, *self));
                }
            },
            Op::Tanh { val, tanh } => {
                let vn = nodes[val];
                let c = Scalar::from_raw(ONE_RAW).sub(tanh.mul(tanh)).mul(gj);
                nodes.set(val, ValInner { data: vn.data, grad: vn.grad.add(c), op: vn.op });
                marks.set(val, true);
                proof {
                    assert(nodes@ =~= apply_op(old(nodes)@, *self, gj));
                    assert(marks@ =~= op_marks(old(marks)@, *self));
                }
            },
            Op::Exp { val, exp } => {
                let vn = nodes[val];
                let c = exp.mul(gj);
                nodes.set(val, ValInner { data: vn.data, grad: vn.grad.add(c), op: vn.op });
                marks.set(val, true);
                proof {
                    assert(nodes@ =~= apply_op(old(nodes)@, *self, gj));
                    assert(marks@ =~= op_marks(old(marks)@, *self));
                }
            },
            Op::ReLU { relu, prev } => {
                let pn = nodes[prev];
                let c = match relu {
                    Scalar::Finite { m } => if m > 0 {
                        gj
                    } else {
                        Scalar::from_raw(0)
                    },
                    Scalar::NotFinite => Scalar::from_raw(0),
                };
                nodes.set(prev, ValInner { data: pn.data, grad: pn.grad.add(c), op: pn.op });
                marks.set(prev, true);
                proof {
                    assert(nodes@ =~= apply_op(old(nodes)@, *self, gj));
                    assert(marks@ =~= op_marks(old(marks)@, *self));
                }
            },
        }
    }
}

/// Law: dividing node `x` by node `y` appends to the graph exactly the
/// nodes that first raising `y` to the power minus one and then
/// multiplying `x` by the result appends. The two graphs being equal, the
/// forward value of the result and every gradient a later backward pass
/// computes coincide as well, whichever node the pass is started from.
pub proof fn lemma_div_matches_mul_pow(g: Seq<ValInner>, x: int, y: int, root: int)
    requires
        0 <= x < g.len(),
        0 <= y < g.len(),
    ensures
        ({
            let after_pow = g.push(pow_node(g, y, -1));
            let after_mul = after_pow.push(mul_node(after_pow, x, g.len() as int));
            div_nodes(g, x, y) == after_mul && backward_model(div_nodes(g, x, y), root)
                == backward_model(after_mul, root)
        }),
{
}

/// Whether `o` is an operand slot of `op`.
pub open spec fn op_operand(op: Op, o: int) -> bool {
    match op {
        Op::Add { left, right } => o == left || o == right,
        Op::Mul { left, right } => o == left || o == right,
        Op::Pow { base, exponent } => o == base,
        Op::Tanh { val, tanh } => o == val,
        Op::Exp { val, exp } => o == val,
        Op::ReLU { relu, prev } => o == prev,
    }
}

/// Node `k` is reachable from node `j`: they are the same node, or an
/// operand of `j`'s operation reaches `k`.
pub open spec fn reaches(g: Seq<ValInner>, j: int, k: int) -> bool
    decreases j + 1,
{
    if j < 0 {
        false
    } else if j == k {
        true
    } else {
        match (if 0 <= j < g.len() {
            g[j].op
        } else {
            None
        }) {
            None => false,
            Some(op) => match op {
                Op::Add { left, right } => (left < j && reaches(g, left as int, k)) || (right < j
                    && reaches(g, right as int, k)),
                Op::Mul { left, right } => (left < j && reaches(g, left as int, k)) || (right < j
                    && reaches(g, right as int, k)),
                Op::Pow { base, exponent } => base < j && reaches(g, base as int, k),
                Op::Tanh { val, tanh } => val < j && reaches(g, val as int, k),
                Op::Exp { val, exp } => val < j && reaches(g, val as int, k),
                Op::ReLU { relu, prev } => prev < j && reaches(g, prev as int, k),
            },
        }
    }
}

/// Reachability extends through one operand edge: whatever reaches a node
/// also reaches that node's operands.
proof fn lemma_reaches_step(g: Seq<ValInner>, root: int, j: int, o: int)
    requires
        forall|i: int| 0 <= i < g.len() ==> node_wf(#[trigger] g[i], i),
        reaches(g, root, j),
        0 <= j < g.len(),
        g[j].op is Some,
        op_operand(g[j].op->0, o),
    ensures
        reaches(g, root, o),
    decreases root + 1,
{
    assert(node_wf(g[j], j));
    if root == j {
        match g[j].op->0 {
            Op::Add { left, right } => {
                assert(o == left || o == right);
                assert(reaches(g, o, o));
            },
            Op::Mul { left, right } => {
                assert(o == left || o == right);
                assert(reaches(g, o, o));
            },
            Op::Pow { base, exponent } => {
                assert(o == base);
                assert(reaches(g, o, o));
            },
            Op::Tanh { val, tanh } => {
                assert(o == val);
                assert(reaches(g, o, o));
            },
            Op::Exp { val, exp } => {
                assert(o == val);
                assert(reaches(g, o, o));
            },
            Op::ReLU { relu, prev } => {
                assert(o == prev);
                assert(reaches(g, o, o));
            },
        }
    } else {
        match g[root].op->0 {
            Op::Add { left, right } => {
                if left < root && reaches(g, left as int, j) {
                    lemma_reaches_step(g, left as int, j, o);
                } else {
                    lemma_reaches_step(g, right as int, j, o);
                }
            },
            Op::Mul { left, right } => {
                if left < root && reaches(g, left as int, j) {
                    lemma_reaches_step(g, left as int, j, o);
                } else {
                    lemma_reaches_step(g, right as int, j, o);
                }
            },
            Op::Pow { base, exponent } => {
                lemma_reaches_step(g, base as int, j, o);
            },
            Op::Tanh { val, tanh } => {
                lemma_reaches_step(g, val as int, j, o);
            },
            Op::Exp { val, exp } => {
                lemma_reaches_step(g, val as int, j, o);
            },
            Op::ReLU { relu, prev } => {
                lemma_reaches_step(g, prev as int, j, o);
            },
        }
    }
}

/// Propagation adds gradient into operand slots alone: any node that is
/// not an operand of `op` is untouched by it.
proof fn lemma_apply_op_elsewhere(g: Seq<ValInner>, op: Op, gj: Scalar, k: int)
    requires
        op_wf(op, g.len() as int),
        0 <= k < g.len(),
        !op_operand(op, k),
    ensures
        apply_op(g, op, gj)[k] == g[k],
{
    match op {
        Op::Add { left, right } => {},
        Op::Mul { left, right } => {},
        Op::Pow { base, exponent } => {},
        Op::Tanh { val, tanh } => {},
        Op::Exp { val, exp } => {},
        Op::ReLU { relu, prev } => {},
    }
}

/// Marking can only add marks.
proof fn lemma_op_marks_monotone(m: Seq<bool>, op: Op, t: int)
    requires
        op_wf(op, m.len() as int),
        0 <= t < m.len(),
        op_marks(m, op)[t],
        !m[t],
    ensures
        op_operand(op, t),
{
    match op {
        Op::Add { left, right } => {},
        Op::Mul { left, right } => {},
        Op::Pow { base, exponent } => {},
        Op::Tanh { val, tanh } => {},
        Op::Exp { val, exp } => {},
        Op::ReLU { relu, prev } => {},
    }
}

/// Along a sweep whose marks all point at nodes reachable from `root`,
/// the gradient of a node that `root` does not reach is never touched.
proof fn lemma_sweep_preserves_unreached(
    g0: Seq<ValInner>,
    gs: Seq<ValInner>,
    ms: Seq<bool>,
    root: int,
    j: int,
    k: int,
)
    requires
        forall|i: int| 0 <= i < g0.len() ==> node_wf(#[trigger] g0[i], i),
        gs.len() == g0.len(),
        forall|i: int| 0 <= i < gs.len() ==> (#[trigger] gs[i]).op == g0[i].op,
        ms.len() <= gs.len(),
        forall|t: int| 0 <= t < ms.len() && #[trigger] ms[t] ==> reaches(g0, root, t),
        0 <= k < gs.len(),
        !reaches(g0, root, k),
        -1 <= j < ms.len(),
    ensures
        sweep(gs, ms, j).0[k].grad == gs[k].grad,
    decreases j + 1,
{
    if j >= 0 {
        if ms[j] {
            match gs[j].op {
                None => {
                    lemma_sweep_preserves_unreached(g0, gs, ms, root, j - 1, k);
                },
                Some(op) => {
                    assert(node_wf(g0[j], j));
                    lemma_op_wf_monotone(op, j, gs.len() as int);
                    lemma_op_wf_monotone(op, j, ms.len() as int);
                    let g2 = apply_op(gs, op, gs[j].grad);
                    let m2 = op_marks(ms, op);
                    lemma_apply_op_preserves(gs, op, gs[j].grad);
                    assert(!op_operand(op, k)) by {
                        if op_operand(op, k) {
                            lemma_reaches_step(g0, root, j, k);
                        }
                    }
                    lemma_apply_op_elsewhere(gs, op, gs[j].grad, k);
                    assert forall|t: int| 0 <= t < m2.len() && #[trigger] m2[t] implies reaches(
                        g0,
                        root,
                        t,
                    ) by {
                        if !ms[t] {
                            lemma_op_marks_monotone(ms, op, t);
                            lemma_reaches_step(g0, root, j, t);
                        }
                    }
                    lemma_sweep_preserves_unreached(g0, g2, m2, root, j - 1, k);
                },
            }
        } else {
            lemma_sweep_preserves_unreached(g0, gs, ms, root, j - 1, k);
        }
    }
}

/// Law: the backward pass adds gradient only along edges reachable from
/// its root. The gradient of every node the root does not reach — in
/// particular, of every node of a disjoint subgraph sharing the same
/// arena — is left exactly as it was.
pub proof fn lemma_backward_only_touches_reachable(g: Seq<ValInner>, root: int, k: int)
    requires
        forall|i: int| 0 <= i < g.len() ==> node_wf(#[trigger] g[i], i),
        0 <= root < g.len(),
        0 <= k < g.len(),
        !reaches(g, root, k),
    ensures
        backward_model(g, root)[k].grad == g[k].grad,
{
    let seeded = seed_root(g, root);
    let m0 = init_marks(root);
    assert forall|t: int| 0 <= t < m0.len() && #[trigger] m0[t] implies reaches(g, root, t) by {
        assert(t == root);
    }
    lemma_sweep_preserves_unreached(g, seeded, m0, root, root, k);
}

/// Law: the backward pass leaves no residual state behind. Its result is
/// a function of the nodes' values and operation records alone once every
/// gradient reads zero, so after resetting the gradients of an unmodified
/// graph, a second pass from the same root reproduces the first pass's
/// gradients exactly; and two disjoint graphs built alike get identical
/// gradients.
pub proof fn lemma_backward_reproducible(g1: Seq<ValInner>, g2: Seq<ValInner>, root: int)
    requires
        g1.len() == g2.len(),
        forall|k: int|
            0 <= k < g1.len() ==> (#[trigger] g1[k]).data == g2[k].data && g1[k].op == g2[k].op,
        forall|k: int|
            0 <= k < g1.len() ==> (#[trigger] g1[k]).grad == sc_zero() && g2[k].grad
                == sc_zero(),
    ensures
        backward_model(g1, root) == backward_model(g2, root),
{
    assert(g1 =~= g2);
}

} // verus!
