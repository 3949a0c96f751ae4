use rustgrad::engine::{Graph, Val};
use rustgrad::scalar::Scalar;

#[test]
fn test_expression() {
    let mut gr = Graph::new();
    let a = Val::new(&mut gr, Scalar::from_int(2));
    let b = Val::new(&mut gr, Scalar::from_int(2));
    let c = b.add(&mut gr, a);
    let three = Val::new(&mut gr, Scalar::from_int(3));
    let x = c.mul(&mut gr, three);

    x.backward(&mut gr);

    assert_eq!(Scalar::from_int(12), x.data(&gr));
    assert_eq!(Scalar::from_int(1), x.grad(&gr));
    assert_eq!(Scalar::from_int(4), c.data(&gr));
    assert_eq!(Scalar::from_int(3), c.grad(&gr));
    assert_eq!(Scalar::from_int(2), a.data(&gr));
    assert_eq!(Scalar::from_int(3), a.grad(&gr));
    assert_eq!(Scalar::from_int(2), b.data(&gr));
    assert_eq!(Scalar::from_int(3), b.grad(&gr));
}

#[test]
fn test_add_itself() {
    let mut gr = Graph::new();
    let a = Val::new(&mut gr, Scalar::from_int(3));
    let b = a.mul(&mut gr, a);
    let delta = a.data(&gr);
    b.add_data(&mut gr, delta);
    let two = Val::new(&mut gr, Scalar::from_int(2));
    let c = b.sub(&mut gr, two);

    c.backward(&mut gr);

    assert_eq!(Scalar::from_int(12), b.data(&gr));
    assert_eq!(Scalar::from_int(1), b.grad(&gr));
    assert_eq!(Scalar::from_int(6), a.grad(&gr));
    assert_eq!(Scalar::from_int(10), c.data(&gr));
    assert_eq!(Scalar::from_int(1), c.grad(&gr));
}

#[test]
fn test_micrograd_example() {
    let mut gr = Graph::new();
    let a = Val::new(&mut gr, Scalar::from_int(-4));
    let b = Val::new(&mut gr, Scalar::from_int(2));

    // c = a + b
    let c = a.add(&mut gr, b);
    // d = a * b + b^3
    let t1 = a.mul(&mut gr, b);
    let t2 = b.pow(&mut gr, 3);
    let d = t1.add(&mut gr, t2);
    // c += c + 1
    let one = Val::new(&mut gr, Scalar::from_int(1));
    let s1 = c.add(&mut gr, one);
    let delta = s1.data(&gr);
    c.add_data(&mut gr, delta);
    // c += 1 + c + (-a)
    let one2 = Val::new(&mut gr, Scalar::from_int(1));
    let s2 = one2.add(&mut gr, c);
    let na = a.neg(&mut gr);
    let s3 = s2.add(&mut gr, na);
    let delta = s3.data(&gr);
    c.add_data(&mut gr, delta);
    // d += d * 2 + (b + a).relu()
    let two = Val::new(&mut gr, Scalar::from_int(2));
    let m1 = d.mul(&mut gr, two);
    let ba = b.add(&mut gr, a);
    let r1 = ba.relu(&mut gr);
    let s4 = m1.add(&mut gr, r1);
    let delta = s4.data(&gr);
    d.add_data(&mut gr, delta);
    // d += 3 * d + (b - a).relu()
    let three = Val::new(&mut gr, Scalar::from_int(3));
    let m2 = three.mul(&mut gr, d);
    let bma = b.sub(&mut gr, a);
    let r2 = bma.relu(&mut gr);
    let s5 = m2.add(&mut gr, r2);
    let delta = s5.data(&gr);
    d.add_data(&mut gr, delta);
    // e = c - d; f = e^2; g = f / 2 + 10 / f
    let e = c.sub(&mut gr, d);
    let f = e.pow(&mut gr, 2);
    let two2 = Val::new(&mut gr, Scalar::from_int(2));
    let g = f.div(&mut gr, two2);
    let ten = Val::new(&mut gr, Scalar::from_int(10));
    let q = ten.div(&mut gr, f);
    let delta = q.data(&gr);
    g.add_data(&mut gr, delta);

    assert_eq!(24, g.data(&gr).floor());
    g.backward(&mut gr);
}

/// For a fixed graph, each operator's forward output depends on the
/// operands' values alone: building the same expression twice gives the
/// same node values.
#[test]
fn forward_is_deterministic() {
    let mut g1 = Graph::new();
    let mut g2 = Graph::new();
    let a1 = Val::new(&mut g1, Scalar::from_raw(12345));
    let b1 = Val::new(&mut g1, Scalar::from_raw(-777));
    let a2 = Val::new(&mut g2, Scalar::from_raw(12345));
    let b2 = Val::new(&mut g2, Scalar::from_raw(-777));
    let x1 = a1.mul(&mut g1, b1).tanh(&mut g1);
    let x2 = a2.mul(&mut g2, b2).tanh(&mut g2);
    assert_eq!(x1.data(&g1), x2.data(&g2));
    let y1 = a1.exp(&mut g1).div(&mut g1, b1);
    let y2 = a2.exp(&mut g2).div(&mut g2, b2);
    assert_eq!(y1.data(&g1), y2.data(&g2));
}

/// Squaring a value routes two gradient contributions into the same node:
/// after `b = a * a` (value 9) and an in-place `+= a` on `b`'s value
/// (making it 12), the backward pass on `b` must leave `b` with gradient
/// one and `a` with gradient 6, that is twice `a`'s value.
#[test]
fn self_multiplication_aliasing() {
    let mut gr = Graph::new();
    let a = Val::new(&mut gr, Scalar::from_int(3));
    let b = a.mul(&mut gr, a);
    assert_eq!(Scalar::from_int(9), b.data(&gr));
    let delta = a.data(&gr);
    b.add_data(&mut gr, delta);
    assert_eq!(Scalar::from_int(12), b.data(&gr));

    b.backward(&mut gr);

    assert_eq!(Scalar::from_int(1), b.grad(&gr));
    assert_eq!(Scalar::from_int(6), a.grad(&gr));
}

/// Adding a value to itself as both operands of one addition accumulates
/// both unit contributions.
#[test]
fn self_addition_aliasing() {
    let mut gr = Graph::new();
    let a = Val::new(&mut gr, Scalar::from_int(5));
    let b = a.add(&mut gr, a);
    assert_eq!(Scalar::from_int(10), b.data(&gr));
    b.backward(&mut gr);
    assert_eq!(Scalar::from_int(2), a.grad(&gr));
}

/// After a zero-gradient reset, gradients read zero, and a second
/// backward pass on the unmodified graph reproduces the gradients of the
/// first pass.
#[test]
fn gradient_reset_and_reproducibility() {
    let mut gr = Graph::new();
    let a = Val::new(&mut gr, Scalar::from_raw(98304));
    let b = Val::new(&mut gr, Scalar::from_int(-2));
    let x = a.mul(&mut gr, b);
    let y = x.add(&mut gr, a);

    y.backward(&mut gr);
    let ga = a.grad(&gr);
    let gb = b.grad(&gr);
    let gx = x.grad(&gr);
    let gy = y.grad(&gr);

    a.zero_grad(&mut gr);
    b.zero_grad(&mut gr);
    x.zero_grad(&mut gr);
    y.zero_grad(&mut gr);
    assert_eq!(Scalar::from_int(0), a.grad(&gr));
    assert_eq!(Scalar::from_int(0), b.grad(&gr));
    assert_eq!(Scalar::from_int(0), x.grad(&gr));
    assert_eq!(Scalar::from_int(0), y.grad(&gr));

    y.backward(&mut gr);
    assert_eq!(ga, a.grad(&gr));
    assert_eq!(gb, b.grad(&gr));
    assert_eq!(gx, x.grad(&gr));
    assert_eq!(gy, y.grad(&gr));
}

/// `x / y` and `x * y^(-1)` agree in forward value and in the gradients
/// injected into `x` and `y`, for several pairs including negative values.
#[test]
fn div_matches_mul_pow() {
    let pairs: Vec<(i64, i64)> = vec![(3, 2), (-5, 4), (7, -3), (-2, -6), (12, 5)];
    for (xv, yv) in pairs {
        let mut g1 = Graph::new();
        let x1 = Val::new(&mut g1, Scalar::from_int(xv));
        let y1 = Val::new(&mut g1, Scalar::from_int(yv));
        let q1 = x1.div(&mut g1, y1);
        q1.backward(&mut g1);

        let mut g2 = Graph::new();
        let x2 = Val::new(&mut g2, Scalar::from_int(xv));
        let y2 = Val::new(&mut g2, Scalar::from_int(yv));
        let recip = y2.pow(&mut g2, -1);
        let q2 = x2.mul(&mut g2, recip);
        q2.backward(&mut g2);

        assert_eq!(q1.data(&g1), q2.data(&g2));
        assert_eq!(x1.grad(&g1), x2.grad(&g2));
        assert_eq!(y1.grad(&g1), y2.grad(&g2));
    }
}

/// The hyperbolic tangent's backward rule at zero: the local derivative
/// `1 - tanh(0)^2` is exactly one.
#[test]
fn tanh_backward_at_zero() {
    let mut gr = Graph::new();
    let x = Val::new(&mut gr, Scalar::from_int(0));
    let y = x.tanh(&mut gr);
    assert_eq!(Scalar::from_int(0), y.data(&gr));
    y.backward(&mut gr);
    assert_eq!(Scalar::from_int(1), x.grad(&gr));
}

/// The exponential's backward rule at zero: the cached forward result,
/// exactly one, is the local derivative.
#[test]
fn exp_backward_at_zero() {
    let mut gr = Graph::new();
    let x = Val::new(&mut gr, Scalar::from_int(0));
    let y = x.exp(&mut gr);
    assert_eq!(Scalar::from_int(1), y.data(&gr));
    y.backward(&mut gr);
    assert_eq!(Scalar::from_int(1), x.grad(&gr));
}

/// The rectifier's backward rule: gradient one where the forward result
/// is positive, zero where the input was negative.
#[test]
fn relu_backward() {
    let mut gr = Graph::new();
    let x = Val::new(&mut gr, Scalar::from_int(4));
    let y = x.relu(&mut gr);
    assert_eq!(Scalar::from_int(4), y.data(&gr));
    y.backward(&mut gr);
    assert_eq!(Scalar::from_int(1), x.grad(&gr));

    let mut gr2 = Graph::new();
    let x2 = Val::new(&mut gr2, Scalar::from_int(-4));
    let y2 = x2.relu(&mut gr2);
    assert_eq!(Scalar::from_int(0), y2.data(&gr2));
    y2.backward(&mut gr2);
    assert_eq!(Scalar::from_int(0), x2.grad(&gr2));
}

/// Division by zero is absorbed into the non-finite value and propagates.
#[test]
fn division_by_zero_is_not_finite() {
    let mut gr = Graph::new();
    let x = Val::new(&mut gr, Scalar::from_int(1));
    let z = Val::new(&mut gr, Scalar::from_int(0));
    let q = x.div(&mut gr, z);
    assert_eq!(Scalar::NotFinite, q.data(&gr));
    let one = Val::new(&mut gr, Scalar::from_int(1));
    let s = q.add(&mut gr, one);
    assert_eq!(Scalar::NotFinite, s.data(&gr));
}
