use rustgrad::engine::{Graph, Val};
use rustgrad::loss;
use rustgrad::nn::{Layer, Neuron, MLP};
use rustgrad::scalar::Scalar;

/// For layer sizes [3, 5, 5, 1], evaluation on a 3-element input yields
/// exactly one output, and the parameter list holds exactly
/// (3*5+5) + (5*5+5) + (5*1+1) = 56 handles.
#[test]
fn network_shape_invariant() {
    let mut gr = Graph::new();
    let mlp = MLP::new(&mut gr, &vec![3, 5, 5, 1]);
    let input = vec![
        Val::new(&mut gr, Scalar::from_raw(65536)),
        Val::new(&mut gr, Scalar::from_raw(-32768)),
        Val::new(&mut gr, Scalar::from_raw(4096)),
    ];
    let out = mlp.call(&mut gr, &input);
    assert_eq!(1, out.len());
    let params = mlp.parameters();
    assert_eq!(56, params.len());
}

/// Parameters are initialized to values in [-1, 1], and the gradient reset
/// leaves every parameter's gradient at zero regardless of prior history.
#[test]
fn parameters_initialized_in_unit_range_and_reset() {
    let mut gr = Graph::new();
    let mlp = MLP::new(&mut gr, &vec![2, 3, 1]);
    for p in mlp.parameters() {
        let d = p.data(&gr);
        assert!(d.is_finite());
        let m = d.raw();
        assert!(-65536 <= m && m <= 65536);
        assert_eq!(Scalar::from_int(0), p.grad(&gr));
    }
    // Drive some gradients into the parameters, then reset.
    let input = vec![
        Val::new(&mut gr, Scalar::from_int(1)),
        Val::new(&mut gr, Scalar::from_int(-1)),
    ];
    let out = mlp.call(&mut gr, &input);
    out[0].backward(&mut gr);
    mlp.zero_grad(&mut gr);
    for p in mlp.parameters() {
        assert_eq!(Scalar::from_int(0), p.grad(&gr));
    }
}

/// A single neuron on matching inputs returns a value in [-1, 1]: the
/// activation is the clamped hyperbolic tangent.
#[test]
fn neuron_output_is_squashed() {
    let mut gr = Graph::new();
    let neuron = Neuron::new(&mut gr, 4);
    let input = vec![
        Val::new(&mut gr, Scalar::from_int(1)),
        Val::new(&mut gr, Scalar::from_int(2)),
        Val::new(&mut gr, Scalar::from_int(-1)),
        Val::new(&mut gr, Scalar::from_int(0)),
    ];
    let out = neuron.call(&mut gr, &input);
    let d = out.data(&gr);
    assert!(d.is_finite());
    assert!(-65536 <= d.raw() && d.raw() <= 65536);
    assert_eq!(5, neuron.parameters().len());
}

/// A layer evaluates each neuron on the same input.
#[test]
fn layer_output_counts_neurons() {
    let mut gr = Graph::new();
    let layer = Layer::new(&mut gr, 2, 3);
    let input = vec![
        Val::new(&mut gr, Scalar::from_raw(1000)),
        Val::new(&mut gr, Scalar::from_raw(-1000)),
    ];
    let out = layer.call(&mut gr, &input);
    assert_eq!(3, out.len());
    assert_eq!(9, layer.parameters().len());
}

/// For predictions [0, 0, 1, 1] against identical targets, the loss value
/// is zero and the gradient of every prediction node after the backward
/// pass is zero.
#[test]
fn squared_error_loss_round_trip() {
    let mut gr = Graph::new();
    let values: Vec<i64> = vec![0, 0, 1, 1];
    let pred: Vec<Val> = values
        .iter()
        .map(|v| Val::new(&mut gr, Scalar::from_int(*v)))
        .collect();
    let target: Vec<Val> = values
        .iter()
        .map(|v| Val::new(&mut gr, Scalar::from_int(*v)))
        .collect();
    let l = loss(&mut gr, &pred, &target);
    assert_eq!(Scalar::from_int(0), l.data(&gr));

    l.backward(&mut gr);
    for p in &pred {
        assert_eq!(Scalar::from_int(0), p.grad(&gr));
    }
}

/// The loss of unequal predictions is the exact squared-error sum.
#[test]
fn squared_error_loss_value() {
    let mut gr = Graph::new();
    let pred = vec![
        Val::new(&mut gr, Scalar::from_int(3)),
        Val::new(&mut gr, Scalar::from_int(-1)),
    ];
    let target = vec![
        Val::new(&mut gr, Scalar::from_int(1)),
        Val::new(&mut gr, Scalar::from_int(2)),
    ];
    // (3-1)^2 + (-1-2)^2 = 4 + 9 = 13
    let l = loss(&mut gr, &pred, &target);
    assert_eq!(Scalar::from_int(13), l.data(&gr));
}
