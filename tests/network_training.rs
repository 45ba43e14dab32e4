use neural::matrix::{Matrix, Scalar, ShapeMismatch};
use neural::network::{Activation, Network};

#[derive(Clone, Copy, Debug, PartialEq)]
struct R(f64);

impl Scalar for R {
    fn zero() -> R {
        R(0.0)
    }
    fn plus(self, other: R) -> R {
        R(self.0 + other.0)
    }
    fn minus(self, other: R) -> R {
        R(self.0 - other.0)
    }
    fn times(self, other: R) -> R {
        R(self.0 * other.0)
    }
}

struct Sigmoid;

impl Activation<R> for Sigmoid {
    fn function(x: R) -> R {
        R(1.0 / (1.0 + (-x.0).exp()))
    }
    fn derivative(x: R) -> R {
        R(x.0 * (1.0 - x.0))
    }
}

struct Linear;

impl Activation<R> for Linear {
    fn function(x: R) -> R {
        x
    }
    fn derivative(_x: R) -> R {
        R(1.0)
    }
}

fn sig(x: f64) -> f64 {
    1.0 / (1.0 + (-x).exp())
}

fn mat(rows: &[&[f64]]) -> Matrix<R> {
    Matrix::from(rows.iter().map(|r| r.iter().map(|&x| R(x)).collect()).collect())
}

fn vals(v: &[f64]) -> Vec<R> {
    v.iter().map(|&x| R(x)).collect()
}

fn xor_network() -> Network<R, Sigmoid> {
    let weights = vec![
        mat(&[&[0.5, -0.4], &[0.9, 0.8], &[-0.7, 0.6]]),
        mat(&[&[0.3, -0.8, 0.6]]),
    ];
    let biases = vec![mat(&[&[0.1], &[-0.2], &[0.3]]), mat(&[&[-0.1]])];
    Network::new(vec![2, 3, 1], weights, biases, Sigmoid, R(0.5)).unwrap()
}

fn xor_data() -> (Vec<Vec<R>>, Vec<Vec<R>>) {
    let inputs = vec![vals(&[0.0, 0.0]), vals(&[0.0, 1.0]), vals(&[1.0, 0.0]), vals(&[1.0, 1.0])];
    let targets = vec![vals(&[0.0]), vals(&[1.0]), vals(&[1.0]), vals(&[0.0])];
    (inputs, targets)
}

fn single(n: &mut Network<R, Sigmoid>, a: f64, b: f64) -> f64 {
    let out = n.feed_forward(vals(&[a, b])).unwrap();
    assert_eq!(out.len(), 1);
    out[0].0
}

#[test]
fn new_network_has_layer_shapes() {
    let n = xor_network();
    assert_eq!(n.weights.len(), 2);
    assert_eq!(n.biases.len(), 2);
    assert_eq!((n.weights[0].rows, n.weights[0].cols), (3, 2));
    assert_eq!((n.weights[1].rows, n.weights[1].cols), (1, 3));
    assert_eq!((n.biases[0].rows, n.biases[0].cols), (3, 1));
    assert_eq!((n.biases[1].rows, n.biases[1].cols), (1, 1));
    assert!(n.data.is_empty());
}

#[test]
fn new_rejects_misshaped_weights() {
    let weights = vec![mat(&[&[0.5, -0.4, 0.1]]), mat(&[&[0.3]])];
    let biases = vec![mat(&[&[0.1]]), mat(&[&[-0.1]])];
    let r = Network::new(vec![2, 1, 1], weights, biases, Sigmoid, R(0.5));
    assert_eq!(
        r.err(),
        Some(ShapeMismatch { left_rows: 1, left_cols: 3, right_rows: 1, right_cols: 2 })
    );
}

#[test]
fn new_rejects_wrong_matrix_count() {
    let weights = vec![mat(&[&[0.5, -0.4]])];
    let biases = vec![mat(&[&[0.1]])];
    let r = Network::new(vec![2, 1, 1], weights, biases, Sigmoid, R(0.5));
    assert!(r.is_err());
}

#[test]
fn feed_forward_matches_manual_composition() {
    let mut n = xor_network();
    let out = single(&mut n, 0.0, 0.0);
    let hidden = [sig(0.1), sig(-0.2), sig(0.3)];
    let expected = sig(0.0 + 0.3 * hidden[0] + -0.8 * hidden[1] + 0.6 * hidden[2] + -0.1);
    assert!((out - expected).abs() < 1e-12);
    assert_eq!(n.data.len(), 3);
    assert_eq!(n.data[0].column_values(), vals(&[0.0, 0.0]));
    assert_eq!((n.data[1].rows, n.data[1].cols), (3, 1));
}

#[test]
fn feed_forward_rejects_wrong_input_length() {
    let mut n = xor_network();
    let r = n.feed_forward(vals(&[1.0, 0.0, 1.0]));
    assert_eq!(r, Err(ShapeMismatch { left_rows: 3, left_cols: 1, right_rows: 2, right_cols: 1 }));
    assert!(n.data.is_empty());
}

#[test]
fn back_propagate_single_step_exact() {
    let mut n = Network::new(vec![1, 1], vec![mat(&[&[0.5]])], vec![mat(&[&[0.0]])], Linear, R(0.5)).unwrap();
    let out = n.feed_forward(vals(&[2.0])).unwrap();
    assert_eq!(out, vals(&[1.0]));
    n.back_propagate(out, vals(&[3.0])).unwrap();
    assert_eq!(n.weights[0].get(0, 0), R(2.5));
    assert_eq!(n.biases[0].get(0, 0), R(1.0));
}

#[test]
fn back_propagate_uses_updated_weights_for_error() {
    let weights = vec![mat(&[&[1.0]]), mat(&[&[2.0]])];
    let biases = vec![mat(&[&[0.0]]), mat(&[&[0.0]])];
    let mut n = Network::new(vec![1, 1, 1], weights, biases, Linear, R(1.0)).unwrap();
    let out = n.feed_forward(vals(&[1.0])).unwrap();
    assert_eq!(out, vals(&[2.0]));
    n.back_propagate(out, vals(&[3.0])).unwrap();
    // last layer: gradient 1, weight 2 + 1 * 1 = 3; error carried back is 3 * 1.
    assert_eq!(n.weights[1].get(0, 0), R(3.0));
    assert_eq!(n.biases[1].get(0, 0), R(1.0));
    // first layer: gradient 3, weight 1 + 3 * 1 = 4.
    assert_eq!(n.weights[0].get(0, 0), R(4.0));
    assert_eq!(n.biases[0].get(0, 0), R(3.0));
}

#[test]
fn back_propagate_rejects_wrong_target_length() {
    let mut n = xor_network();
    let out = n.feed_forward(vals(&[0.0, 1.0])).unwrap();
    let r = n.back_propagate(out, vals(&[1.0, 0.0]));
    assert_eq!(r, Err(ShapeMismatch { left_rows: 2, left_cols: 1, right_rows: 1, right_cols: 1 }));
    assert_eq!(n.weights[1].get(0, 0), R(0.3));
}

#[test]
fn train_learns_xor() {
    let mut n = xor_network();
    let (inputs, targets) = xor_data();
    let mut last = f64::INFINITY;
    for _ in 0..10 {
        n.train(inputs.clone(), targets.clone(), 1000).unwrap();
        let mut mse = 0.0;
        for (x, t) in inputs.iter().zip(targets.iter()) {
            let out = n.feed_forward(x.clone()).unwrap();
            mse += (out[0].0 - t[0].0).powi(2);
        }
        mse /= 4.0;
        assert!(mse < last);
        last = mse;
    }
    assert!(single(&mut n, 0.0, 1.0) > 0.5);
    assert!(single(&mut n, 1.0, 0.0) > 0.5);
    assert!(single(&mut n, 0.0, 0.0) < 0.5);
    assert!(single(&mut n, 1.0, 1.0) < 0.5);
}

#[test]
fn training_is_deterministic() {
    let (inputs, targets) = xor_data();
    let mut a = xor_network();
    let mut b = xor_network();
    a.train(inputs.clone(), targets.clone(), 200).unwrap();
    b.train(inputs, targets, 200).unwrap();
    for (x, y) in [(0.0, 0.0), (0.0, 1.0), (1.0, 0.0), (1.0, 1.0)] {
        assert_eq!(single(&mut a, x, y).to_bits(), single(&mut b, x, y).to_bits());
    }
}

#[test]
fn train_rejects_misshaped_example() {
    let mut n = xor_network();
    let inputs = vec![vals(&[0.0, 1.0]), vals(&[1.0])];
    let targets = vec![vals(&[1.0]), vals(&[1.0])];
    let r = n.train(inputs, targets, 3);
    assert_eq!(r, Err(ShapeMismatch { left_rows: 1, left_cols: 1, right_rows: 2, right_cols: 1 }));
}

#[test]
fn train_with_no_epochs_changes_nothing() {
    let mut n = xor_network();
    let inputs = vec![vals(&[1.0])];
    let targets = vec![vals(&[1.0])];
    assert_eq!(n.train(inputs, targets, 0), Ok(()));
    assert_eq!(n.weights[0].get(0, 0), R(0.5));
}

#[test]
fn add_subtract_dot_multiply_are_elementwise() {
    let a = mat(&[&[1.0, 2.0], &[3.0, 4.0]]);
    let b = mat(&[&[0.5, 4.0], &[-1.0, 2.0]]);
    let sum = a.add(&b).unwrap();
    assert_eq!(sum.data, vec![vals(&[1.5, 6.0]), vals(&[2.0, 6.0])]);
    let diff = a.subtract(&b).unwrap();
    assert_eq!(diff.data, vec![vals(&[0.5, -2.0]), vals(&[4.0, 2.0])]);
    let prod = a.dot_multiply(&b).unwrap();
    assert_eq!(prod.data, vec![vals(&[0.5, 8.0]), vals(&[-3.0, 8.0])]);
}

#[test]
fn add_subtract_dot_multiply_reject_differing_shapes() {
    let a = mat(&[&[1.0, 2.0]]);
    let b = mat(&[&[1.0], &[2.0]]);
    let e = Some(ShapeMismatch { left_rows: 1, left_cols: 2, right_rows: 2, right_cols: 1 });
    assert_eq!(a.add(&b).err(), e);
    assert_eq!(a.subtract(&b).err(), e);
    assert_eq!(a.dot_multiply(&b).err(), e);
}

#[test]
fn scale_multiplies_every_entry() {
    let a = mat(&[&[1.0, -2.0], &[0.5, 4.0]]);
    let r = a.scale(R(0.5));
    assert_eq!(r.data, vec![vals(&[0.5, -1.0]), vals(&[0.25, 2.0])]);
}

#[test]
fn multiply_add_accumulates() {
    assert_eq!(neural::matrix::multiply_add(R(1.0), R(2.0), R(3.0)), R(7.0));
}

#[test]
fn train_reports_first_misfitting_target() {
    let mut n = xor_network();
    let inputs = vec![vals(&[0.0, 1.0]), vals(&[1.0, 1.0]), vals(&[1.0])];
    let targets = vec![vals(&[1.0]), vals(&[0.0, 0.0, 1.0]), vals(&[1.0])];
    let r = n.train(inputs, targets, 2);
    assert_eq!(r, Err(ShapeMismatch { left_rows: 3, left_cols: 1, right_rows: 1, right_cols: 1 }));
}

#[test]
fn back_propagate_rejects_wrong_output_length() {
    let mut n = xor_network();
    n.feed_forward(vals(&[0.0, 1.0])).unwrap();
    let r = n.back_propagate(vals(&[0.5, 0.5]), vals(&[1.0]));
    assert_eq!(r, Err(ShapeMismatch { left_rows: 2, left_cols: 1, right_rows: 1, right_cols: 1 }));
}

#[test]
fn train_with_no_epochs_keeps_cache() {
    let mut n = xor_network();
    n.feed_forward(vals(&[1.0, 0.0])).unwrap();
    let before: Vec<Vec<R>> = n.data.iter().map(|m| m.column_values()).collect();
    let (inputs, targets) = xor_data();
    n.train(inputs, targets, 0).unwrap();
    let after: Vec<Vec<R>> = n.data.iter().map(|m| m.column_values()).collect();
    assert_eq!(before, after);
}

#[test]
fn train_leaves_cache_of_last_example() {
    let mut n = xor_network();
    let (inputs, targets) = xor_data();
    n.train(inputs, targets, 3).unwrap();
    assert_eq!(n.data.len(), 3);
    assert_eq!(n.data[0].column_values(), vals(&[1.0, 1.0]));
    assert_eq!((n.data[2].rows, n.data[2].cols), (1, 1));
}

#[test]
fn training_splits_over_epochs() {
    let (inputs, targets) = xor_data();
    let mut a = xor_network();
    let mut b = xor_network();
    a.train(inputs.clone(), targets.clone(), 3).unwrap();
    a.train(inputs.clone(), targets.clone(), 4).unwrap();
    b.train(inputs, targets, 7).unwrap();
    for i in 0..2 {
        assert_eq!(a.weights[i].data, b.weights[i].data);
        assert_eq!(a.biases[i].data, b.biases[i].data);
    }
    let ca: Vec<Vec<R>> = a.data.iter().map(|m| m.column_values()).collect();
    let cb: Vec<Vec<R>> = b.data.iter().map(|m| m.column_values()).collect();
    assert_eq!(ca, cb);
}
