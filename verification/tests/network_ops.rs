use std::collections::VecDeque;

use nn_core::{Activation, Gradient, Layer, Matrix, NeuralNetwork};

/// Fixed-point units for a real value.
fn fx(x: f64) -> i64 {
    (x * 1_000_000_000.0).round() as i64
}

fn fxv(xs: &[f64]) -> Vec<i64> {
    xs.iter().map(|x| fx(*x)).collect()
}

#[test]
fn test_train() {
    let mut network = NeuralNetwork::new(2, fx(0.4));
    println!("Adding layers!");
    let hidden_layer1 = Layer::new(784, 56, Activation::Relu);
    let hidden_layer2 = Layer::new(56, 56, Activation::Relu);
    let hidden_layer3 = Layer::new(56, 56, Activation::Relu);
    let output_layer = Layer::new(56, 10, Activation::Relu);
    network.add_layer(hidden_layer1);
    network.add_layer(hidden_layer2);
    network.add_layer(hidden_layer3);
    network.add_layer(output_layer);
    assert_eq!(network.num_layers(), 4);
}

/// A small three-layer identity network with fixed parameters, so that
/// training trajectories are reproducible.
fn build_identity_network(learning_rate: i64) -> NeuralNetwork {
    let mut network = NeuralNetwork::new(3, learning_rate);
    let mut l0 = Layer::new(2, 3, Activation::Identity);
    l0.fix_weights(Matrix::from_vec(3, 2, fxv(&[0.1, 0.2, 0.3, 0.4, 0.5, 0.6])));
    l0.fix_bias(Matrix::from_vec(3, 1, fxv(&[0.01, 0.02, 0.03])));
    let mut l1 = Layer::new(3, 3, Activation::Identity);
    l1.fix_weights(Matrix::from_vec(
        3,
        3,
        fxv(&[0.1, 0.2, 0.3, 0.4, 0.5, 0.6, 0.7, 0.8, 0.9]),
    ));
    l1.fix_bias(Matrix::from_vec(3, 1, fxv(&[0.01, 0.0, -0.01])));
    let mut l2 = Layer::new(3, 2, Activation::Identity);
    l2.fix_weights(Matrix::from_vec(2, 3, fxv(&[0.2, -0.1, 0.4, 0.3, 0.1, -0.2])));
    l2.fix_bias(Matrix::from_vec(2, 1, fxv(&[0.05, -0.05])));
    network.add_layer(l0);
    network.add_layer(l1);
    network.add_layer(l2);
    network
}

#[test]
fn test_train_changes_weights() {
    let mut network = build_identity_network(fx(0.1));
    let before2: Vec<i64> = network.borrow_layer(2).weights().data().clone();
    let before3: Vec<i64> = network.borrow_layer(3).weights().data().clone();

    let input = Matrix::from_vec(2, 1, fxv(&[1.0, -1.0]));
    let expected = Matrix::from_vec(2, 1, fxv(&[0.5, -0.5]));
    network.train(input, expected);

    let after2: Vec<i64> = network.borrow_layer(2).weights().data().clone();
    let after3: Vec<i64> = network.borrow_layer(3).weights().data().clone();
    assert_ne!(before2, after2);
    assert_ne!(before3, after3);
}

#[test]
fn test_batch_accumulation_is_summation() {
    let mut network = build_identity_network(fx(0.1));
    let mut acc: VecDeque<Gradient> = VecDeque::new();
    let input = Matrix::from_vec(2, 1, fxv(&[1.0, -1.0]));
    let expected = Matrix::from_vec(2, 1, fxv(&[0.5, -0.5]));
    for _ in 0..3 {
        network.train_batch(input.clone(), expected.clone(), &mut acc);
    }

    // One sample's gradients from an identical network.
    let mut reference = build_identity_network(fx(0.1));
    let mut one: VecDeque<Gradient> = VecDeque::new();
    reference.train_batch(input.clone(), expected.clone(), &mut one);

    assert_eq!(acc.len(), 2);
    assert_eq!(one.len(), 2);
    for k in 0..2 {
        let tripled_w = one[k].weight.clone().scalar_product(fx(3.0));
        let tripled_d = one[k].delta.clone().scalar_product(fx(3.0));
        assert!(acc[k].weight.equals(&tripled_w));
        assert!(acc[k].delta.equals(&tripled_d));
    }

    // Dividing the accumulator by the batch size recovers the gradient.
    for k in 0..2 {
        let mut avg_w = acc[k].weight.clone();
        avg_w.mut_scalar_divide(3);
        let mut avg_d = acc[k].delta.clone();
        avg_d.mut_scalar_divide(3);
        assert!(avg_w.equals(&one[k].weight));
        assert!(avg_d.equals(&one[k].delta));
    }
}

#[test]
fn test_batch_train_directionally_consistent() {
    // With a vanishingly small learning rate, applying the averaged batch
    // gradient approximates the same number of sequential single-sample
    // steps; this is an approximation, so the comparison is tolerant.
    let lr = fx(0.001);
    let input = Matrix::from_vec(2, 1, fxv(&[1.0, -1.0]));
    let expected = Matrix::from_vec(2, 1, fxv(&[0.5, -0.5]));

    let mut sequential = build_identity_network(lr);
    for _ in 0..3 {
        sequential.train(input.clone(), expected.clone());
    }

    let mut batched = build_identity_network(lr);
    let mut acc: VecDeque<Gradient> = VecDeque::new();
    for _ in 0..3 {
        batched.train_batch(input.clone(), expected.clone(), &mut acc);
    }
    for g in acc.iter_mut() {
        g.weight.mut_scalar_divide(3);
        g.delta.mut_scalar_divide(3);
    }
    // One application of the averaged gradient, repeated three times.
    for _ in 0..3 {
        batched.adjust_parameters(&mut acc);
    }

    let tolerance = fx(0.0001);
    for layer in 2..=3 {
        let a = sequential.borrow_layer(layer).weights().data().clone();
        let b = batched.borrow_layer(layer).weights().data().clone();
        assert_eq!(a.len(), b.len());
        for n in 0..a.len() {
            assert!((a[n] - b[n]).abs() <= tolerance, "layer {} weight {} differs", layer, n);
        }
    }
}

#[test]
fn test_classify_output_shape() {
    let mut network = build_identity_network(fx(0.1));
    let input = Matrix::from_vec(2, 1, fxv(&[1.0, -1.0]));
    let output = network.classify(&input);
    assert_eq!(output.rows(), 2);
    assert_eq!(output.cols(), 1);
}

#[test]
fn test_cost_derivative_mse() {
    assert_eq!(NeuralNetwork::cost_derivative_mse(fx(0.76), fx(1.0)), fx(-0.48));
    assert_eq!(NeuralNetwork::cost_derivative_mse(fx(1.0), fx(1.0)), 0);
    assert_eq!(NeuralNetwork::cost_derivative_mse(fx(2.0), fx(0.5)), fx(3.0));
}
