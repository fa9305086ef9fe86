use nn_core::{Activation, Layer, Matrix};

/// Fixed-point units for a real value.
fn fx(x: f64) -> i64 {
    (x * 1_000_000_000.0).round() as i64
}

fn fxv(xs: &[f64]) -> Vec<i64> {
    xs.iter().map(|x| fx(*x)).collect()
}

#[test]
fn test_propagate() {
    let input_n = 3;
    let layer1_n = 5;
    let layer2_n = 3;
    // Layers with random weights and zero biases.
    let mut layer1 = Layer::new(input_n, layer1_n, Activation::Identity);
    let mut layer2 = Layer::new(layer1_n, layer2_n, Activation::Identity);
    let input_mock = Matrix::from_vec(input_n, 1, fxv(&[1.0, 1.0, 1.0]));
    let weights1_mock = Matrix::from_vec(
        layer1_n,
        input_n,
        fxv(&[0.1, 0.2, 0.3, 0.4, 0.5, 0.6, 0.7, 0.8, 0.9, 1.0, 1.1, 1.2, 1.3, 1.4, 1.5]),
    );
    let weights2_mock = Matrix::from_vec(
        layer2_n,
        layer1_n,
        fxv(&[0.1, 0.2, 0.3, 0.4, 0.5, 0.6, 0.7, 0.8, 0.9, 1.0, 1.1, 1.2, 1.3, 1.4, 1.5]),
    );
    let bias1_mock = Matrix::from_vec(layer1_n, 1, fxv(&[0.01, 0.02, 0.03, 0.04, 0.05]));
    let bias2_mock = Matrix::from_vec(layer2_n, 1, fxv(&[0.01, 0.02, 0.03]));

    layer1.fix_bias(bias1_mock);
    layer1.fix_weights(weights1_mock);
    layer2.fix_bias(bias2_mock);
    layer2.fix_weights(weights2_mock);

    layer1.propagate(&input_mock);
    let layer1_neurons = layer1.neurons().clone();
    layer2.propagate(&layer1_neurons);

    println!("Neurons:{:?}", layer2.neurons().data());
    let expected = Matrix::from_vec(3, 1, fxv(&[4.565, 10.65, 16.735]));
    println!("Expected: {:?}", expected.data());
    assert!(expected.equals(layer2.neurons()));
}

#[test]
fn test_backpropagate_output_layer() {
    println!("Back Propagate ---");
    let output_n = 3;
    let input_layer_n = 5;
    // A layer with random weights and zero biases, then fixed fixtures.
    let mut output_layer = Layer::new(input_layer_n, output_n, Activation::Relu);
    let weights_mock = Matrix::from_vec(
        output_n,
        input_layer_n,
        fxv(&[0.1, 0.2, 0.3, 0.4, 0.5, 0.6, 0.7, 0.8, 0.9, 1.0, 1.1, 1.2, 1.3, 1.4, 1.5]),
    );
    let bias_mock = Matrix::from_vec(output_n, 1, fxv(&[0.01, 0.02, 0.03]));

    output_layer.fix_bias(bias_mock);
    output_layer.fix_weights(weights_mock);

    let expected_mock = Matrix::from_vec(output_n, 1, fxv(&[1.0, 1.0, 1.0]));
    let previous_mock = Matrix::from_vec(input_layer_n, 1, fxv(&[0.5, 0.5, 0.5, 0.5, 0.5]));
    output_layer.propagate(&previous_mock);

    println!("{},{},{}", 0 % 3, 1 % 3, 2 % 3);
    let expected_derivatives = Matrix::from_vec(
        3,
        5,
        fxv(&[
            -0.24, -0.24, -0.24, -0.24, -0.24, 1.02, 1.02, 1.02, 1.02, 1.02, 2.28, 2.28, 2.28,
            2.28, 2.28,
        ]),
    );

    let gradient = output_layer.backpropagate_output_layer(
        &expected_mock,
        &previous_mock,
        &|a: i64, b: i64| 2 * (a - b),
    );
    println!("Weight Derivatives:{:?}", gradient.weight.data());
    println!("Expected Derivatives:{:?}", expected_derivatives.data());

    assert!(gradient.weight.equals(&expected_derivatives));
}

#[test]
fn test_backpropagate_hidden_layer() {
    println!("Back Propagate ---");
    let output_n = 3;
    let layer_n = 4;
    let input_layer_n = 2;
    let mut hidden_layer = Layer::new(input_layer_n, layer_n, Activation::Relu);
    let mut output_layer = Layer::new(layer_n, output_n, Activation::Relu);
    let weights_mock = Matrix::from_vec(
        layer_n,
        input_layer_n,
        fxv(&[0.1, 0.2, 0.3, 0.4, 0.5, 0.6, 0.7, 0.8]),
    );
    let bias_mock = Matrix::from_vec(layer_n, 1, fxv(&[0.01, 0.02, 0.03, 0.04]));
    let zed_mock = Matrix::from_vec(layer_n, 1, fxv(&[0.5, -0.1, 0.8, -0.2]));

    hidden_layer.fix_bias(bias_mock);
    hidden_layer.fix_weights(weights_mock);
    hidden_layer.fix_zed(zed_mock);

    let output_weights_mock = Matrix::from_vec(
        output_n,
        layer_n,
        fxv(&[1.1, 1.2, 1.3, 1.4, 1.5, 1.6, 1.7, 1.8, 1.9, 2.0, 2.1, 2.2]),
    );
    let deltas_mock = Matrix::from_vec(output_n, 1, fxv(&[0.9, -0.5, 0.2]));

    output_layer.fix_weights(output_weights_mock);

    let previous_mock = Matrix::from_vec(input_layer_n, 1, fxv(&[1.0, 0.5]));

    println!("{},{},{}", 0 % 3, 1 % 3, 2 % 3);
    let expected_derivatives =
        Matrix::from_vec(4, 2, fxv(&[0.62, 0.31, 0.0, 0.0, 0.74, 0.37, 0.0, 0.0]));

    let gradient = hidden_layer.backpropagate_hidden_layer(
        output_layer.weights(),
        &deltas_mock,
        &previous_mock,
    );

    println!("Weight Derivatives:{:?}", gradient.weight.data());
    println!("Expected Derivatives:{:?}", expected_derivatives.data());

    assert!(gradient.weight.equals(&expected_derivatives));
}
