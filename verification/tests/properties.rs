use nn_core::{Activation, Layer, Matrix, FX_SCALE};

/// Fixed-point units for a real value.
fn fx(x: f64) -> i64 {
    (x * 1_000_000_000.0).round() as i64
}

fn fxv(xs: &[f64]) -> Vec<i64> {
    xs.iter().map(|x| fx(*x)).collect()
}

#[test]
fn test_transpose_involution() {
    let a = Matrix::from_vec(2, 3, fxv(&[1.5, -2.25, 3.0, 0.0, 4.125, -5.5]));
    let tt = a.transpose().transpose();
    assert_eq!(tt.rows(), a.rows());
    assert_eq!(tt.cols(), a.cols());
    assert_eq!(tt.data(), a.data());
}

#[test]
fn test_equals_tolerance() {
    let a = Matrix::from_vec(1, 2, vec![fx(1.0), fx(-2.0)]);
    // One unit (1e-9) apart: still equal.
    let close = Matrix::from_vec(1, 2, vec![fx(1.0) + 1, fx(-2.0) - 1]);
    assert!(a.equals(&close));
    // Two units (2e-9) apart: no longer equal.
    let far = Matrix::from_vec(1, 2, vec![fx(1.0) + 2, fx(-2.0)]);
    assert!(!a.equals(&far));
    // Shape mismatch is never equal.
    let other_shape = Matrix::from_vec(2, 1, vec![fx(1.0), fx(-2.0)]);
    assert!(!a.equals(&other_shape));
}

#[test]
fn test_identity_composition() {
    // Chaining two identity layers equals one layer whose weight is the
    // product of the two weights and whose bias is w2 * b1 + b2.
    let w1 = Matrix::from_vec(
        5,
        3,
        fxv(&[0.1, 0.2, 0.3, 0.4, 0.5, 0.6, 0.7, 0.8, 0.9, 1.0, 1.1, 1.2, 1.3, 1.4, 1.5]),
    );
    let b1 = Matrix::from_vec(5, 1, fxv(&[0.01, 0.02, 0.03, 0.04, 0.05]));
    let w2 = Matrix::from_vec(
        7,
        5,
        fxv(&[
            0.1, 0.2, 0.3, 0.4, 0.5, 0.6, 0.7, 0.8, 0.9, 1.0, 1.1, 1.2, 1.3, 1.4, 1.5, 1.6, 1.7,
            1.8, 1.9, 2.0, 2.1, 2.2, 2.3, 2.4, 2.5, 2.6, 2.7, 2.8, 2.9, 3.0, 3.1, 3.2, 3.3, 3.4,
            3.5,
        ]),
    );
    let b2 = Matrix::from_vec(7, 1, fxv(&[0.07, 0.06, 0.05, 0.04, 0.03, 0.02, 0.01]));
    let input = Matrix::from_vec(3, 1, fxv(&[1.0, 1.0, 1.0]));

    // Path one: two identity layers.
    let mut l1 = Layer::new(3, 5, Activation::Identity);
    l1.fix_weights(w1.clone());
    l1.fix_bias(b1.clone());
    let mut l2 = Layer::new(5, 7, Activation::Identity);
    l2.fix_weights(w2.clone());
    l2.fix_bias(b2.clone());
    l1.propagate(&input);
    let mid = l1.neurons().clone();
    l2.propagate(&mid);

    // Path two: one composed layer.
    let composed_w = w2.multiply(&w1);
    let composed_b = w2.multiply(&b1).add(&b2);
    let mut single = Layer::new(3, 7, Activation::Identity);
    single.fix_weights(composed_w);
    single.fix_bias(composed_b);
    single.propagate(&input);

    assert!(l2.neurons().equals(single.neurons()));
}

#[test]
fn test_sigmoid_values() {
    // sigmoid(0) is exactly one half.
    assert_eq!(Activation::Sigmoid.activate(0), FX_SCALE / 2);
    // Far positive inputs approach one, far negative approach zero.
    let high = Activation::Sigmoid.activate(fx(10.0));
    assert!(high > fx(0.9999));
    assert!(high <= FX_SCALE);
    let low = Activation::Sigmoid.activate(fx(-10.0));
    assert!(low < fx(0.0001));
    assert!(low >= 0);
    // Symmetry: sigmoid(x) + sigmoid(-x) == 1.
    let p = Activation::Sigmoid.activate(fx(1.5));
    let n = Activation::Sigmoid.activate(fx(-1.5));
    assert_eq!(p + n, FX_SCALE);
    // A spot value: sigmoid(1) is about 0.731059.
    let one = Activation::Sigmoid.activate(fx(1.0));
    assert!((one - fx(0.7310586)).abs() < fx(0.00001));
    // The derivative at zero is a quarter.
    assert_eq!(Activation::Sigmoid.derivative(0), FX_SCALE / 4);
}

#[test]
fn test_relu_and_identity() {
    assert_eq!(Activation::Relu.activate(fx(2.5)), fx(2.5));
    assert_eq!(Activation::Relu.activate(fx(-2.5)), 0);
    assert_eq!(Activation::Relu.activate(0), 0);
    assert_eq!(Activation::Relu.derivative(fx(2.5)), FX_SCALE);
    assert_eq!(Activation::Relu.derivative(0), 0);
    assert_eq!(Activation::Relu.derivative(fx(-2.5)), 0);
    assert_eq!(Activation::Identity.activate(fx(-3.25)), fx(-3.25));
    assert_eq!(Activation::Identity.derivative(fx(-3.25)), FX_SCALE);
}

#[test]
fn test_layer_cost() {
    let mut layer = Layer::new(2, 3, Activation::Identity);
    layer.fix_weights(Matrix::from_vec(3, 2, fxv(&[1.0, 0.0, 0.0, 1.0, 1.0, 1.0])));
    let input = Matrix::from_vec(2, 1, fxv(&[0.5, 0.25]));
    layer.propagate(&input);
    // Activations are [0.5, 0.25, 0.75]; against [1, 0, 0.75] the cost is
    // 0.5 * (0.25 + 0.0625 + 0) = 0.15625.
    let expected = Matrix::from_vec(3, 1, fxv(&[1.0, 0.0, 0.75]));
    assert_eq!(layer.cost(&expected), fx(0.15625));
}

#[test]
fn test_hadamard_broadcast() {
    // Broadcasting multiplies element n by column element n % rows.
    let mut a = Matrix::from_vec(3, 2, fxv(&[1.0, 2.0, 3.0, 4.0, 5.0, 6.0]));
    let col = Matrix::from_vec(3, 1, fxv(&[2.0, 10.0, 100.0]));
    a.mut_hadamard_product(&col);
    let expected = Matrix::from_vec(3, 2, fxv(&[2.0, 20.0, 300.0, 8.0, 50.0, 600.0]));
    assert!(a.equals(&expected));
}

#[test]
fn test_hadamard_same_shape() {
    let a = Matrix::from_vec(2, 2, fxv(&[1.0, 2.0, 3.0, 4.0]));
    let b = Matrix::from_vec(2, 2, fxv(&[0.5, -0.5, 2.0, 0.25]));
    let result = a.hadamard_product(&b);
    let expected = Matrix::from_vec(2, 2, fxv(&[0.5, -1.0, 6.0, 1.0]));
    assert!(result.equals(&expected));
}

#[test]
fn test_scalar_product_and_divide() {
    let a = Matrix::from_vec(1, 3, fxv(&[1.0, -2.0, 3.0]));
    let scaled = a.scalar_product(fx(0.5));
    let expected = Matrix::from_vec(1, 3, fxv(&[0.5, -1.0, 1.5]));
    assert!(scaled.equals(&expected));

    let mut b = Matrix::from_vec(1, 3, fxv(&[1.0, -2.0, 3.0]));
    b.mut_scalar_divide(2);
    let halves = Matrix::from_vec(1, 3, fxv(&[0.5, -1.0, 1.5]));
    assert!(b.equals(&halves));
}

#[test]
fn test_sub_assign() {
    let mut a = Matrix::from_vec(2, 1, fxv(&[1.0, 2.0]));
    let b = Matrix::from_vec(2, 1, fxv(&[0.25, -0.25]));
    a.sub_assign(&b);
    let expected = Matrix::from_vec(2, 1, fxv(&[0.75, 2.25]));
    assert!(a.equals(&expected));
}

#[test]
fn test_glorot_initialization_bounded() {
    // The bound is sqrt(sqrt(6) / (n_in + n_out)), about 0.5534 for 3 + 5.
    let m = Matrix::new_random_glorot(3, 5);
    assert_eq!(m.rows(), 3);
    assert_eq!(m.cols(), 5);
    for v in m.data().iter() {
        assert!(v.abs() <= fx(0.554));
    }
}

#[test]
fn test_he_initialization_bounded() {
    // A draw is at most six standard deviations; sigma = sqrt(2/4) here.
    let m = Matrix::new_random_he(4, 6);
    assert_eq!(m.rows(), 4);
    assert_eq!(m.cols(), 6);
    for v in m.data().iter() {
        assert!(v.abs() <= 6 * fx(0.7072));
    }
}

#[test]
fn test_new_random_shape() {
    let m = Matrix::new_random(3, 2);
    assert_eq!(m.rows(), 3);
    assert_eq!(m.cols(), 2);
    assert_eq!(m.data().len(), 6);
}

#[test]
fn test_zero_matrix() {
    let m = Matrix::new(2, 3);
    assert_eq!(m.num_elements(), 6);
    for v in m.data().iter() {
        assert_eq!(*v, 0);
    }
}
