use nn_core::Matrix;

/// Fixed-point units for a real value.
fn fx(x: f64) -> i64 {
    (x * 1_000_000_000.0).round() as i64
}

fn fxv(xs: &[f64]) -> Vec<i64> {
    xs.iter().map(|x| fx(*x)).collect()
}

#[test]
fn test_indexes() {
    let mut base_matrix = Matrix::from_vec(2, 3, fxv(&[1.0, 2.0, 3.0, -4.0, 0.0, 5.0]));
    println!("{:?}", base_matrix.data());
    base_matrix.set(0, 1, fx(5.0));
    println!("{:?}", base_matrix.data());
    base_matrix.set(1, 2, fx(-40.0));
    println!("{:?}", base_matrix.data());
    assert_eq!(base_matrix.get(0, 1), fx(5.0));
    assert_eq!(base_matrix.get(1, 2), fx(-40.0));
    assert_eq!(base_matrix.get(0, 0), fx(1.0));
}

#[test]
fn test_mult() {
    let base_matrix = Matrix::from_vec(2, 3, fxv(&[1.0, 2.0, 3.0, -4.0, 0.0, 5.0]));
    let other = Matrix::from_vec(3, 2, fxv(&[2.0, 7.0, -1.0, 0.0, 4.0, 1.0]));
    let expected = Matrix::from_vec(2, 2, fxv(&[12.0, 10.0, 12.0, -23.0]));
    println!("Base: {:?}", base_matrix.data());
    println!("Mult: {:?}", other.data());

    let result = base_matrix.multiply(&other);

    println!("Result: {:?}", result.data());
    assert!(expected.equals(&result));
}

#[test]
#[should_panic]
fn test_invalid_mult() {
    let base_matrix = Matrix::from_vec(1, 3, fxv(&[1.0, 2.0, 3.0]));
    let other = Matrix::from_vec(3, 2, fxv(&[2.0, 7.0, -1.0, 0.0, 4.0, 1.0]));
    let _panic = other.multiply(&base_matrix);
}

#[test]
fn test_transpose() {
    let base_matrix = Matrix::from_vec(
        3,
        4,
        fxv(&[5.0, 8.0, -1.0, 7.0, 0.0, -2.0, 6.0, 1.0, 4.0, 3.0, 9.0, -5.0]),
    );
    let transpose = Matrix::from_vec(
        4,
        3,
        fxv(&[5.0, 0.0, 4.0, 8.0, -2.0, 3.0, -1.0, 6.0, 9.0, 7.0, 1.0, -5.0]),
    );
    println!("Base: {:?}", base_matrix.data());
    let transpose_matrix = base_matrix.transpose();
    println!("Transposed: {:?}", transpose_matrix.data());

    assert!(transpose.equals(&transpose_matrix));
}

#[test]
fn test_add() {
    let base_matrix = Matrix::from_vec(2, 2, fxv(&[1.0, 2.0, 3.0, -4.0]));
    let other = Matrix::from_vec(2, 2, fxv(&[2.0, 7.0, -1.0, 0.0]));
    let expected = Matrix::from_vec(2, 2, fxv(&[3.0, 9.0, 2.0, -4.0]));
    let result = base_matrix.add(&other);
    assert!(expected.equals(&result));
}

#[test]
#[should_panic]
fn test_invalid_add() {
    let base_matrix = Matrix::from_vec(1, 3, fxv(&[1.0, 2.0, 3.0]));
    let other = Matrix::from_vec(3, 2, fxv(&[2.0, 7.0, -1.0, 0.0, 4.0, 1.0]));
    let _panic = other.add(&base_matrix);
}
