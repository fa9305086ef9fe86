//! Algebraic laws of the matrix layer and the forward pass, proved once
//! and for all shapes.

use vstd::prelude::*;

use crate::activation::Activation;
use crate::layer::{layer_forward, LayerModel};
use crate::matrix::{lemma_row_major_decode, lemma_row_major_index, mat_transpose, MatModel};

verus! {

/// Transposing twice gives back the original matrix, shape and values.
pub proof fn lemma_transpose_involution(a: MatModel)
    requires
        a.wf(),
    ensures
        mat_transpose(mat_transpose(a)) == a,
{
    let rows = a.rows as int;
    let cols = a.cols as int;
    let t = mat_transpose(a);
    let tt = mat_transpose(t);
    assert(t.data.len() == cols * rows);
    assert(tt.data.len() == rows * cols);
    assert forall|n: int| 0 <= n < rows * cols implies #[trigger] tt.data[n] == a.data[n] by {
        assert(cols > 0 && rows > 0) by (nonlinear_arith)
            requires
                0 <= n < rows * cols,
                rows >= 0,
                cols >= 0,
        ;
        let i = n / cols;
        let j = n % cols;
        assert(i * cols + j == n && 0 <= j < cols && 0 <= i) by (nonlinear_arith)
            requires
                i == n / cols,
                j == n % cols,
                cols > 0,
                n >= 0,
        ;
        assert(i < rows) by (nonlinear_arith)
            requires
                n < rows * cols,
                n == i * cols + j,
                0 <= j < cols,
                0 <= i,
        ;
        let m = j * rows + i;
        lemma_row_major_index(j, i, cols, rows);
        lemma_row_major_decode(j, i, rows);
        assert(tt.data[n] == t.entry(n % t.rows as int, n / t.rows as int));
        assert(n % t.rows as int == j && n / t.rows as int == i);
        assert(t.entry(j, i) == t.data[j * t.cols as int + i]);
        assert(j * t.cols as int + i == m);
        assert(t.data[m] == a.entry(m % a.rows as int, m / a.rows as int));
        assert(m % a.rows as int == i && m / a.rows as int == j);
        assert(a.entry(i, j) == a.data[i * cols + j]);
    }
    assert(tt =~= a);
}

/// With the identity activation a forward pass is purely linear: the
/// activation column equals the pre-activation column
/// `weights * input + biases` exactly.
///
/// Chaining two identity layers is the affine composition
/// `(w2 * w1) * x + (w2 * b1 + b2)` only up to fixed-point truncation:
/// the products truncate at different places in the composed and the
/// chained computation, so the two-layer form is not an identity of this
/// algebra (a one-element example: weights of 1e-5 compose to a product
/// that truncates to zero while the chained passes keep 1e-8).  The tests
/// check a literal instance whose values stay exact.
pub proof fn lemma_identity_forward_linear(l: LayerModel, input: MatModel)
    requires
        l.activation == Activation::Identity,
    ensures
        layer_forward(l, input).neurons.data == layer_forward(l, input).zed.data,
{
    let f = layer_forward(l, input);
    assert forall|n: int| 0 <= n < f.neurons.data.len() implies #[trigger] f.neurons.data[n]
        == f.zed.data[n] by {
    }
    assert(f.neurons.data =~= f.zed.data);
}

} // verus!
