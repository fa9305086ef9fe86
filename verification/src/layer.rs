//! One dense layer: weights, biases, and the cached pre-activation and
//! activation columns, with forward propagation, cost evaluation, the two
//! backpropagation variants and the gradient-descent update.

use vstd::prelude::*;

use crate::activation::{act_deriv, act_value, Activation};
use crate::fixed::{
    div_trunc, fx_clamp, fx_in_range, fx_mul, fx_div_clamp, fx_scale_down, mul_units, FX_MAX,
    FX_SCALE,
};
use crate::matrix::{
    he_sigma, lemma_row_major_decode, lemma_row_major_index, mat_add, mat_mul, mat_scale,
    mat_sub, mat_zero, MatModel, Matrix, DIM_LIMIT,
};

verus! {

/// The pair produced by one backward pass over one layer: the gradient of
/// the weights, and the per-neuron error column (which is also the gradient
/// of the biases).
pub struct Gradient {
    pub weight: Matrix,
    pub delta: Matrix,
}

impl Gradient {
    /// Both matrices are well-formed and the delta is a column with one row
    /// per weight row.
    pub open spec fn wf(&self) -> bool {
        &&& self.weight.wf()
        &&& self.delta.wf()
        &&& self.delta@.cols == 1
        &&& self.delta@.rows == self.weight@.rows
    }
}

impl Clone for Gradient {
    /// A deep copy with the same models.
    fn clone(&self) -> (result: Self)
        ensures
            result.weight@ == self.weight@,
            result.delta@ == self.delta@,
    {
        Gradient { weight: self.weight.clone(), delta: self.delta.clone() }
    }
}

/// Mathematical model of a layer.
#[verifier::ext_equal]
pub ghost struct LayerModel {
    pub neurons: MatModel,
    pub zed: MatModel,
    pub weights: MatModel,
    pub biases: MatModel,
    pub activation: Activation,
}

impl LayerModel {
    /// Every matrix is well-formed; neurons, pre-activations and biases are
    /// columns with one row per weight row.
    pub open spec fn wf(self) -> bool {
        &&& self.neurons.wf()
        &&& self.zed.wf()
        &&& self.weights.wf()
        &&& self.biases.wf()
        &&& self.neurons.cols == 1
        &&& self.zed.cols == 1
        &&& self.biases.cols == 1
        &&& self.neurons.rows == self.weights.rows
        &&& self.zed.rows == self.weights.rows
        &&& self.biases.rows == self.weights.rows
    }

    /// Number of neurons in this layer.
    pub open spec fn size(self) -> nat {
        self.weights.rows
    }

    /// Width of the input this layer expects.
    pub open spec fn in_dim(self) -> nat {
        self.weights.cols
    }
}

/// One forward pass: the pre-activation column is `weights * input + biases`
/// and the activation column applies the layer's activation elementwise.
pub open spec fn layer_forward(l: LayerModel, input: MatModel) -> LayerModel {
    let zed = mat_add(mat_mul(l.weights, input), l.biases);
    LayerModel {
        zed,
        neurons: MatModel {
            rows: zed.rows,
            cols: zed.cols,
            data: Seq::new(zed.data.len(), |n: int| act_value(l.activation, zed.data[n])),
        },
        ..l
    }
}

/// Half the summed squared error over the first `k` neurons, before the
/// final scaling: the raw sum of `(neuron - expected)^2`.
pub open spec fn cost_sq_prefix(l: LayerModel, expected: MatModel, k: nat) -> int
    decreases k,
{
    if k == 0 {
        0
    } else {
        cost_sq_prefix(l, expected, (k - 1) as nat) + (l.neurons.data[k - 1] - expected.data[k
            - 1]) * (l.neurons.data[k - 1] - expected.data[k - 1])
    }
}

/// The layer's cost against an expected column:
/// `0.5 * sum((neurons - expected)^2)`, truncated back to units and
/// saturated.
pub open spec fn cost_spec(l: LayerModel, expected: MatModel) -> int {
    fx_clamp(div_trunc(cost_sq_prefix(l, expected, l.size()), 2 * (FX_SCALE as int)))
}

/// The back-propagated error reaching neuron `i` of a layer, summed over
/// the first `k` neurons of the next layer: the transpose-product of the
/// next layer's weights with its deltas, without materializing the
/// transpose.
pub open spec fn updot(next_w: MatModel, next_d: MatModel, i: int, k: nat) -> int
    decreases k,
{
    if k == 0 {
        0
    } else {
        updot(next_w, next_d, i, (k - 1) as nat) + next_w.entry(k - 1, i) * next_d.data[k - 1]
    }
}

/// The full back-propagated error for neuron `i`, in units.
pub open spec fn upstream(next_w: MatModel, next_d: MatModel, i: int) -> int {
    fx_clamp(div_trunc(updot(next_w, next_d, i, next_w.rows), FX_SCALE as int))
}

/// Deltas of a hidden layer: the upstream error times the activation
/// derivative at the cached pre-activation.
pub open spec fn hidden_deltas(l: LayerModel, next_w: MatModel, next_d: MatModel) -> Seq<int> {
    Seq::new(
        l.size(),
        |i: int| fx_mul(upstream(next_w, next_d, i), act_deriv(l.activation, l.zed.data[i])),
    )
}

/// The outer-product weight gradient: row `i`, column `j` holds
/// `prev[j] * delta[i]`.
pub open spec fn outer_grad(prev: MatModel, deltas: Seq<int>, rows: nat, cols: nat) -> MatModel {
    MatModel {
        rows,
        cols,
        data: Seq::new(
            rows * cols,
            |n: int| fx_mul(prev.data[n % cols as int], deltas[n / cols as int]),
        ),
    }
}

/// One output-layer error term is correct: some value `cd` that the cost
/// derivative can return on `(neuron, expect)` satisfies
/// `delta == cd * act_deriv(act, zed)` in fixed point.
pub open spec fn output_delta_ok<F: Fn(i64, i64) -> i64>(
    f: &F,
    neuron: int,
    expect: int,
    zed: int,
    act: Activation,
    delta: int,
) -> bool {
    exists|cd: i64|
        #[trigger] call_ensures(*f, (neuron as i64, expect as i64), cd) && delta == fx_mul(
            cd as int,
            act_deriv(act, zed),
        )
}

/// One dense layer of the network.
pub struct Layer {
    neurons: Matrix,
    zed: Matrix,
    weights: Matrix,
    biases: Matrix,
    activation: Activation,
}

impl View for Layer {
    type V = LayerModel;

    closed spec fn view(&self) -> LayerModel {
        LayerModel {
            neurons: self.neurons@,
            zed: self.zed@,
            weights: self.weights@,
            biases: self.biases@,
            activation: self.activation,
        }
    }
}

impl Layer {
    pub open spec fn wf(&self) -> bool {
        self@.wf()
    }

    /// A fresh layer: randomly initialized weights, zero biases and caches.
    pub fn new(prev_layer_neurons: usize, layer_neurons: usize, activation: Activation) -> (result:
        Layer)
        requires
            1 <= layer_neurons <= DIM_LIMIT,
            prev_layer_neurons <= DIM_LIMIT,
            layer_neurons * prev_layer_neurons <= usize::MAX,
        ensures
            result.wf(),
            result@.size() == layer_neurons,
            result@.in_dim() == prev_layer_neurons,
            result@.neurons == mat_zero(layer_neurons as nat, 1),
            result@.zed == mat_zero(layer_neurons as nat, 1),
            result@.biases == mat_zero(layer_neurons as nat, 1),
            result@.activation == activation,
            forall|n: int|
                0 <= n < result@.weights.data.len() ==> -6 * he_sigma(layer_neurons as int)
                    <= #[trigger] result@.weights.data[n] <= 6 * he_sigma(layer_neurons as int),
    {
        Layer {
            neurons: Matrix::new(layer_neurons, 1),
            zed: Matrix::new(layer_neurons, 1),
            weights: Matrix::new_random(layer_neurons, prev_layer_neurons),
            biases: Matrix::new(layer_neurons, 1),
            activation,
        }
    }

    /// Number of neurons in this layer.
    pub fn neuron_qty(&self) -> (r: usize)
        ensures
            r == self@.neurons.rows,
    {
        self.neurons.rows()
    }

    pub fn neurons(&self) -> (r: &Matrix)
        ensures
            r@ == self@.neurons,
    {
        &self.neurons
    }

    pub fn weights(&self) -> (r: &Matrix)
        ensures
            r@ == self@.weights,
    {
        &self.weights
    }

    pub fn zed(&self) -> (r: &Matrix)
        ensures
            r@ == self@.zed,
    {
        &self.zed
    }

    /// Replace the weights with a matrix of the same shape (test fixtures).
    pub fn fix_weights(&mut self, weights: Matrix)
        requires
            old(self).wf(),
            weights.wf(),
            weights@.rows == old(self)@.weights.rows,
            weights@.cols == old(self)@.weights.cols,
        ensures
            final(self).wf(),
            final(self)@ == (LayerModel { weights: weights@, ..old(self)@ }),
    {
        self.weights = weights;
    }

    /// Replace the biases with a column of the same shape (test fixtures).
    pub fn fix_bias(&mut self, biases: Matrix)
        requires
            old(self).wf(),
            biases.wf(),
            biases@.rows == old(self)@.biases.rows,
            biases@.cols == old(self)@.biases.cols,
        ensures
            final(self).wf(),
            final(self)@ == (LayerModel { biases: biases@, ..old(self)@ }),
    {
        self.biases = biases;
    }

    /// Replace the cached pre-activation column (test fixtures).
    pub fn fix_zed(&mut self, zed: Matrix)
        requires
            old(self).wf(),
            zed.wf(),
            zed@.rows == old(self)@.zed.rows,
            zed@.cols == old(self)@.zed.cols,
        ensures
            final(self).wf(),
            final(self)@ == (LayerModel { zed: zed@, ..old(self)@ }),
    {
        self.zed = zed;
    }

    /// Load a column directly into the activation cache.
    pub fn load_input(&mut self, input: Matrix)
        requires
            old(self).wf(),
            input.wf(),
            input@.rows == old(self)@.neurons.rows,
            input@.cols == 1,
        ensures
            final(self).wf(),
            final(self)@ == (LayerModel { neurons: input@, ..old(self)@ }),
    {
        self.neurons = input;
    }

    /// Forward propagation: cache `weights * input + biases` as the
    /// pre-activation column and its elementwise activation as the
    /// activation column.
    pub fn propagate(&mut self, input_neurons: &Matrix)
        requires
            old(self).wf(),
            input_neurons.wf(),
            input_neurons@.rows == old(self)@.in_dim(),
            input_neurons@.cols == 1,
        ensures
            final(self).wf(),
            final(self)@ == layer_forward(old(self)@, input_neurons@),
    {
        let ghost orig = self@;
        let ghost fwd = layer_forward(self@, input_neurons@);
        let dot_product = self.weights.multiply(input_neurons);
        let biased_values = dot_product.add(&self.biases);
        proof {
            assert(biased_values@ == fwd.zed);
            assert(fwd.zed.rows == old(self)@.size());
            assert(fwd.zed.data.len() == fwd.zed.rows * 1) by (nonlinear_arith)
                requires
                    fwd.zed.data.len() == fwd.zed.rows * fwd.zed.cols,
                    fwd.zed.cols == 1,
            ;
        }
        let rows: usize = biased_values.rows();
        let mut i: usize = 0;
        while i < rows
            invariant
                fwd == layer_forward(orig, input_neurons@),
                fwd.zed.cols == 1,
                fwd.neurons.cols == 1,
                self@.weights == orig.weights,
                self@.biases == orig.biases,
                self@.activation == orig.activation,
                self@.zed.rows == rows,
                self@.zed.cols == 1,
                self@.zed.wf(),
                self@.neurons.rows == rows,
                self@.neurons.cols == 1,
                self@.neurons.wf(),
                biased_values.wf(),
                biased_values@ == fwd.zed,
                rows == fwd.zed.rows,
                fwd.zed.data.len() == rows,
                fwd.neurons.data.len() == rows,
                self@.zed.data.len() == rows,
                self@.neurons.data.len() == rows,
                i <= rows,
                forall|k: int| 0 <= k < i ==> #[trigger] self@.zed.data[k] == fwd.zed.data[k],
                forall|k: int|
                    0 <= k < i ==> #[trigger] self@.neurons.data[k] == fwd.neurons.data[k],
            decreases rows - i,
        {
            proof {
                lemma_row_major_index(i as int, 0, rows as int, 1);
            }
            let v: i64 = biased_values.get(i, 0);
            proof {
                assert((i as int) * (biased_values@.cols as int) + 0 == i as int);
                assert(v as int == fwd.zed.data[i as int]);
                assert(fx_in_range(v as int));
            }
            let ghost pre_zed = self@.zed;
            self.zed.set(i, 0, v);
            proof {
                assert(self@.zed.data =~= pre_zed.data.update(i as int, v as int));
            }
            let a: i64 = self.activation.activate(v);
            proof {
                assert(a as int == fwd.neurons.data[i as int]);
            }
            let ghost pre_neu = self@.neurons;
            self.neurons.set(i, 0, a);
            proof {
                assert(self@.neurons.data =~= pre_neu.data.update(i as int, a as int));
            }
            i += 1;
        }
        proof {
            assert(self@.zed =~= fwd.zed);
            assert(self@.neurons =~= fwd.neurons);
            assert(final(self)@ =~= fwd);
        }
    }

    /// Half the summed squared error of the cached activations against an
    /// expected column, in units.
    pub fn cost(&self, expected: &Matrix) -> (r: i64)
        requires
            self.wf(),
            expected.wf(),
            expected@.rows == self@.neurons.rows,
            expected@.cols == 1,
        ensures
            r as int == cost_spec(self@, expected@),
    {
        let rows: usize = self.neurons.rows();
        proof {
            assert(self@.neurons.data.len() == rows && expected@.data.len() == rows)
                by (nonlinear_arith)
                requires
                    self@.neurons.data.len() == self@.neurons.rows * self@.neurons.cols,
                    expected@.data.len() == expected@.rows * expected@.cols,
                    self@.neurons.cols == 1,
                    expected@.cols == 1,
                    self@.neurons.rows == rows,
                    expected@.rows == rows,
            ;
        }
        let mut sum: i128 = 0;
        let mut i: usize = 0;
        while i < rows
            invariant
                self.wf(),
                expected.wf(),
                expected@.rows == self@.neurons.rows,
                expected@.cols == 1,
                rows == self@.neurons.rows,
                rows <= DIM_LIMIT,
                self@.neurons.data.len() == rows,
                expected@.data.len() == rows,
                i <= rows,
                sum as int == cost_sq_prefix(self@, expected@, i as nat),
                0 <= sum as int <= (i as int) * 4 * (FX_MAX as int) * (FX_MAX as int),
            decreases rows - i,
        {
            proof {
                lemma_row_major_index(i as int, 0, rows as int, 1);
            }
            let nv: i64 = self.neurons.get(i, 0);
            let ev: i64 = expected.get(i, 0);
            proof {
                assert(fx_in_range(nv as int));
                assert(fx_in_range(ev as int));
                let d = nv as int - ev as int;
                assert(0 <= d * d <= 4 * (FX_MAX as int) * (FX_MAX as int)) by (nonlinear_arith)
                    requires
                        -2 * (FX_MAX as int) <= d <= 2 * (FX_MAX as int),
                ;
                assert((i as int) * 4 * (FX_MAX as int) * (FX_MAX as int) + 4 * (FX_MAX as int)
                    * (FX_MAX as int) == ((i + 1) as int) * 4 * (FX_MAX as int) * (
                FX_MAX as int)) by (nonlinear_arith);
                assert(((i + 1) as int) * 4 * (FX_MAX as int) * (FX_MAX as int) <= (
                DIM_LIMIT as int) * 4 * (FX_MAX as int) * (FX_MAX as int)) by (nonlinear_arith)
                    requires
                        0 <= (i + 1) as int <= DIM_LIMIT as int,
                ;
            }
            let d: i128 = (nv as i128) - (ev as i128);
            sum = sum + d * d;
            i += 1;
        }
        fx_div_clamp(sum, 2 * (FX_SCALE as i128))
    }
}


/// Build the outer-product weight gradient `prev[j] * delta[i]` as a
/// `rows x cols` matrix.
fn build_outer_grad(prev: &Matrix, deltas: &Matrix, rows: usize, cols: usize) -> (result: Matrix)
    requires
        prev.wf(),
        deltas.wf(),
        prev@.cols == 1,
        prev@.rows == cols,
        deltas@.cols == 1,
        deltas@.rows == rows,
        rows <= DIM_LIMIT,
        cols <= DIM_LIMIT,
        rows * cols <= usize::MAX,
    ensures
        result.wf(),
        result@ == outer_grad(prev@, deltas@.data, rows as nat, cols as nat),
{
    let ghost spec_result = outer_grad(prev@, deltas@.data, rows as nat, cols as nat);
    proof {
        assert(spec_result.data.len() == rows * cols);
    }
    let mut data: Vec<i64> = Vec::new();
    let mut i: usize = 0;
    while i < rows
        invariant
            prev.wf(),
            deltas.wf(),
            prev@.cols == 1,
            prev@.rows == cols,
            deltas@.cols == 1,
            deltas@.rows == rows,
            spec_result == outer_grad(prev@, deltas@.data, rows as nat, cols as nat),
            spec_result.data.len() == rows * cols,
            i <= rows,
            data@.len() == i * cols,
            forall|n: int|
                0 <= n < data@.len() ==> #[trigger] data@[n] as int == spec_result.data[n],
            forall|n: int| 0 <= n < data@.len() ==> fx_in_range(#[trigger] data@[n] as int),
        decreases rows - i,
    {
        let mut j: usize = 0;
        while j < cols
            invariant
                prev.wf(),
                deltas.wf(),
                prev@.cols == 1,
                prev@.rows == cols,
                deltas@.cols == 1,
                deltas@.rows == rows,
                spec_result == outer_grad(prev@, deltas@.data, rows as nat, cols as nat),
                spec_result.data.len() == rows * cols,
                i < rows,
                j <= cols,
                data@.len() == i * cols + j,
                forall|n: int|
                    0 <= n < data@.len() ==> #[trigger] data@[n] as int == spec_result.data[n],
                forall|n: int| 0 <= n < data@.len() ==> fx_in_range(#[trigger] data@[n] as int),
            decreases cols - j,
        {
            proof {
                lemma_row_major_index(i as int, j as int, rows as int, cols as int);
                lemma_row_major_decode(i as int, j as int, cols as int);
                lemma_row_major_index(j as int, 0, cols as int, 1);
                lemma_row_major_index(i as int, 0, rows as int, 1);
            }
            let pv: i64 = prev.get(j, 0);
            let dv: i64 = deltas.get(i, 0);
            proof {
                assert(pv as int == prev@.data[j as int]);
                assert(dv as int == deltas@.data[i as int]);
            }
            let v: i64 = mul_units(pv, dv);
            data.push(v);
            j += 1;
        }
        i += 1;
        proof {
            assert(i * cols == (i - 1) * cols + cols) by (nonlinear_arith);
        }
    }
    let result = Matrix::from_vec(rows, cols, data);
    proof {
        assert(result@ =~= spec_result);
    }
    result
}

impl Layer {
    /// Backpropagation at the output layer.  For each neuron `i` the error
    /// term is `cost_derivative(neurons[i], expected[i])` times the
    /// activation derivative at the cached pre-activation, and the weight
    /// gradient is the outer product of that error column with the previous
    /// layer's activations.
    pub fn backpropagate_output_layer<F: Fn(i64, i64) -> i64>(
        &self,
        expected: &Matrix,
        prev_activations: &Matrix,
        cost_derivative: &F,
    ) -> (g: Gradient)
        requires
            self.wf(),
            expected.wf(),
            prev_activations.wf(),
            expected@.rows == self@.size(),
            expected@.cols == 1,
            prev_activations@.rows == self@.in_dim(),
            prev_activations@.cols == 1,
            forall|x: i64, y: i64|
                fx_in_range(x as int) && fx_in_range(y as int) ==> #[trigger] call_requires(
                    *cost_derivative,
                    (x, y),
                ),
        ensures
            g.wf(),
            g.delta@.rows == self@.size(),
            g.delta@.cols == 1,
            g.weight@.rows == self@.weights.rows,
            g.weight@.cols == self@.weights.cols,
            forall|i: int|
                0 <= i < self@.size() ==> #[trigger] output_delta_ok(
                    cost_derivative,
                    self@.neurons.data[i],
                    expected@.data[i],
                    self@.zed.data[i],
                    self@.activation,
                    g.delta@.data[i],
                ),
            g.weight@ == outer_grad(
                prev_activations@,
                g.delta@.data,
                self@.weights.rows,
                self@.weights.cols,
            ),
    {
        let n_rows: usize = self.neurons.rows();
        proof {
            assert(self@.neurons.data.len() == n_rows && self@.zed.data.len() == n_rows
                && expected@.data.len() == n_rows) by (nonlinear_arith)
                requires
                    self@.neurons.data.len() == self@.neurons.rows * self@.neurons.cols,
                    self@.zed.data.len() == self@.zed.rows * self@.zed.cols,
                    expected@.data.len() == expected@.rows * expected@.cols,
                    self@.neurons.cols == 1,
                    self@.zed.cols == 1,
                    expected@.cols == 1,
                    self@.neurons.rows == n_rows,
                    self@.zed.rows == n_rows,
                    expected@.rows == n_rows,
            ;
        }
        let mut dvec: Vec<i64> = Vec::new();
        let ghost mut cds: Seq<i64> = Seq::empty();
        let mut i: usize = 0;
        while i < n_rows
            invariant
                self.wf(),
                expected.wf(),
                expected@.rows == self@.size(),
                expected@.cols == 1,
                n_rows == self@.size(),
                self@.neurons.data.len() == n_rows,
                self@.zed.data.len() == n_rows,
                expected@.data.len() == n_rows,
                forall|x: i64, y: i64|
                    fx_in_range(x as int) && fx_in_range(y as int) ==> #[trigger] call_requires(
                        *cost_derivative,
                        (x, y),
                    ),
                i <= n_rows,
                dvec@.len() == i,
                cds.len() == i,
                forall|k: int|
                    0 <= k < i ==> call_ensures(
                        *cost_derivative,
                        ((self@.neurons.data[k]) as i64, (expected@.data[k]) as i64),
                        #[trigger] cds[k],
                    ),
                forall|k: int|
                    0 <= k < i ==> #[trigger] dvec@[k] as int == fx_mul(
                        cds[k] as int,
                        act_deriv(self@.activation, self@.zed.data[k]),
                    ),
                forall|k: int| 0 <= k < i ==> fx_in_range(#[trigger] dvec@[k] as int),
            decreases n_rows - i,
        {
            proof {
                lemma_row_major_index(i as int, 0, n_rows as int, 1);
            }
            let zv: i64 = self.zed.get(i, 0);
            let dv: i64 = self.activation.derivative(zv);
            let xv: i64 = self.neurons.get(i, 0);
            let yv: i64 = expected.get(i, 0);
            proof {
                assert(xv as int == self@.neurons.data[i as int]);
                assert(yv as int == expected@.data[i as int]);
                assert(zv as int == self@.zed.data[i as int]);
                assert(fx_in_range(xv as int));
                assert(fx_in_range(yv as int));
            }
            let cd: i64 = cost_derivative(xv, yv);
            let d: i64 = mul_units(cd, dv);
            dvec.push(d);
            proof {
                cds = cds.push(cd);
                assert((self@.neurons.data[i as int]) as i64 == xv);
                assert((expected@.data[i as int]) as i64 == yv);
                assert(cds[i as int] == cd);
                assert(call_ensures(
                    *cost_derivative,
                    ((self@.neurons.data[i as int]) as i64, (expected@.data[i as int]) as i64),
                    cds[i as int],
                ));
                assert(dvec@[i as int] as int == fx_mul(
                    cds[i as int] as int,
                    act_deriv(self@.activation, self@.zed.data[i as int]),
                ));
            }
            i += 1;
        }
        let deltas = Matrix::from_vec(n_rows, 1, dvec);
        proof {
            assert(deltas@.data.len() == n_rows);
            assert(forall|k: int|
                0 <= k < n_rows ==> #[trigger] deltas@.data[k] == dvec@[k] as int);
        }
        let w_rows: usize = self.weights.rows();
        let w_cols: usize = self.weights.cols();
        // Reading the element count bounds rows * cols by usize::MAX.
        let w_total: usize = self.weights.num_elements();
        let weight_derivatives = build_outer_grad(prev_activations, &deltas, w_rows, w_cols);
        let g = Gradient { weight: weight_derivatives, delta: deltas };
        proof {
            assert forall|i: int|
                0 <= i < self@.size() implies #[trigger] output_delta_ok(
                    cost_derivative,
                    self@.neurons.data[i],
                    expected@.data[i],
                    self@.zed.data[i],
                    self@.activation,
                    g.delta@.data[i],
                ) by {
                let w: i64 = cds[i];
                assert(call_ensures(
                    *cost_derivative,
                    ((self@.neurons.data[i]) as i64, (expected@.data[i]) as i64),
                    w,
                ));
                assert(g.delta@.data[i] == fx_mul(
                    w as int,
                    act_deriv(self@.activation, self@.zed.data[i]),
                ));
            }
        }
        g
    }

    /// Backpropagation at a hidden layer.  For each neuron `i` the upstream
    /// error is the transpose-product of the next layer's weights with its
    /// deltas; the error term multiplies it by the activation derivative at
    /// the cached pre-activation, and the weight gradient is the outer
    /// product with the previous layer's activations.
    pub fn backpropagate_hidden_layer(
        &self,
        next_layer_weights: &Matrix,
        next_layer_deltas: &Matrix,
        prev_activations: &Matrix,
    ) -> (g: Gradient)
        requires
            self.wf(),
            next_layer_weights.wf(),
            next_layer_deltas.wf(),
            prev_activations.wf(),
            next_layer_weights@.cols == self@.size(),
            next_layer_deltas@.rows == next_layer_weights@.rows,
            next_layer_deltas@.cols == 1,
            prev_activations@.rows == self@.in_dim(),
            prev_activations@.cols == 1,
        ensures
            g.wf(),
            g.delta@.rows == self@.size(),
            g.delta@.cols == 1,
            g.weight@.rows == self@.weights.rows,
            g.weight@.cols == self@.weights.cols,
            g.delta@.data == hidden_deltas(self@, next_layer_weights@, next_layer_deltas@),
            g.weight@ == outer_grad(
                prev_activations@,
                g.delta@.data,
                self@.weights.rows,
                self@.weights.cols,
            ),
    {
        let n_rows: usize = self.neurons.rows();
        let next_rows: usize = next_layer_weights.rows();
        let ghost dspec = hidden_deltas(self@, next_layer_weights@, next_layer_deltas@);
        proof {
            assert(self@.zed.data.len() == n_rows && next_layer_deltas@.data.len() == next_rows)
                by (nonlinear_arith)
                requires
                    self@.zed.data.len() == self@.zed.rows * self@.zed.cols,
                    next_layer_deltas@.data.len() == next_layer_deltas@.rows
                        * next_layer_deltas@.cols,
                    self@.zed.cols == 1,
                    next_layer_deltas@.cols == 1,
                    self@.zed.rows == n_rows,
                    next_layer_deltas@.rows == next_rows,
            ;
            assert(dspec.len() == n_rows);
        }
        let mut dvec: Vec<i64> = Vec::new();
        let mut i: usize = 0;
        while i < n_rows
            invariant
                self.wf(),
                next_layer_weights.wf(),
                next_layer_deltas.wf(),
                next_layer_weights@.cols == self@.size(),
                next_layer_deltas@.rows == next_layer_weights@.rows,
                next_layer_deltas@.cols == 1,
                n_rows == self@.size(),
                next_rows == next_layer_weights@.rows,
                next_rows <= DIM_LIMIT,
                self@.zed.data.len() == n_rows,
                next_layer_deltas@.data.len() == next_rows,
                dspec == hidden_deltas(self@, next_layer_weights@, next_layer_deltas@),
                dspec.len() == n_rows,
                i <= n_rows,
                dvec@.len() == i,
                forall|k: int| 0 <= k < i ==> #[trigger] dvec@[k] as int == dspec[k],
                forall|k: int| 0 <= k < i ==> fx_in_range(#[trigger] dvec@[k] as int),
            decreases n_rows - i,
        {
            let mut sum: i128 = 0;
            let mut j: usize = 0;
            while j < next_rows
                invariant
                    self.wf(),
                    next_layer_weights.wf(),
                    next_layer_deltas.wf(),
                    next_layer_weights@.cols == self@.size(),
                    next_layer_deltas@.rows == next_layer_weights@.rows,
                    next_layer_deltas@.cols == 1,
                    n_rows == self@.size(),
                    next_rows == next_layer_weights@.rows,
                    next_rows <= DIM_LIMIT,
                    next_layer_deltas@.data.len() == next_rows,
                    i < n_rows,
                    j <= next_rows,
                    sum as int == updot(next_layer_weights@, next_layer_deltas@, i as int,
                        j as nat),
                    -((j as int) * (FX_MAX as int) * (FX_MAX as int)) <= sum as int <= (j as int)
                        * (FX_MAX as int) * (FX_MAX as int),
                decreases next_rows - j,
            {
                proof {
                    lemma_row_major_index(j as int, i as int, next_layer_weights@.rows as int,
                        next_layer_weights@.cols as int);
                    lemma_row_major_index(j as int, 0, next_rows as int, 1);
                }
                let wv: i64 = next_layer_weights.get(j, i);
                let dv: i64 = next_layer_deltas.get(j, 0);
                proof {
                    assert(wv as int == next_layer_weights@.entry(j as int, i as int));
                    assert(dv as int == next_layer_deltas@.data[j as int]);
                    assert(fx_in_range(wv as int));
                    assert(fx_in_range(dv as int));
                    assert(-((FX_MAX as int) * (FX_MAX as int)) <= (wv as int) * (dv as int) <= (
                    FX_MAX as int) * (FX_MAX as int)) by (nonlinear_arith)
                        requires
                            -(FX_MAX as int) <= wv as int <= FX_MAX as int,
                            -(FX_MAX as int) <= dv as int <= FX_MAX as int,
                    ;
                    assert((j as int) * (FX_MAX as int) * (FX_MAX as int) <= (DIM_LIMIT as int) * (
                    FX_MAX as int) * (FX_MAX as int)) by (nonlinear_arith)
                        requires
                            0 <= j as int <= DIM_LIMIT as int,
                    ;
                    assert(((j + 1) as int) * (FX_MAX as int) * (FX_MAX as int) == (j as int) * (
                    FX_MAX as int) * (FX_MAX as int) + (FX_MAX as int) * (FX_MAX as int))
                        by (nonlinear_arith);
                }
                let p: i128 = (wv as i128) * (dv as i128);
                sum = sum + p;
                j += 1;
            }
            let up: i64 = fx_scale_down(sum);
            proof {
                lemma_row_major_index(i as int, 0, n_rows as int, 1);
                assert(up as int == upstream(next_layer_weights@, next_layer_deltas@, i as int));
            }
            let zv: i64 = self.zed.get(i, 0);
            let dv: i64 = self.activation.derivative(zv);
            proof {
                assert(zv as int == self@.zed.data[i as int]);
            }
            let d: i64 = mul_units(up, dv);
            dvec.push(d);
            proof {
                assert(dvec@[i as int] as int == dspec[i as int]);
            }
            i += 1;
        }
        let deltas = Matrix::from_vec(n_rows, 1, dvec);
        proof {
            assert(deltas@.data =~= dspec);
        }
        let w_rows: usize = self.weights.rows();
        let w_cols: usize = self.weights.cols();
        // Reading the element count bounds rows * cols by usize::MAX.
        let w_total: usize = self.weights.num_elements();
        let weight_derivatives = build_outer_grad(prev_activations, &deltas, w_rows, w_cols);
        Gradient { weight: weight_derivatives, delta: deltas }
    }

    /// Plain gradient descent: subtract the scaled weight gradient from the
    /// weights and the scaled error column from the biases.
    pub fn adjust_parameters(&mut self, gradients: Gradient, learning_rate: i64)
        requires
            old(self).wf(),
            gradients.wf(),
            gradients.weight@.rows == old(self)@.weights.rows,
            gradients.weight@.cols == old(self)@.weights.cols,
        ensures
            final(self).wf(),
            final(self)@ == (LayerModel {
                weights: mat_sub(
                    old(self)@.weights,
                    mat_scale(gradients.weight@, learning_rate as int),
                ),
                biases: mat_sub(
                    old(self)@.biases,
                    mat_scale(gradients.delta@, learning_rate as int),
                ),
                ..old(self)@
            }),
    {
        let scaled_weight = gradients.weight.scalar_product(learning_rate);
        self.weights.sub_assign(&scaled_weight);
        let scaled_delta = gradients.delta.scalar_product(learning_rate);
        self.biases.sub_assign(&scaled_delta);
        proof {
            assert(final(self)@ =~= (LayerModel {
                weights: mat_sub(
                    old(self)@.weights,
                    mat_scale(gradients.weight@, learning_rate as int),
                ),
                biases: mat_sub(
                    old(self)@.biases,
                    mat_scale(gradients.delta@, learning_rate as int),
                ),
                ..old(self)@
            }));
        }
    }
}

} // verus!
