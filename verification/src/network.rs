//! The network orchestrator: an ordered sequence of layers, a full forward
//! pass, a full backward pass in reverse layer order, and the
//! gradient-descent update, per sample or batch-accumulated.

use std::collections::VecDeque;

use vstd::prelude::*;

use crate::activation::act_deriv;
use crate::fixed::{fx_in_range, fx_mul, FX_MAX, FX_SCALE};
use crate::layer::{
    hidden_deltas, layer_forward, outer_grad, output_delta_ok, Gradient, Layer, LayerModel,
};
use crate::matrix::{mat_scale, mat_sub, MatModel, Matrix};

verus! {

/// Mathematical model of a network: the layer models in forward order and
/// the learning rate in units.
#[verifier::ext_equal]
pub ghost struct NetModel {
    pub layers: Seq<LayerModel>,
    pub learning_rate: int,
}

impl NetModel {
    /// Every layer is well-formed and each layer's input width is the
    /// previous layer's neuron count.
    pub open spec fn wf(self) -> bool {
        &&& forall|i: int| 0 <= i < self.layers.len() ==> (#[trigger] self.layers[i]).wf()
        &&& forall|i: int|
            1 <= i < self.layers.len() ==> (#[trigger] self.layers[i]).in_dim() == self.layers[i
                - 1].size()
    }
}

/// The state of layer `i` after the full forward pass of `layers` on
/// `input`: layer 0 is fed the input, every later layer the previous
/// layer's fresh activations.
pub open spec fn forward_at(layers: Seq<LayerModel>, input: MatModel, i: int) -> LayerModel
    recommends
        0 <= i < layers.len(),
    decreases i,
{
    if i <= 0 {
        layer_forward(layers[0], input)
    } else {
        layer_forward(layers[i], forward_at(layers, input, i - 1).neurons)
    }
}

/// All layers after the full forward pass.
pub open spec fn forward_all(layers: Seq<LayerModel>, input: MatModel) -> Seq<LayerModel> {
    Seq::new(layers.len(), |i: int| forward_at(layers, input, i))
}

/// The derivative of the half squared error cost: `2 * (a - y)`.
pub open spec fn mse_cd(a: int, y: int) -> int {
    2 * (a - y)
}

/// A column model wrapping a data sequence.
pub open spec fn col_model(s: Seq<int>) -> MatModel {
    MatModel { rows: s.len(), cols: 1, data: s }
}

/// Output-layer error terms under the mean-squared-error derivative.
pub open spec fn output_deltas_mse(l: LayerModel, expected: MatModel) -> Seq<int> {
    Seq::new(
        l.size(),
        |n: int| fx_mul(mse_cd(l.neurons.data[n], expected.data[n]), act_deriv(l.activation, l.zed.data[n])),
    )
}

/// The error column of layer `i` (for `1 <= i <= last`) in the backward
/// pass over already-forward-propagated `layers`: the last layer uses the
/// cost derivative against `expected`, every earlier layer back-propagates
/// through the next layer's weights and deltas.
pub open spec fn delta_at(layers: Seq<LayerModel>, expected: MatModel, i: int) -> Seq<int>
    recommends
        1 <= i < layers.len(),
    decreases layers.len() - i,
{
    if i >= layers.len() - 1 {
        output_deltas_mse(layers[layers.len() - 1], expected)
    } else {
        hidden_deltas(layers[i], layers[i + 1].weights, col_model(delta_at(layers, expected, i + 1)))
    }
}

/// The full gradient of layer `i` (for `1 <= i <= last`): its error column
/// and the outer product with the previous layer's activations.
pub open spec fn grad_weight_at(layers: Seq<LayerModel>, expected: MatModel, i: int) -> MatModel
    recommends
        1 <= i < layers.len(),
{
    outer_grad(
        layers[i - 1].neurons,
        delta_at(layers, expected, i),
        layers[i].weights.rows,
        layers[i].weights.cols,
    )
}

/// A feedforward network: layers in forward order plus a learning rate.
pub struct NeuralNetwork {
    layers: Vec<Layer>,
    learning_rate: i64,
}

impl View for NeuralNetwork {
    type V = NetModel;

    closed spec fn view(&self) -> NetModel {
        NetModel {
            layers: self.layers@.map_values(|l: Layer| l@),
            learning_rate: self.learning_rate as int,
        }
    }
}

impl NeuralNetwork {
    pub open spec fn wf(&self) -> bool {
        self@.wf()
    }

    /// An empty network with the given learning rate (in units); the layer
    /// count is a capacity hint.
    pub fn new(num_layers: usize, learning_rate: i64) -> (result: NeuralNetwork)
        ensures
            result.wf(),
            result@.layers.len() == 0,
            result@.learning_rate == learning_rate,
    {
        NeuralNetwork { layers: Vec::with_capacity(num_layers), learning_rate }
    }

    pub fn num_layers(&self) -> (r: usize)
        ensures
            r == self@.layers.len(),
    {
        self.layers.len()
    }

    /// Append a layer; its input width must match the current last layer's
    /// neuron count.
    pub fn add_layer(&mut self, layer: Layer)
        requires
            old(self).wf(),
            layer.wf(),
            old(self)@.layers.len() > 0 ==> layer@.in_dim() == old(self)@.layers.last().size(),
        ensures
            final(self).wf(),
            final(self)@.layers == old(self)@.layers.push(layer@),
            final(self)@.learning_rate == old(self)@.learning_rate,
    {
        self.layers.push(layer);
        proof {
            assert(final(self)@.layers =~= old(self)@.layers.push(layer@));
        }
    }

    /// Borrow layer number `layer`, counting from one.
    pub fn borrow_layer(&self, layer: usize) -> (r: &Layer)
        requires
            1 <= layer <= self@.layers.len(),
        ensures
            r@ == self@.layers[layer - 1],
    {
        &self.layers[layer - 1]
    }

    /// The derivative of the half squared error cost with respect to one
    /// activation: `2 * (x - y)`.
    pub fn cost_derivative_mse(x: i64, y: i64) -> (r: i64)
        requires
            fx_in_range(x as int),
            fx_in_range(y as int),
        ensures
            r as int == mse_cd(x as int, y as int),
    {
        2 * (x - y)
    }

    /// Full forward pass: propagate layer 0 on `input`, then each layer on
    /// the previous layer's fresh activations; returns the output layer's
    /// activation column.
    pub fn classify(&mut self, input: &Matrix) -> (r: &Matrix)
        requires
            old(self).wf(),
            old(self)@.layers.len() > 0,
            input.wf(),
            input@.cols == 1,
            input@.rows == old(self)@.layers[0].in_dim(),
        ensures
            final(self).wf(),
            final(self)@.layers == forward_all(old(self)@.layers, input@),
            final(self)@.learning_rate == old(self)@.learning_rate,
            r@ == final(self)@.layers.last().neurons,
    {
        let ghost orig = self@.layers;
        let len: usize = self.layers.len();
        let first = &mut self.layers[0];
        first.propagate(input);
        proof {
            assert(self@.layers[0] == forward_at(orig, input@, 0));
            assert(forall|k: int| 1 <= k < len ==> self@.layers[k] == orig[k]);
        }
        let mut i: usize = 1;
        while i < len
            invariant
                len == self@.layers.len(),
                orig.len() == len,
                1 <= i <= len,
                forall|k: int| 1 <= k < len ==> (#[trigger] orig[k]).in_dim() == orig[k - 1].size(),
                forall|k: int| 0 <= k < len ==> (#[trigger] orig[k]).wf(),
                forall|k: int| i <= k < len ==> #[trigger] self@.layers[k] == orig[k],
                forall|k: int|
                    0 <= k < i ==> #[trigger] self@.layers[k] == forward_at(orig, input@, k),
                forall|k: int| 0 <= k < i ==> (#[trigger] self@.layers[k]).wf(),
                forall|k: int|
                    0 <= k < i ==> (#[trigger] self@.layers[k]).weights == orig[k].weights,
                self@.learning_rate == old(self)@.learning_rate,
            decreases len - i,
        {
            let ghost pre_views = self@.layers;
            let ghost prevec = self.layers@;
            let prev_neurons = self.layers[i - 1].neurons().clone();
            proof {
                assert(self@.layers[i - 1] == self.layers@[i - 1]@);
                assert(self@.layers[i - 1].wf());
                assert(prev_neurons@ == self@.layers[i - 1 as int].neurons);
                assert(orig[i as int].in_dim() == orig[i - 1 as int].size());
                assert(self@.layers[i - 1 as int].size() == orig[i - 1 as int].size());
            }
            let current = &mut self.layers[i];
            proof {
                assert(*current == prevec[i as int]);
                assert(pre_views[i as int] == prevec[i as int]@);
                assert(current@ == orig[i as int]);
            }
            current.propagate(&prev_neurons);
            proof {
                assert(self.layers@ =~= prevec.update(i as int, self.layers@[i as int]));
                assert(forall|k: int|
                    0 <= k < len && k != i ==> self.layers@[k] == prevec[k]);
                assert(forall|k: int|
                    0 <= k < len && k != i ==> #[trigger] self@.layers[k] == self.layers@[k]@);
                assert(forall|k: int|
                    0 <= k < len && k != i ==> #[trigger] pre_views[k] == prevec[k]@);
                assert(forall|k: int|
                    0 <= k < len && k != i ==> #[trigger] self@.layers[k] == pre_views[k]);
                assert(self@.layers[i as int] == self.layers@[i as int]@);
                assert(self@.layers[i as int] == layer_forward(
                    orig[i as int],
                    forward_at(orig, input@, i - 1).neurons,
                ));
                assert(self@.layers[i as int] == forward_at(orig, input@, i as int));
            }
            i += 1;
        }
        proof {
            assert(self@.layers =~= forward_all(orig, input@));
        }
        let last_index: usize = len - 1;
        self.layers[last_index].neurons()
    }
}


impl NeuralNetwork {
    /// Full backward pass over the already-forward-propagated layers:
    /// backpropagate the output layer against `expected_output` under the
    /// mean-squared-error derivative, then each hidden layer down to layer
    /// one, each using the next layer's weights and fresh deltas and the
    /// previous layer's cached activations.  Returns one gradient per
    /// updated layer, in forward order.  Layer 0 receives no gradient,
    /// so the raw `input` - which would be its previous activations - is
    /// never read.
    /// The output layer's gradient under the mean-squared-error
    /// derivative, against the second-to-last layer's cached activations.
    fn mse_output_gradient(&self, expected_output: &Matrix) -> (g: Gradient)
        requires
            self.wf(),
            self@.layers.len() >= 2,
            expected_output.wf(),
            expected_output@.cols == 1,
            expected_output@.rows == self@.layers.last().size(),
        ensures
            g.wf(),
            g.delta@.rows == self@.layers.last().size(),
            g.delta@.cols == 1,
            g.delta@.data == output_deltas_mse(self@.layers.last(), expected_output@),
            g.weight@ == outer_grad(
                self@.layers[self@.layers.len() - 2].neurons,
                g.delta@.data,
                self@.layers.last().weights.rows,
                self@.layers.last().weights.cols,
            ),
    {
        let len: usize = self.layers.len();
        let last_layer_index: usize = len - 1;
        proof {
            assert(self@.layers[last_layer_index as int] == self.layers@[last_layer_index as int]@);
            assert(self@.layers[last_layer_index - 1] == self.layers@[last_layer_index - 1]@);
            assert(self@.layers[last_layer_index as int].wf());
            assert(self@.layers[last_layer_index as int].in_dim() == self@.layers[
                last_layer_index - 1].size());
        }
        let g0 = self.layers[last_layer_index].backpropagate_output_layer(
            expected_output,
            self.layers[last_layer_index - 1].neurons(),
            &NeuralNetwork::cost_derivative_mse,
        );
        proof {
            let ghost lastm = self@.layers[last_layer_index as int];
            assert(lastm.neurons.data.len() == lastm.size() && lastm.zed.data.len()
                == lastm.size() && expected_output@.data.len() == lastm.size())
                by (nonlinear_arith)
                requires
                    lastm.neurons.data.len() == lastm.neurons.rows * lastm.neurons.cols,
                    lastm.zed.data.len() == lastm.zed.rows * lastm.zed.cols,
                    expected_output@.data.len() == expected_output@.rows * expected_output@.cols,
                    lastm.neurons.cols == 1,
                    lastm.zed.cols == 1,
                    expected_output@.cols == 1,
                    lastm.neurons.rows == lastm.size(),
                    lastm.zed.rows == lastm.size(),
                    expected_output@.rows == lastm.size(),
            ;
            assert forall|n: int| 0 <= n < lastm.size() implies #[trigger] g0.delta@.data[n]
                == output_deltas_mse(lastm, expected_output@)[n] by {
                assert(output_delta_ok(
                    &NeuralNetwork::cost_derivative_mse,
                    lastm.neurons.data[n],
                    expected_output@.data[n],
                    lastm.zed.data[n],
                    lastm.activation,
                    g0.delta@.data[n],
                ));
                let cd = choose|cd: i64|
                    #[trigger] call_ensures(
                        NeuralNetwork::cost_derivative_mse,
                        ((lastm.neurons.data[n]) as i64, (expected_output@.data[n]) as i64),
                        cd,
                    ) && g0.delta@.data[n] == fx_mul(
                        cd as int,
                        act_deriv(lastm.activation, lastm.zed.data[n]),
                    );
                assert(fx_in_range(lastm.neurons.data[n]));
                assert(fx_in_range(expected_output@.data[n]));
                assert(cd as int == mse_cd(lastm.neurons.data[n], expected_output@.data[n]));
            }
            assert(g0.delta@.data =~= output_deltas_mse(lastm, expected_output@));
        }
        g0
    }

    #[allow(unused_variables)]
    #[verifier::rlimit(100)]
    pub fn generate_gradients(&self, input: Matrix, expected_output: Matrix) -> (r: VecDeque<
        Gradient,
    >)
        requires
            self.wf(),
            self@.layers.len() >= 2,
            expected_output.wf(),
            expected_output@.cols == 1,
            expected_output@.rows == self@.layers.last().size(),
        ensures
            r@.len() == self@.layers.len() - 1,
            forall|k: int| 0 <= k < r@.len() ==> (#[trigger] r@[k]).wf(),
            forall|k: int|
                0 <= k < r@.len() ==> (#[trigger] r@[k]).delta@.rows == self@.layers[k
                    + 1].size(),
            forall|k: int|
                0 <= k < r@.len() ==> (#[trigger] r@[k]).delta@.data == delta_at(
                    self@.layers,
                    expected_output@,
                    k + 1,
                ),
            forall|k: int|
                0 <= k < r@.len() ==> (#[trigger] r@[k]).weight@ == grad_weight_at(
                    self@.layers,
                    expected_output@,
                    k + 1,
                ),
    {
        let len: usize = self.layers.len();
        let last_layer_index: usize = len - 1;
        let mut gradients: VecDeque<Gradient> = VecDeque::with_capacity(len);
        let g0 = self.mse_output_gradient(&expected_output);
        proof {
            assert(g0.delta@.data == delta_at(self@.layers, expected_output@,
                last_layer_index as int));
            assert(g0.weight@ == grad_weight_at(self@.layers, expected_output@,
                last_layer_index as int));
        }
        gradients.push_front(g0);
        let mut i: usize = last_layer_index;
        #[verifier::loop_isolation(false)]
        while i > 1
            invariant
                1 <= i <= last_layer_index,
                gradients@.len() == last_layer_index - i + 1,
                forall|k: int| 0 <= k < gradients@.len() ==> (#[trigger] gradients@[k]).wf(),
                forall|k: int|
                    0 <= k < gradients@.len() ==> (#[trigger] gradients@[k]).delta@.rows
                        == self@.layers[i + k].size(),
                forall|k: int|
                    0 <= k < gradients@.len() ==> (#[trigger] gradients@[k]).delta@.data
                        == delta_at(self@.layers, expected_output@, i + k),
                forall|k: int|
                    0 <= k < gradients@.len() ==> (#[trigger] gradients@[k]).weight@
                        == grad_weight_at(self@.layers, expected_output@, i + k),
            decreases i,
        {
            i -= 1;
            proof {
                assert(self@.layers[i as int] == self.layers@[i as int]@);
                assert(self@.layers[i + 1] == self.layers@[i + 1]@);
                assert(self@.layers[i - 1] == self.layers@[i - 1]@);
                assert(self@.layers[i as int].wf());
                assert(self@.layers[i + 1].wf());
                assert(self@.layers[i + 1].in_dim() == self@.layers[i as int].size());
                assert(self@.layers[i as int].in_dim() == self@.layers[i - 1].size());
                let ghost d = gradients@[0].delta@;
                assert(d.rows == self@.layers[i + 1].size());
                assert(d.data.len() == d.rows) by (nonlinear_arith)
                    requires
                        d.data.len() == d.rows * d.cols,
                        d.cols == 1,
                ;
            }
            let g = self.layers[i].backpropagate_hidden_layer(
                self.layers[i + 1].weights(),
                &gradients[0].delta,
                self.layers[i - 1].neurons(),
            );
            proof {
                assert(gradients@[0].delta@ =~= col_model(delta_at(self@.layers, expected_output@,
                    i + 1)));
                assert(g.delta@.data == hidden_deltas(self@.layers[i as int],
                    self@.layers[i + 1].weights, col_model(delta_at(self@.layers,
                    expected_output@, i + 1))));
                assert(g.delta@.data == delta_at(self@.layers, expected_output@, i as int));
                assert(g.weight@ == grad_weight_at(self@.layers, expected_output@, i as int));
            }
            gradients.push_front(g);
        }
        gradients
    }
}


/// A layer after one gradient-descent step: weights and biases move
/// against the scaled gradient; caches and activation stay.
pub open spec fn layer_updated(l: LayerModel, g_weight: MatModel, g_delta: MatModel, lr: int) -> LayerModel {
    LayerModel {
        weights: mat_sub(l.weights, mat_scale(g_weight, lr)),
        biases: mat_sub(l.biases, mat_scale(g_delta, lr)),
        ..l
    }
}

impl NeuralNetwork {
    /// Apply one gradient per trainable layer: layers one through the last
    /// each subtract their scaled gradient; layer zero is left untouched.
    pub fn adjust_parameters(&mut self, gradients: &mut VecDeque<Gradient>)
        requires
            old(self).wf(),
            old(self)@.layers.len() >= 1,
            old(gradients)@.len() == old(self)@.layers.len() - 1,
            forall|k: int|
                0 <= k < old(gradients)@.len() ==> (#[trigger] old(gradients)@[k]).wf()
                    && old(gradients)@[k].weight@.rows == old(self)@.layers[k + 1].weights.rows
                    && old(gradients)@[k].weight@.cols == old(self)@.layers[k + 1].weights.cols,
        ensures
            final(self).wf(),
            final(gradients)@ == old(gradients)@,
            final(self)@.learning_rate == old(self)@.learning_rate,
            final(self)@.layers.len() == old(self)@.layers.len(),
            final(self)@.layers[0] == old(self)@.layers[0],
            forall|k: int|
                1 <= k < old(self)@.layers.len() ==> #[trigger] final(self)@.layers[k]
                    == layer_updated(
                    old(self)@.layers[k],
                    old(gradients)@[k - 1].weight@,
                    old(gradients)@[k - 1].delta@,
                    old(self)@.learning_rate,
                ),
    {
        let ghost orig = self@.layers;
        let ghost gorig = gradients@;
        let ghost lr_spec = self@.learning_rate;
        let len: usize = self.layers.len();
        let lr: i64 = self.learning_rate;
        let mut k: usize = 1;
        while k < len
            invariant
                len == self@.layers.len(),
                orig.len() == len,
                len >= 1,
                gradients@ == gorig,
                gorig.len() == len - 1,
                lr as int == lr_spec,
                self@.learning_rate == lr_spec,
                forall|j: int|
                    0 <= j < gorig.len() ==> (#[trigger] gorig[j]).wf() && gorig[j].weight@.rows
                        == orig[j + 1].weights.rows && gorig[j].weight@.cols == orig[j
                        + 1].weights.cols,
                forall|j: int| 0 <= j < len ==> (#[trigger] orig[j]).wf(),
                forall|j: int| 1 <= j < len ==> (#[trigger] orig[j]).in_dim() == orig[j - 1].size(),
                1 <= k <= len,
                forall|j: int| k <= j < len ==> #[trigger] self@.layers[j] == orig[j],
                self@.layers[0] == orig[0],
                forall|j: int|
                    1 <= j < k ==> #[trigger] self@.layers[j] == layer_updated(
                        orig[j],
                        gorig[j - 1].weight@,
                        gorig[j - 1].delta@,
                        lr_spec,
                    ),
                forall|j: int| 0 <= j < k ==> (#[trigger] self@.layers[j]).wf(),
            decreases len - k,
        {
            let g: Gradient = gradients[k - 1].clone();
            proof {
                assert(gorig[k - 1].wf());
                assert(g.weight@ == gorig[k - 1].weight@);
                assert(g.delta@ == gorig[k - 1].delta@);
                assert(g.wf());
            }
            let ghost pre_views = self@.layers;
            let ghost prevec = self.layers@;
            let layer = &mut self.layers[k];
            proof {
                assert(*layer == prevec[k as int]);
                assert(pre_views[k as int] == prevec[k as int]@);
                assert(layer@ == orig[k as int]);
            }
            layer.adjust_parameters(g, lr);
            proof {
                assert(self.layers@ =~= prevec.update(k as int, self.layers@[k as int]));
                assert(forall|j: int| 0 <= j < len && j != k ==> self.layers@[j] == prevec[j]);
                assert(forall|j: int|
                    0 <= j < len && j != k ==> #[trigger] self@.layers[j] == self.layers@[j]@);
                assert(forall|j: int|
                    0 <= j < len && j != k ==> #[trigger] pre_views[j] == prevec[j]@);
                assert(forall|j: int|
                    0 <= j < len && j != k ==> #[trigger] self@.layers[j] == pre_views[j]);
                assert(self@.layers[k as int] == self.layers@[k as int]@);
                assert(self@.layers[k as int] == layer_updated(
                    orig[k as int],
                    gorig[k - 1].weight@,
                    gorig[k - 1].delta@,
                    lr_spec,
                ));
            }
            k += 1;
        }
        proof {
            assert forall|j: int| 1 <= j < len implies (#[trigger] self@.layers[j]).in_dim()
                == self@.layers[j - 1].size() by {
                assert(self@.layers[j].weights.cols == orig[j].weights.cols);
                assert(self@.layers[j - 1].weights.rows == orig[j - 1].weights.rows);
            }
        }
    }

    /// One full training step: forward pass, backward pass, and the
    /// gradient-descent update on every trainable layer (layer zero's
    /// parameters are not updated).  The contract pins each updated
    /// parameter exactly; whether a particular weight actually moves
    /// depends on its scaled gradient not truncating to zero, which no
    /// clause over all inputs can promise.
    pub fn train(&mut self, input: Matrix, expected_output: Matrix)
        requires
            old(self).wf(),
            old(self)@.layers.len() >= 2,
            input.wf(),
            input@.cols == 1,
            input@.rows == old(self)@.layers[0].in_dim(),
            expected_output.wf(),
            expected_output@.cols == 1,
            expected_output@.rows == old(self)@.layers.last().size(),
        ensures
            final(self).wf(),
            final(self)@.learning_rate == old(self)@.learning_rate,
            final(self)@.layers.len() == old(self)@.layers.len(),
            final(self)@.layers[0] == forward_all(old(self)@.layers, input@)[0],
            forall|k: int|
                1 <= k < old(self)@.layers.len() ==> #[trigger] final(self)@.layers[k]
                    == layer_updated(
                    forward_all(old(self)@.layers, input@)[k],
                    grad_weight_at(forward_all(old(self)@.layers, input@), expected_output@, k),
                    col_model(
                        delta_at(forward_all(old(self)@.layers, input@), expected_output@, k),
                    ),
                    old(self)@.learning_rate,
                ),
    {
        let ghost fwd = forward_all(old(self)@.layers, input@);
        self.classify(&input);
        proof {
            assert(forall|k: int|
                0 <= k < fwd.len() ==> (#[trigger] fwd[k]).weights == old(self)@.layers[k].weights);
            assert(self@.layers.last().size() == old(self)@.layers.last().size());
        }
        let ghost expected_model = expected_output@;
        let mut gradients = self.generate_gradients(input, expected_output);
        proof {
            assert(forall|k: int|
                0 <= k < gradients@.len() ==> (#[trigger] gradients@[k]).weight@ == grad_weight_at(
                    fwd,
                    expected_model,
                    k + 1,
                ));
            assert(forall|k: int|
                0 <= k < gradients@.len() ==> (#[trigger] gradients@[k]).weight@.rows == fwd[k
                    + 1].weights.rows && gradients@[k].weight@.cols == fwd[k + 1].weights.cols);
            assert forall|k: int| 1 <= k < self@.layers.len() implies (#[trigger] gradients@[k
                - 1]).delta@ =~= col_model(delta_at(fwd, expected_model, k)) by {
                let d = gradients@[k - 1].delta@;
                assert(d.data == delta_at(fwd, expected_model, k));
                assert(d.rows == fwd[k].size());
                assert(d.data.len() == d.rows) by (nonlinear_arith)
                    requires
                        d.data.len() == d.rows * d.cols,
                        d.cols == 1,
                ;
            }
        }
        self.adjust_parameters(&mut gradients);
    }

    /// One training step whose gradients are added into `cur_gradients`
    /// instead of being applied: an empty accumulator receives this
    /// sample's gradients, a filled one receives the elementwise sum.  The
    /// caller divides by the batch size and applies the result.  The
    /// accumulation itself is exact and stated below; that applying the
    /// averaged accumulator approximates the same number of per-sample
    /// steps is an approximation that only holds in the limit of a small
    /// learning rate, so it is demonstrated by tests rather than stated
    /// here.
    pub fn train_batch(
        &mut self,
        input: Matrix,
        expected_output: Matrix,
        cur_gradients: &mut VecDeque<Gradient>,
    )
        requires
            old(self).wf(),
            old(self)@.layers.len() >= 2,
            input.wf(),
            input@.cols == 1,
            input@.rows == old(self)@.layers[0].in_dim(),
            expected_output.wf(),
            expected_output@.cols == 1,
            expected_output@.rows == old(self)@.layers.last().size(),
            old(cur_gradients)@.len() == 0 || (old(cur_gradients)@.len() == old(self)@.layers.len() - 1 && forall|k: int|
                0 <= k < old(cur_gradients)@.len() ==> (#[trigger] old(cur_gradients)@[k]).wf()
                    && old(cur_gradients)@[k].weight@.rows == old(self)@.layers[k
                    + 1].weights.rows && old(cur_gradients)@[k].weight@.cols == old(self)@.layers[k + 1].weights.cols),
        ensures
            final(self).wf(),
            final(self)@.learning_rate == old(self)@.learning_rate,
            final(self)@.layers == forward_all(old(self)@.layers, input@),
            final(cur_gradients)@.len() == old(self)@.layers.len() - 1,
            forall|k: int|
                0 <= k < final(cur_gradients)@.len() ==> (#[trigger] final(cur_gradients)@[k]).wf(),
            old(cur_gradients)@.len() == 0 ==> forall|k: int|
                0 <= k < final(cur_gradients)@.len() ==> (#[trigger] final(cur_gradients)@[k]).weight@ == grad_weight_at(
                    forward_all(old(self)@.layers, input@),
                    expected_output@,
                    k + 1,
                ) && final(cur_gradients)@[k].delta@.data == delta_at(
                    forward_all(old(self)@.layers, input@),
                    expected_output@,
                    k + 1,
                ),
            old(cur_gradients)@.len() > 0 ==> forall|k: int|
                0 <= k < final(cur_gradients)@.len() ==> (#[trigger] final(cur_gradients)@[k]).weight@ == crate::matrix::mat_add(
                    old(cur_gradients)@[k].weight@,
                    grad_weight_at(forward_all(old(self)@.layers, input@), expected_output@, k + 1),
                ) && final(cur_gradients)@[k].delta@ == crate::matrix::mat_add(
                    old(cur_gradients)@[k].delta@,
                    col_model(
                        delta_at(forward_all(old(self)@.layers, input@), expected_output@, k + 1),
                    ),
                ),
    {
        let ghost fwd = forward_all(old(self)@.layers, input@);
        self.classify(&input);
        proof {
            assert(forall|k: int|
                0 <= k < fwd.len() ==> (#[trigger] fwd[k]).weights == old(self)@.layers[k].weights);
            assert(self@.layers.last().size() == old(self)@.layers.last().size());
        }
        let ghost expected_model = expected_output@;
        let gradients = self.generate_gradients(input, expected_output);
        let ghost cur_orig = cur_gradients@;
        let len: usize = self.layers.len();
        if cur_gradients.len() == 0 {
            *cur_gradients = gradients;
            proof {
                assert forall|k: int| 1 <= k < self@.layers.len() implies (#[trigger] final(cur_gradients)@[k - 1]).delta@ =~= col_model(delta_at(fwd, expected_model, k)) by {
                    let d = final(cur_gradients)@[k - 1].delta@;
                    assert(d.data == delta_at(fwd, expected_model, k));
                    assert(d.rows == fwd[k].size());
                    assert(d.data.len() == d.rows) by (nonlinear_arith)
                        requires
                            d.data.len() == d.rows * d.cols,
                            d.cols == 1,
                    ;
                }
            }
        } else {
            let count: usize = len - 1;
            let mut acc: VecDeque<Gradient> = VecDeque::with_capacity(count);
            let mut k: usize = 0;
            while k < count
                invariant
                    count == self@.layers.len() - 1,
                    self@.layers.len() == fwd.len(),
                    self.wf(),
                    self@.layers == fwd,
                    cur_gradients@ == cur_orig,
                    cur_orig.len() == count,
                    gradients@.len() == count,
                    forall|j: int|
                        0 <= j < count ==> (#[trigger] cur_orig[j]).wf() && cur_orig[j].weight@.rows
                            == fwd[j + 1].weights.rows && cur_orig[j].weight@.cols == fwd[j
                            + 1].weights.cols,
                    forall|j: int| 0 <= j < count ==> (#[trigger] gradients@[j]).wf(),
                    forall|j: int|
                        0 <= j < count ==> (#[trigger] gradients@[j]).delta@.rows == fwd[j
                            + 1].size(),
                    forall|j: int|
                        0 <= j < count ==> (#[trigger] gradients@[j]).weight@ == grad_weight_at(
                            fwd,
                            expected_model,
                            j + 1,
                        ),
                    forall|j: int|
                        0 <= j < count ==> (#[trigger] gradients@[j]).delta@.data == delta_at(
                            fwd,
                            expected_model,
                            j + 1,
                        ),
                    forall|j: int| 0 <= j < fwd.len() ==> (#[trigger] fwd[j]).wf(),
                    k <= count,
                    acc@.len() == k,
                    forall|j: int| 0 <= j < k ==> (#[trigger] acc@[j]).wf(),
                    forall|j: int|
                        0 <= j < k ==> (#[trigger] acc@[j]).weight@ == crate::matrix::mat_add(
                            cur_orig[j].weight@,
                            grad_weight_at(fwd, expected_model, j + 1),
                        ),
                    forall|j: int|
                        0 <= j < k ==> (#[trigger] acc@[j]).delta@ == crate::matrix::mat_add(
                            cur_orig[j].delta@,
                            col_model(delta_at(fwd, expected_model, j + 1)),
                        ),
                decreases count - k,
            {
                proof {
                    assert(cur_orig[k as int].wf());
                    assert(gradients@[k as int].wf());
                    assert(gradients@[k as int].weight@.rows == fwd[k + 1].weights.rows
                        && gradients@[k as int].weight@.cols == fwd[k + 1].weights.cols);
                    let d = gradients@[k as int].delta@;
                    assert(d.data.len() == d.rows) by (nonlinear_arith)
                        requires
                            d.data.len() == d.rows * d.cols,
                            d.cols == 1,
                    ;
                    assert(d =~= col_model(delta_at(fwd, expected_model, k + 1)));
                }
                let mut w: Matrix = cur_gradients[k].weight.clone();
                w.add_assign(&gradients[k].weight);
                let mut d: Matrix = cur_gradients[k].delta.clone();
                d.add_assign(&gradients[k].delta);
                acc.push_back(Gradient { weight: w, delta: d });
                k += 1;
            }
            *cur_gradients = acc;
        }
    }
}

} // verus!
