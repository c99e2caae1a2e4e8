//! The network: layered activations, weight matrices and bias vectors, with
//! forward propagation, backpropagation and a training loop.

use vstd::prelude::*;
use crate::fixed::{fx_add, fx_add_spec, fx_mul, fx_mul_spec, fx_sub, fx_sub_spec, FX_SCALE};
use crate::utils::{
    lemma_sigmoid_range, mse, mse_spec, randomise1, randomise2, sigmoid, sigmoid_prime,
    sigmoid_prime_spec, sigmoid_spec,
};
use crate::views::{m2view, m3view, vview};
use vstd::arithmetic::div_mod::{lemma_div_is_ordered_by_denominator, lemma_div_pos_is_pos};

verus! {

broadcast use
    vstd::seq_lib::group_seq_properties,
    crate::views::lemma_vview_len,
    crate::views::lemma_vview_index,
    crate::views::lemma_m2view_len,
    crate::views::lemma_m2view_index,
    crate::views::lemma_m3view_len,
    crate::views::lemma_m3view_index;

/// The elementwise nonlinearity applied at every non-input layer, paired
/// with the matching derivative used during backpropagation.
#[derive(Clone, Copy, PartialEq, Eq, Structural, Debug)]
pub enum Activation {
    /// The logistic function; its derivative on an activated value `a` is
    /// `a * (1 - a)`.
    Sigmoid,
    /// The identity; its derivative is the constant 1.
    Identity,
}

/// The single error class the engine guards against: a vector handed in does
/// not match the width the network expects at that layer.
#[derive(Clone, Copy, PartialEq, Eq, Structural, Debug)]
pub enum NnError {
    DimensionMismatch,
}

/// The activation function on a mathematical value.
pub open spec fn act_apply_spec(a: Activation, x: int) -> int {
    match a {
        Activation::Sigmoid => sigmoid_spec(x),
        Activation::Identity => x,
    }
}

/// The derivative of the activation function, in terms of the
/// already-activated value.
pub open spec fn act_prime_spec(a: Activation, x: int) -> int {
    match a {
        Activation::Sigmoid => sigmoid_prime_spec(x),
        Activation::Identity => 65536,
    }
}

/// Apply the activation function.
pub fn act_apply(a: Activation, x: i64) -> (r: i64)
    ensures
        r as int == act_apply_spec(a, x as int),
{
    match a {
        Activation::Sigmoid => sigmoid(x),
        Activation::Identity => x,
    }
}

/// Apply the derivative of the activation function to an already-activated
/// value.
pub fn act_prime(a: Activation, x: i64) -> (r: i64)
    ensures
        r as int == act_prime_spec(a, x as int),
{
    match a {
        Activation::Sigmoid => sigmoid_prime(x),
        Activation::Identity => FX_SCALE,
    }
}

/// The mathematical model of a network: its shape, parameters and current
/// activations as unbounded integers, and its activation function.
#[verifier::ext_equal]
pub ghost struct NetModel {
    pub shape: Seq<int>,
    pub weights: Seq<Seq<Seq<int>>>,
    pub biases: Seq<Seq<int>>,
    pub neurons: Seq<Seq<int>>,
    pub act: Activation,
}

/// A model value that a fixed-point scalar can hold.
pub open spec fn entry_bounded(x: int) -> bool {
    i64::MIN as int <= x <= i64::MAX as int
}

/// All dimensions of a model agree with its shape, and every stored value is
/// representable.
pub open spec fn model_wf(m: NetModel) -> bool {
    &&& m.shape.len() >= 2
    &&& (forall|i: int| 0 <= i < m.shape.len() ==> #[trigger] m.shape[i] >= 1)
    &&& m.neurons.len() == m.shape.len()
    &&& (forall|i: int|
        0 <= i < m.neurons.len() ==> (#[trigger] m.neurons[i]).len() == m.shape[i])
    &&& m.weights.len() == m.shape.len() - 1
    &&& (forall|c: int|
        0 <= c < m.weights.len() ==> (#[trigger] m.weights[c]).len() == m.shape[c])
    &&& (forall|c: int, k: int|
        0 <= c < m.weights.len() && 0 <= k < m.weights[c].len() ==> (
        #[trigger] m.weights[c][k]).len() == m.shape[c + 1])
    &&& m.biases.len() == m.shape.len() - 1
    &&& (forall|c: int|
        0 <= c < m.biases.len() ==> (#[trigger] m.biases[c]).len() == m.shape[c + 1])
    &&& (forall|i: int, j: int|
        0 <= i < m.neurons.len() && 0 <= j < m.neurons[i].len() ==> entry_bounded(
            #[trigger] m.neurons[i][j],
        ))
    &&& (forall|c: int, k: int, j: int|
        0 <= c < m.weights.len() && 0 <= k < m.weights[c].len() && 0 <= j
            < m.weights[c][k].len() ==> entry_bounded(#[trigger] m.weights[c][k][j]))
    &&& (forall|c: int, j: int|
        0 <= c < m.biases.len() && 0 <= j < m.biases[c].len() ==> entry_bounded(
            #[trigger] m.biases[c][j],
        ))
}

/// Structure for a neural network.
/// Creating a network will initialize the weights and biases to random
/// values; the activation function must be given.
#[derive(Debug)]
pub struct Network {
    /// Stores the values for each neuron in the network, one vector per
    /// layer.
    pub neurons: Vec<Vec<i64>>,
    /// An individual weight matrix holds the weights between two consecutive
    /// layers: `weights[i]` has `shape[i]` rows of `shape[i + 1]` columns.
    pub weights: Vec<Vec<Vec<i64>>>,
    /// An individual bias vector holds the biases of a non-input layer:
    /// `biases[i]` has length `shape[i + 1]`.
    pub biases: Vec<Vec<i64>>,
    /// Activation function for the network, with its derivative.
    pub activation: Activation,
    /// Width of every layer.
    pub shape: Vec<usize>,
    /// Number of layers.
    pub layers: usize,
}

impl Network {
    /// The mathematical model of this network.
    pub open spec fn model(&self) -> NetModel {
        NetModel {
            shape: self.shape@.map_values(|s: usize| s as int),
            weights: m3view(self.weights@),
            biases: m2view(self.biases@),
            neurons: m2view(self.neurons@),
            act: self.activation,
        }
    }

    /// Well-formedness: the model dimensions agree with the shape, and the
    /// stored layer count is the length of the shape.
    pub open spec fn wf(&self) -> bool {
        &&& model_wf(self.model())
        &&& self.layers == self.shape@.len()
    }
}

/// A vector of `n` zeros.
fn zero_vec(n: usize) -> (r: Vec<i64>)
    ensures
        r@.len() == n,
        forall|j: int| 0 <= j < n ==> #[trigger] r@[j] == 0,
{
    let mut r: Vec<i64> = Vec::new();
    let mut i: usize = 0;
    while i < n
        invariant
            i <= n,
            r@.len() == i,
            forall|j: int| 0 <= j < i ==> #[trigger] r@[j] == 0,
        decreases n - i,
    {
        r.push(0);
        i = i + 1;
    }
    r
}

/// A matrix of `rows` rows of `cols` zeros each.
fn zero_matrix(rows: usize, cols: usize) -> (r: Vec<Vec<i64>>)
    ensures
        r@.len() == rows,
        forall|t: int| 0 <= t < rows ==> (#[trigger] r@[t])@.len() == cols,
{
    let mut r: Vec<Vec<i64>> = Vec::new();
    let mut i: usize = 0;
    while i < rows
        invariant
            i <= rows,
            r@.len() == i,
            forall|t: int| 0 <= t < i ==> (#[trigger] r@[t])@.len() == cols,
        decreases rows - i,
    {
        r.push(zero_vec(cols));
        i = i + 1;
    }
    r
}

/// A copy of a vector of scalars.
fn copy_vec(v: &Vec<i64>) -> (r: Vec<i64>)
    ensures
        r@ == v@,
{
    let mut r: Vec<i64> = Vec::new();
    let mut i: usize = 0;
    while i < v.len()
        invariant
            i <= v@.len(),
            r@.len() == i,
            forall|j: int| 0 <= j < i ==> #[trigger] r@[j] == v@[j],
        decreases v@.len() - i,
    {
        r.push(v[i]);
        i = i + 1;
    }
    proof {
        assert(r@ =~= v@);
    }
    r
}

/// Weighted sum flowing into neuron `j` of the next layer, over the first
/// `k` neurons of the current layer.
pub open spec fn pre_sum(act: Seq<int>, w: Seq<Seq<int>>, j: int, k: int) -> int
    decreases k,
{
    if k <= 0 {
        0
    } else {
        fx_add_spec(pre_sum(act, w, j, k - 1), fx_mul_spec(act[k - 1], w[k - 1][j]))
    }
}

/// The activation vector of the next layer: the weighted sums plus the
/// biases, passed elementwise through the activation function.
pub open spec fn layer_out(a: Activation, act: Seq<int>, w: Seq<Seq<int>>, b: Seq<int>) -> Seq<
    int,
> {
    Seq::new(
        b.len(),
        |j: int| act_apply_spec(a, fx_add_spec(pre_sum(act, w, j, act.len() as int), b[j])),
    )
}

/// The activation vector of layer `i` after a forward pass on `input`.
pub open spec fn forward_act(m: NetModel, input: Seq<int>, i: int) -> Seq<int>
    decreases i,
{
    if i <= 0 {
        input
    } else {
        layer_out(m.act, forward_act(m, input, i - 1), m.weights[i - 1], m.biases[i - 1])
    }
}

/// The model after a forward pass: every layer's activations reflect the
/// input; weights, biases and shape are untouched.
pub open spec fn forward_model(m: NetModel, input: Seq<int>) -> NetModel {
    NetModel { neurons: Seq::new(m.shape.len(), |i: int| forward_act(m, input, i)), ..m }
}

/// The output-layer activations after a forward pass on `input`.
pub open spec fn forward_output(m: NetModel, input: Seq<int>) -> Seq<int> {
    forward_act(m, input, m.shape.len() - 1)
}

/// Each layer's activation vector after a forward pass has the width the
/// shape gives it.
pub proof fn lemma_forward_act_len(m: NetModel, input: Seq<int>, i: int)
    requires
        model_wf(m),
        input.len() == m.shape[0],
        0 <= i < m.shape.len(),
    ensures
        forward_act(m, input, i).len() == m.shape[i],
    decreases i,
{
    if i > 0 {
        lemma_forward_act_len(m, input, i - 1);
    }
}

/// Every activation computed by a forward pass is representable; under the
/// sigmoid activation it lies strictly between 0 and 1.
pub proof fn lemma_forward_act_bounded(m: NetModel, input: Seq<int>, i: int)
    requires
        model_wf(m),
        1 <= i < m.shape.len(),
    ensures
        forall|j: int|
            0 <= j < forward_act(m, input, i).len() ==> entry_bounded(
                #[trigger] forward_act(m, input, i)[j],
            ),
        m.act == Activation::Sigmoid ==> forall|j: int|
            0 <= j < forward_act(m, input, i).len() ==> 0 < #[trigger] forward_act(
                m,
                input,
                i,
            )[j] < 65536,
{
    let s = forward_act(m, input, i);
    assert forall|j: int| 0 <= j < s.len() implies entry_bounded(s[j]) && (m.act
        == Activation::Sigmoid ==> 0 < s[j] < 65536) by {
        let prev = forward_act(m, input, i - 1);
        let pre = fx_add_spec(pre_sum(prev, m.weights[i - 1], j, prev.len() as int),
            m.biases[i - 1][j]);
        if m.act == Activation::Sigmoid {
            lemma_sigmoid_range(pre);
        }
    }
}

/// Forward propagation followed by reading the outputs yields a vector of
/// the output layer's width whose entries, under the sigmoid activation,
/// lie strictly between 0 and 1.
pub proof fn lemma_forward_output_range(m: NetModel, input: Seq<int>)
    requires
        model_wf(m),
        m.act == Activation::Sigmoid,
    ensures
        forall|j: int|
            0 <= j < forward_output(m, input).len() ==> 0 < #[trigger] forward_output(
                m,
                input,
            )[j] < 65536,
{
    lemma_forward_act_bounded(m, input, m.shape.len() - 1);
}

/// The output-layer error signal: the difference between the target and the
/// output, scaled elementwise by the derivative of the activation at the
/// output.
pub open spec fn out_delta(a: Activation, out: Seq<int>, target: Seq<int>) -> Seq<int> {
    Seq::new(
        out.len(),
        |j: int| fx_mul_spec(fx_sub_spec(target[j], out[j]), act_prime_spec(a, out[j])),
    )
}

/// Error flowing back into neuron `k` of a layer from the first `j` neurons
/// of the next layer, through the transpose of the forward weight matrix.
pub open spec fn back_sum(w: Seq<Seq<int>>, d: Seq<int>, k: int, j: int) -> int
    decreases j,
{
    if j <= 0 {
        0
    } else {
        fx_add_spec(back_sum(w, d, k, j - 1), fx_mul_spec(w[k][j - 1], d[j - 1]))
    }
}

/// The error signal of a hidden layer, given the next layer's error signal:
/// the backward weighted sums, scaled elementwise by the derivative of the
/// activation at this layer.
pub open spec fn hidden_delta(a: Activation, acts: Seq<int>, w: Seq<Seq<int>>, d: Seq<int>) -> Seq<
    int,
> {
    Seq::new(
        acts.len(),
        |k: int| fx_mul_spec(back_sum(w, d, k, d.len() as int), act_prime_spec(a, acts[k])),
    )
}

/// The error signal attributed to connection `c` (that is, to layer `c + 1`)
/// by backpropagation of `target` against a forward pass on `input`.
pub open spec fn delta_at(m: NetModel, input: Seq<int>, target: Seq<int>, c: int) -> Seq<int>
    decreases m.shape.len() - 2 - c,
{
    if c >= m.shape.len() - 2 {
        out_delta(m.act, forward_act(m, input, m.shape.len() - 1), target)
    } else {
        hidden_delta(
            m.act,
            forward_act(m, input, c + 1),
            m.weights[c + 1],
            delta_at(m, input, target, c + 1),
        )
    }
}

/// The weight matrix of connection `c` after one update step: each weight
/// moves by the learning rate times the outer product of this layer's
/// activations and the next layer's error signal.
pub open spec fn new_weight_mat(
    m: NetModel,
    input: Seq<int>,
    target: Seq<int>,
    lr: int,
    c: int,
) -> Seq<Seq<int>> {
    Seq::new(
        m.weights[c].len(),
        |k: int|
            Seq::new(
                m.weights[c][k].len(),
                |j: int|
                    fx_add_spec(
                        m.weights[c][k][j],
                        fx_mul_spec(
                            lr,
                            fx_mul_spec(
                                forward_act(m, input, c)[k],
                                delta_at(m, input, target, c)[j],
                            ),
                        ),
                    ),
            ),
    )
}

/// The bias vector of connection `c` after one update step: each bias moves
/// by the learning rate times the next layer's error signal.
pub open spec fn new_bias_vec(m: NetModel, input: Seq<int>, target: Seq<int>, lr: int, c: int) -> Seq<
    int,
> {
    Seq::new(
        m.biases[c].len(),
        |j: int| fx_add_spec(m.biases[c][j], fx_mul_spec(lr, delta_at(m, input, target, c)[j])),
    )
}

/// The model after one backpropagation step: a forward pass refreshes every
/// activation, and every weight and bias takes its update.
pub open spec fn backprop_model(m: NetModel, input: Seq<int>, target: Seq<int>, lr: int) -> NetModel {
    NetModel {
        weights: Seq::new(m.weights.len(), |c: int| new_weight_mat(m, input, target, lr, c)),
        biases: Seq::new(m.biases.len(), |c: int| new_bias_vec(m, input, target, lr, c)),
        neurons: forward_model(m, input).neurons,
        ..m
    }
}

/// Each error signal has the width of the layer it is attributed to.
pub proof fn lemma_delta_len(m: NetModel, input: Seq<int>, target: Seq<int>, c: int)
    requires
        model_wf(m),
        input.len() == m.shape[0],
        0 <= c <= m.shape.len() - 2,
    ensures
        delta_at(m, input, target, c).len() == m.shape[c + 1],
    decreases m.shape.len() - 2 - c,
{
    if c == m.shape.len() - 2 {
        lemma_forward_act_len(m, input, m.shape.len() - 1);
    } else {
        lemma_forward_act_len(m, input, c + 1);
        lemma_delta_len(m, input, target, c + 1);
    }
}

/// The raw lengths of a well-formed network's vectors, recovered from its
/// model.
pub proof fn lemma_raw_lens(n: Network)
    requires
        n.wf(),
    ensures
        n.neurons@.len() == n.shape@.len(),
        n.weights@.len() == n.shape@.len() - 1,
        n.biases@.len() == n.shape@.len() - 1,
        forall|t: int|
            0 <= t < n.neurons@.len() ==> (#[trigger] n.neurons@[t])@.len() == n.shape@[t],
        forall|c: int|
            0 <= c < n.weights@.len() ==> (#[trigger] n.weights@[c])@.len() == n.shape@[c],
        forall|c: int, k: int|
            0 <= c < n.weights@.len() && 0 <= k < n.weights@[c]@.len() ==> (
            #[trigger] n.weights@[c]@[k])@.len() == n.shape@[c + 1],
        forall|c: int|
            0 <= c < n.biases@.len() ==> (#[trigger] n.biases@[c])@.len() == n.shape@[c + 1],
{
    let m = n.model();
    assert forall|t: int|
        0 <= t < n.neurons@.len() implies (#[trigger] n.neurons@[t])@.len() == n.shape@[t] by {
        assert(m.neurons[t].len() == m.shape[t]);
    }
    assert forall|c: int|
        0 <= c < n.weights@.len() implies (#[trigger] n.weights@[c])@.len() == n.shape@[c] by {
        assert(m.weights[c].len() == m.shape[c]);
    }
    assert forall|c: int, k: int|
        0 <= c < n.weights@.len() && 0 <= k < n.weights@[c]@.len() implies (
    #[trigger] n.weights@[c]@[k])@.len() == n.shape@[c + 1] by {
        assert(m.weights[c][k].len() == m.shape[c + 1]);
    }
    assert forall|c: int|
        0 <= c < n.biases@.len() implies (#[trigger] n.biases@[c])@.len() == n.shape@[c + 1] by {
        assert(m.biases[c].len() == m.shape[c + 1]);
    }
}

/// One backpropagation step keeps the model well-formed.
pub proof fn lemma_backprop_model_wf(m: NetModel, input: Seq<int>, target: Seq<int>, lr: int)
    requires
        model_wf(m),
        input.len() == m.shape[0],
        forall|j: int| 0 <= j < input.len() ==> entry_bounded(#[trigger] input[j]),
    ensures
        model_wf(backprop_model(m, input, target, lr)),
{
    let bm = backprop_model(m, input, target, lr);
    assert forall|i: int| 0 <= i < bm.neurons.len() implies (#[trigger] bm.neurons[i]).len()
        == bm.shape[i] by {
        lemma_forward_act_len(m, input, i);
    }
    assert forall|i: int, j: int|
        0 <= i < bm.neurons.len() && 0 <= j < bm.neurons[i].len() implies entry_bounded(
        #[trigger] bm.neurons[i][j],
    ) by {
        if i > 0 {
            lemma_forward_act_bounded(m, input, i);
        }
    }
    assert(model_wf(bm));
}

/// The running maximum of the first `n` output activations, measured against
/// an initial baseline of zero.
pub open spec fn hi_best(s: Seq<int>, n: int) -> int
    decreases n,
{
    if n <= 0 {
        0
    } else if s[n - 1] > hi_best(s, n - 1) {
        s[n - 1]
    } else {
        hi_best(s, n - 1)
    }
}

/// The index of the first strict maximum of the first `n` output
/// activations, against an initial baseline of zero: ties keep the earlier
/// index, and a sequence with no positive entry keeps index 0.
pub open spec fn hi_idx(s: Seq<int>, n: int) -> int
    decreases n,
{
    if n <= 0 {
        0
    } else if s[n - 1] > hi_best(s, n - 1) {
        n - 1
    } else {
        hi_idx(s, n - 1)
    }
}

/// The dataset widths a training run demands: as many targets as inputs, at
/// least one example, every input as wide as the input layer and every
/// target as wide as the output layer.
pub open spec fn train_dims_ok(m: NetModel, inputs: Seq<Seq<int>>, targets: Seq<Seq<int>>) -> bool {
    &&& inputs.len() == targets.len()
    &&& inputs.len() > 0
    &&& (forall|p: int| 0 <= p < inputs.len() ==> (#[trigger] inputs[p]).len() == m.shape[0])
    &&& (forall|p: int|
        0 <= p < targets.len() ==> (#[trigger] targets[p]).len() == m.shape[m.shape.len() - 1])
}

/// The model and the accumulated cost after backpropagating the first `k`
/// examples of the dataset, in order. The cost of each example is measured
/// on the activations its own backpropagation step left behind.
pub open spec fn epoch_rec(
    m: NetModel,
    inputs: Seq<Seq<int>>,
    targets: Seq<Seq<int>>,
    lr: int,
    k: int,
) -> (NetModel, int)
    decreases k,
{
    if k <= 0 {
        (m, 0)
    } else {
        let prev = epoch_rec(m, inputs, targets, lr, k - 1);
        let m2 = backprop_model(prev.0, inputs[k - 1], targets[k - 1], lr);
        (
            m2,
            fx_add_spec(prev.1, mse_spec(m2.neurons[m2.shape.len() - 1], targets[k - 1])),
        )
    }
}

/// The model and the per-epoch mean costs after `e` full epochs of
/// single-example stochastic gradient descent over the dataset.
pub open spec fn train_rec(
    m: NetModel,
    inputs: Seq<Seq<int>>,
    targets: Seq<Seq<int>>,
    lr: int,
    e: int,
) -> (NetModel, Seq<int>)
    decreases e,
{
    if e <= 0 {
        (m, Seq::empty())
    } else {
        let prev = train_rec(m, inputs, targets, lr, e - 1);
        let ep = epoch_rec(prev.0, inputs, targets, lr, inputs.len() as int);
        (ep.0, prev.1.push(ep.1 / (inputs.len() as int)))
    }
}

/// A forward pass reads only the weights, the biases and the activation
/// function: two models that agree on them compute the same activations.
pub proof fn lemma_forward_act_params(m1: NetModel, m2: NetModel, input: Seq<int>, i: int)
    requires
        m1.act == m2.act,
        m1.weights == m2.weights,
        m1.biases == m2.biases,
    ensures
        forward_act(m1, input, i) == forward_act(m2, input, i),
    decreases i,
{
    if i > 0 {
        lemma_forward_act_params(m1, m2, input, i - 1);
    }
}

/// Forward propagation is deterministic: it does not read the activations
/// already stored, so running it a second time on the same input, with no
/// intervening change of the parameters, changes nothing and returns the
/// same outputs.
pub proof fn lemma_feed_forward_deterministic(m: NetModel, input: Seq<int>)
    ensures
        forward_model(forward_model(m, input), input) == forward_model(m, input),
        forward_output(forward_model(m, input), input) == forward_output(m, input),
{
    let fm = forward_model(m, input);
    assert forall|i: int| 0 <= i < m.shape.len() implies forward_act(fm, input, i) == forward_act(
        m,
        input,
        i,
    ) by {
        lemma_forward_act_params(fm, m, input, i);
    }
    assert(forward_model(fm, input).neurons =~~= fm.neurons);
    assert(forward_model(fm, input) =~~= fm);
    lemma_forward_act_params(fm, m, input, m.shape.len() - 1);
}

/// One backpropagation step with learning rate zero moves no weight and no
/// bias: the update is the learning rate times the gradient, and a zero step
/// size cancels it exactly.
pub proof fn lemma_backprop_zero_rate(m: NetModel, input: Seq<int>, target: Seq<int>)
    requires
        model_wf(m),
    ensures
        backprop_model(m, input, target, 0).weights == m.weights,
        backprop_model(m, input, target, 0).biases == m.biases,
{
    let bm = backprop_model(m, input, target, 0);
    assert forall|c: int| 0 <= c < m.weights.len() implies #[trigger] bm.weights[c] =~~= m.weights[c] by {
        assert forall|k: int|
            0 <= k < m.weights[c].len() implies #[trigger] new_weight_mat(m, input, target, 0, c)[k]
            =~= m.weights[c][k] by {
            assert forall|j: int|
                0 <= j < m.weights[c][k].len() implies #[trigger] new_weight_mat(
                m,
                input,
                target,
                0,
                c,
            )[k][j] == m.weights[c][k][j] by {
                let g = fx_mul_spec(forward_act(m, input, c)[k], delta_at(m, input, target, c)[j]);
                assert(0 * g == 0);
                assert(fx_mul_spec(0, g) == 0);
                assert(entry_bounded(m.weights[c][k][j]));
                assert(fx_add_spec(m.weights[c][k][j], 0) == m.weights[c][k][j]);
            }
        }
    }
    assert(bm.weights =~~= m.weights);
    assert forall|c: int| 0 <= c < m.biases.len() implies #[trigger] bm.biases[c] =~= m.biases[c] by {
        assert forall|j: int|
            0 <= j < m.biases[c].len() implies #[trigger] new_bias_vec(m, input, target, 0, c)[j]
            == m.biases[c][j] by {
            let d = delta_at(m, input, target, c)[j];
            assert(0 * d == 0);
            assert(fx_mul_spec(0, d) == 0);
            assert(entry_bounded(m.biases[c][j]));
        }
    }
    assert(bm.biases =~~= m.biases);
}

impl Network {
    /// Construct a network of the given shape: zero activations everywhere,
    /// and every weight and bias drawn independently and uniformly from
    /// `[-1, 1)`.
    pub fn new(shape: Vec<usize>, activation: Activation) -> (net: Network)
        requires
            shape@.len() >= 2,
            forall|i: int| 0 <= i < shape@.len() ==> #[trigger] shape@[i] >= 1,
        ensures
            net.wf(),
            net.shape@ == shape@,
            net.activation == activation,
            net.layers == shape@.len(),
            forall|i: int, j: int|
                0 <= i < net.model().neurons.len() && 0 <= j < net.model().neurons[i].len()
                    ==> #[trigger] net.model().neurons[i][j] == 0,
            forall|c: int, k: int, j: int|
                0 <= c < net.model().weights.len() && 0 <= k < net.model().weights[c].len() && 0
                    <= j < net.model().weights[c][k].len() ==> -FX_SCALE
                    <= #[trigger] net.model().weights[c][k][j] < FX_SCALE,
            forall|c: int, j: int|
                0 <= c < net.model().biases.len() && 0 <= j < net.model().biases[c].len()
                    ==> -FX_SCALE <= #[trigger] net.model().biases[c][j] < FX_SCALE,
    {
        let mut neurons: Vec<Vec<i64>> = Vec::new();
        let mut i: usize = 0;
        while i < shape.len()
            invariant
                i <= shape@.len(),
                neurons@.len() == i,
                forall|t: int| 0 <= t < i ==> (#[trigger] neurons@[t])@.len() == shape@[t],
                forall|t: int, j: int|
                    0 <= t < i && 0 <= j < neurons@[t]@.len() ==> #[trigger] neurons@[t]@[j] == 0,
            decreases shape@.len() - i,
        {
            neurons.push(zero_vec(shape[i]));
            i = i + 1;
        }

        let mut weights: Vec<Vec<Vec<i64>>> = Vec::new();
        let mut c: usize = 0;
        while c < shape.len() - 1
            invariant
                shape@.len() >= 2,
                c <= shape@.len() - 1,
                weights@.len() == c,
                forall|t: int| 0 <= t < c ==> (#[trigger] weights@[t])@.len() == shape@[t],
                forall|t: int, k: int|
                    0 <= t < c && 0 <= k < weights@[t]@.len() ==> (
                    #[trigger] weights@[t]@[k])@.len() == shape@[t + 1],
                forall|t: int, k: int, j: int|
                    0 <= t < c && 0 <= k < weights@[t]@.len() && 0 <= j < weights@[t]@[k]@.len()
                        ==> -FX_SCALE <= #[trigger] weights@[t]@[k]@[j] < FX_SCALE,
            decreases shape@.len() - 1 - c,
        {
            let mut w: Vec<Vec<i64>> = zero_matrix(shape[c], shape[c + 1]);
            randomise2(&mut w);
            weights.push(w);
            c = c + 1;
        }

        let mut biases: Vec<Vec<i64>> = Vec::new();
        let mut c: usize = 0;
        while c < shape.len() - 1
            invariant
                shape@.len() >= 2,
                c <= shape@.len() - 1,
                biases@.len() == c,
                forall|t: int| 0 <= t < c ==> (#[trigger] biases@[t])@.len() == shape@[t + 1],
                forall|t: int, j: int|
                    0 <= t < c && 0 <= j < biases@[t]@.len() ==> -FX_SCALE
                        <= #[trigger] biases@[t]@[j] < FX_SCALE,
            decreases shape@.len() - 1 - c,
        {
            let mut b: Vec<i64> = zero_vec(shape[c + 1]);
            randomise1(&mut b);
            biases.push(b);
            c = c + 1;
        }

        let layers: usize = shape.len();
        Network { neurons, weights, biases, activation, shape, layers }
    }

    /// Feed forward the neural network: store a copy of `input` as the
    /// input layer's activations, then propagate layer by layer, and return
    /// a copy of the output layer. An input of the wrong width is rejected
    /// and the network is left untouched.
    #[verifier::loop_isolation(false)]
    pub fn feed_forward(&mut self, input: &Vec<i64>) -> (result: Result<Vec<i64>, NnError>)
        requires
            old(self).wf(),
        ensures
            final(self).wf(),
            final(self).layers == old(self).layers,
            final(self).shape == old(self).shape,
            final(self).activation == old(self).activation,
            input@.len() == old(self).shape@[0] ==> ({
                &&& result is Ok
                &&& final(self).model() == forward_model(old(self).model(), vview(input@))
                &&& vview(result->Ok_0@) == forward_output(old(self).model(), vview(input@))
            }),
            input@.len() != old(self).shape@[0] ==> ({
                &&& result is Err
                &&& result->Err_0 == NnError::DimensionMismatch
                &&& *final(self) == *old(self)
            }),
    {
        if input.len() != self.shape[0] {
            return Err(NnError::DimensionMismatch);
        }
        let ghost m0 = old(self).model();
        let ghost inp = vview(input@);

        proof {
            assert forall|t: int|
                0 <= t < self.neurons@.len() implies (#[trigger] self.neurons@[t])@.len()
                == self.shape@[t] by {
                assert(m0.neurons[t].len() == m0.shape[t]);
            }
        }
        let first: Vec<i64> = copy_vec(input);
        self.neurons.set(0, first);
        proof {
            assert(m2view(self.neurons@)[0] == vview(input@));
        }

        let mut i: usize = 0;
        while i < self.layers - 1
            invariant
                i <= self.layers - 1,
                self.layers == old(self).layers,
                self.shape == old(self).shape,
                self.weights == old(self).weights,
                self.biases == old(self).biases,
                self.activation == old(self).activation,
                self.neurons@.len() == old(self).neurons@.len(),
                forall|t: int|
                    0 <= t < self.neurons@.len() ==> (#[trigger] self.neurons@[t])@.len()
                        == self.shape@[t],
                forall|t: int| 0 <= t <= i ==> m2view(self.neurons@)[t] == forward_act(m0, inp, t),
            decreases self.layers - 1 - i,
        {
            let ghost acts_i = forward_act(m0, inp, i as int);
            let ghost wi = m0.weights[i as int];
            let ghost bi = m0.biases[i as int];
            let width_next: usize = self.shape[i + 1];
            let width_cur: usize = self.shape[i];
            proof {
                lemma_forward_act_len(m0, inp, i as int);
                assert(acts_i == m2view(self.neurons@)[i as int]);
                assert(acts_i.len() == width_cur);
                assert(m0.weights[i as int].len() == m0.shape[i as int]);
                assert(m0.biases[i as int].len() == m0.shape[i as int + 1]);
                assert(wi == m2view(self.weights@[i as int]@));
                assert(bi == vview(self.biases@[i as int]@));
                assert(bi.len() == width_next);
                assert forall|k: int|
                    0 <= k < width_cur implies (#[trigger] self.weights@[i as int]@[k])@.len()
                    == width_next by {
                    assert(m0.weights[i as int][k].len() == m0.shape[i as int + 1]);
                }
            }
            let mut next: Vec<i64> = Vec::new();
            let mut j: usize = 0;
            while j < width_next
                invariant
                    j <= width_next,
                    next@.len() == j,
                    forall|u: int|
                        0 <= u < j ==> vview(next@)[u] == layer_out(m0.act, acts_i, wi, bi)[u],
                decreases width_next - j,
            {
                let mut acc: i64 = 0;
                let mut k: usize = 0;
                while k < width_cur
                    invariant
                        k <= width_cur,
                        j < width_next,
                        acc as int == pre_sum(acts_i, wi, j as int, k as int),
                    decreases width_cur - k,
                {
                    proof {
                        assert(acts_i[k as int] == self.neurons@[i as int]@[k as int] as int);
                        assert(wi[k as int][j as int] == self.weights@[i as int]@[k as int]@[j as int] as int);
                    }
                    acc = fx_add(acc, fx_mul(self.neurons[i][k], self.weights[i][k][j]));
                    k = k + 1;
                }
                let pre: i64 = fx_add(acc, self.biases[i][j]);
                let ghost next0 = next@;
                next.push(act_apply(self.activation, pre));
                proof {
                    assert(layer_out(m0.act, acts_i, wi, bi)[j as int] == act_apply_spec(
                        m0.act,
                        fx_add_spec(pre_sum(acts_i, wi, j as int, acts_i.len() as int), bi[j as int]),
                    ));
                    assert forall|u: int|
                        0 <= u < j + 1 implies vview(next@)[u] == layer_out(
                        m0.act,
                        acts_i,
                        wi,
                        bi,
                    )[u] by {
                        if u < j as int {
                            assert(vview(next0)[u] == layer_out(m0.act, acts_i, wi, bi)[u]);
                            assert(next@[u] == next0[u]);
                        } else {
                            assert(vview(next@)[u] == act_apply_spec(m0.act, pre as int));
                        }
                    }
                }
                j = j + 1;
            }
            proof {
                assert(vview(next@) =~= layer_out(m0.act, acts_i, wi, bi));
            }
            self.neurons.set(i + 1, next);
            proof {
                assert(forward_act(m0, inp, i as int + 1) == layer_out(m0.act, acts_i, wi, bi));
                assert(m2view(self.neurons@)[i as int + 1] == vview(next@));
            }
            i = i + 1;
        }
        proof {
            let mf = self.model();
            assert forall|t: int|
                0 <= t < mf.neurons.len() implies (#[trigger] mf.neurons[t]).len()
                == mf.shape[t] by {
                assert(mf.neurons[t] == vview(self.neurons@[t]@));
            }
            assert(model_wf(mf));
            assert(mf.neurons =~~= forward_model(m0, inp).neurons);
            assert(mf =~~= forward_model(m0, inp));
        }
        Ok(self.get_outputs())
    }

    /// Get a copy of the current output-layer activations.
    pub fn get_outputs(&self) -> (out: Vec<i64>)
        requires
            self.wf(),
        ensures
            vview(out@) == self.model().neurons[self.model().shape.len() - 1],
            out@.len() == self.shape@[self.shape@.len() - 1],
    {
        let out: Vec<i64> = copy_vec(&self.neurons[self.layers - 1]);
        proof {
            assert(self.model().neurons[self.model().shape.len() - 1] == vview(
                self.neurons@[self.layers - 1]@,
            ));
        }
        out
    }

    /// Perform one backpropagation step on a single example: run a forward
    /// pass on `input`, compute every layer's error signal against `target`
    /// (propagating through the transpose of each forward weight matrix),
    /// and move every weight and bias by the learning rate times its
    /// gradient. A vector of the wrong width is rejected and the network is
    /// left untouched.
    #[verifier::loop_isolation(false)]
    pub fn backpropagate(
        &mut self,
        input: &Vec<i64>,
        target: &Vec<i64>,
        learning_rate: i64,
    ) -> (result: Result<(), NnError>)
        requires
            old(self).wf(),
        ensures
            final(self).wf(),
            final(self).layers == old(self).layers,
            final(self).shape == old(self).shape,
            final(self).activation == old(self).activation,
            (input@.len() == old(self).shape@[0] && target@.len() == old(self).shape@[old(
                self,
            ).shape@.len() - 1]) ==> ({
                &&& result is Ok
                &&& final(self).model() == backprop_model(
                    old(self).model(),
                    vview(input@),
                    vview(target@),
                    learning_rate as int,
                )
            }),
            !(input@.len() == old(self).shape@[0] && target@.len() == old(self).shape@[old(
                self,
            ).shape@.len() - 1]) ==> ({
                &&& result is Err
                &&& result->Err_0 == NnError::DimensionMismatch
                &&& *final(self) == *old(self)
            }),
    {
        if input.len() != self.shape[0] || target.len() != self.shape[self.layers - 1] {
            return Err(NnError::DimensionMismatch);
        }
        let ghost m0 = old(self).model();
        let ghost inp = vview(input@);
        let ghost tgt = vview(target@);
        let ghost lr = learning_rate as int;

        let _ = self.feed_forward(input);
        proof {
            lemma_raw_lens(*self);
        }
        let ghost neurons_ff = self.neurons@;
        let ghost biases_ff = self.biases@;
        let lm1: usize = self.layers - 1;

        // Output-layer error signal.
        let owidth: usize = self.shape[self.layers - 1];
        let ghost outs = forward_act(m0, inp, m0.shape.len() - 1);
        proof {
            assert(outs == m2view(self.neurons@)[(self.layers - 1) as int]);
            lemma_forward_act_len(m0, inp, m0.shape.len() - 1);
        }
        let mut dout: Vec<i64> = Vec::new();
        let mut j: usize = 0;
        while j < owidth
            invariant
                j <= owidth,
                dout@.len() == j,
                forall|u: int| 0 <= u < j ==> vview(dout@)[u] == out_delta(m0.act, outs, tgt)[u],
            decreases owidth - j,
        {
            let o: i64 = self.neurons[self.layers - 1][j];
            let ghost dout0 = dout@;
            dout.push(fx_mul(fx_sub(target[j], o), act_prime(self.activation, o)));
            proof {
                assert(outs[j as int] == o as int);
                assert(tgt[j as int] == target@[j as int] as int);
                assert forall|u: int|
                    0 <= u < j + 1 implies vview(dout@)[u] == out_delta(m0.act, outs, tgt)[u] by {
                    if u < j as int {
                        assert(vview(dout0)[u] == out_delta(m0.act, outs, tgt)[u]);
                        assert(dout@[u] == dout0[u]);
                    }
                }
            }
            j = j + 1;
        }
        proof {
            assert(vview(dout@) =~= out_delta(m0.act, outs, tgt));
            assert(vview(dout@) == delta_at(m0, inp, tgt, (lm1 - 1) as int));
        }

        // Error signals of the hidden layers, computed backward.
        let mut deltas: Vec<Vec<i64>> = Vec::new();
        let mut c: usize = 0;
        while c < lm1
            invariant
                c <= lm1,
                deltas@.len() == c,
            decreases lm1 - c,
        {
            deltas.push(Vec::new());
            c = c + 1;
        }
        deltas.set(lm1 - 1, dout);

        let mut c: usize = lm1 - 1;
        while c > 0
            invariant
                c <= lm1 - 1,
                deltas@.len() == lm1,
                forall|t: int|
                    c <= t <= lm1 - 1 ==> vview(#[trigger] deltas@[t]@) == delta_at(
                        m0,
                        inp,
                        tgt,
                        t,
                    ),
            decreases c,
        {
            let ghost dnext = delta_at(m0, inp, tgt, c as int);
            let ghost acts_c = forward_act(m0, inp, c as int);
            let ghost wc = m0.weights[c as int];
            proof {
                lemma_delta_len(m0, inp, tgt, c as int);
                lemma_forward_act_len(m0, inp, c as int);
                assert(dnext == vview(deltas@[c as int]@));
                assert(acts_c == m2view(self.neurons@)[c as int]);
                assert(m0.weights[c as int].len() == m0.shape[c as int]);
                assert(wc == m2view(self.weights@[c as int]@));
                assert forall|k: int|
                    0 <= k < m0.shape[c as int] implies (
                #[trigger] self.weights@[c as int]@[k])@.len() == m0.shape[c as int + 1] by {
                    assert(m0.weights[c as int][k].len() == m0.shape[c as int + 1]);
                }
            }
            let wcur: usize = self.shape[c];
            let wnext: usize = self.shape[c + 1];
            let mut dprev: Vec<i64> = Vec::new();
            let mut k: usize = 0;
            while k < wcur
                invariant
                    k <= wcur,
                    dprev@.len() == k,
                    forall|u: int|
                        0 <= u < k ==> vview(dprev@)[u] == hidden_delta(m0.act, acts_c, wc, dnext)[u],
                decreases wcur - k,
            {
                let mut acc: i64 = 0;
                let mut j: usize = 0;
                while j < wnext
                    invariant
                        j <= wnext,
                        k < wcur,
                        acc as int == back_sum(wc, dnext, k as int, j as int),
                    decreases wnext - j,
                {
                    proof {
                        assert(wc[k as int][j as int] == self.weights@[c as int]@[k as int]@[j as int] as int);
                        assert(dnext[j as int] == deltas@[c as int]@[j as int] as int);
                    }
                    acc = fx_add(acc, fx_mul(self.weights[c][k][j], deltas[c][j]));
                    j = j + 1;
                }
                let a: i64 = self.neurons[c][k];
                let ghost dprev0 = dprev@;
                dprev.push(fx_mul(acc, act_prime(self.activation, a)));
                proof {
                    assert(acts_c[k as int] == a as int);
                    assert(dnext.len() == wnext);
                    assert forall|u: int|
                        0 <= u < k + 1 implies vview(dprev@)[u] == hidden_delta(
                        m0.act,
                        acts_c,
                        wc,
                        dnext,
                    )[u] by {
                        if u < k as int {
                            assert(vview(dprev0)[u] == hidden_delta(m0.act, acts_c, wc, dnext)[u]);
                            assert(dprev@[u] == dprev0[u]);
                        }
                    }
                }
                k = k + 1;
            }
            let ghost deltas0 = deltas@;
            proof {
                assert(vview(dprev@) =~= hidden_delta(m0.act, acts_c, wc, dnext));
                assert(vview(dprev@) == delta_at(m0, inp, tgt, c as int - 1));
            }
            deltas.set(c - 1, dprev);
            proof {
                assert forall|t: int|
                    c - 1 <= t <= lm1 - 1 implies vview(#[trigger] deltas@[t]@) == delta_at(
                    m0,
                    inp,
                    tgt,
                    t,
                ) by {
                    if t >= c {
                        assert(deltas@[t] == deltas0[t]);
                        assert(vview(deltas0[t]@) == delta_at(m0, inp, tgt, t));
                    }
                }
            }
            c = c - 1;
        }

        // Update every weight matrix.
        let mut c: usize = 0;
        while c < lm1
            invariant
                c <= lm1,
                self.layers == old(self).layers,
                self.shape == old(self).shape,
                self.activation == old(self).activation,
                self.neurons@ == neurons_ff,
                self.biases@ == biases_ff,
                self.weights@.len() == lm1,
                deltas@.len() == lm1,
                forall|t: int|
                    0 <= t <= lm1 - 1 ==> vview(#[trigger] deltas@[t]@) == delta_at(
                        m0,
                        inp,
                        tgt,
                        t,
                    ),
                forall|t: int| c <= t < lm1 ==> #[trigger] m3view(self.weights@)[t] == m0.weights[t],
                forall|t: int|
                    0 <= t < c ==> #[trigger] m3view(self.weights@)[t] == new_weight_mat(
                        m0,
                        inp,
                        tgt,
                        lr,
                        t,
                    ),
            decreases lm1 - c,
        {
            let ghost wc = m0.weights[c as int];
            let ghost dc = delta_at(m0, inp, tgt, c as int);
            let ghost ac = forward_act(m0, inp, c as int);
            proof {
                lemma_delta_len(m0, inp, tgt, c as int);
                lemma_forward_act_len(m0, inp, c as int);
                assert(dc == vview(deltas@[c as int]@));
                assert(ac == m2view(self.neurons@)[c as int]);
                assert(m0.weights[c as int].len() == m0.shape[c as int]);
                assert(m3view(self.weights@)[c as int] == m0.weights[c as int]);
                assert(wc == m2view(self.weights@[c as int]@));
                assert forall|k: int|
                    0 <= k < m0.shape[c as int] implies (
                #[trigger] self.weights@[c as int]@[k])@.len() == m0.shape[c as int + 1] by {
                    assert(m0.weights[c as int][k].len() == m0.shape[c as int + 1]);
                }
            }
            let rows: usize = self.shape[c];
            let cols: usize = self.shape[c + 1];
            let ghost nwm = new_weight_mat(m0, inp, tgt, lr, c as int);
            let mut neww: Vec<Vec<i64>> = Vec::new();
            let mut k: usize = 0;
            while k < rows
                invariant
                    k <= rows,
                    neww@.len() == k,
                    forall|u: int| 0 <= u < k ==> #[trigger] m2view(neww@)[u] == nwm[u],
                decreases rows - k,
            {
                let mut row: Vec<i64> = Vec::new();
                let mut j: usize = 0;
                while j < cols
                    invariant
                        j <= cols,
                        k < rows,
                        row@.len() == j,
                        forall|u: int| 0 <= u < j ==> vview(row@)[u] == nwm[k as int][u],
                    decreases cols - j,
                {
                    proof {
                        assert(wc[k as int][j as int] == self.weights@[c as int]@[k as int]@[j as int] as int);
                        assert(ac[k as int] == self.neurons@[c as int]@[k as int] as int);
                        assert(dc[j as int] == deltas@[c as int]@[j as int] as int);
                    }
                    let ghost row0 = row@;
                    row.push(
                        fx_add(
                            self.weights[c][k][j],
                            fx_mul(learning_rate, fx_mul(self.neurons[c][k], deltas[c][j])),
                        ),
                    );
                    proof {
                        assert forall|u: int|
                            0 <= u < j + 1 implies vview(row@)[u] == nwm[k as int][u] by {
                            if u < j as int {
                                assert(vview(row0)[u] == nwm[k as int][u]);
                                assert(row@[u] == row0[u]);
                            }
                        }
                    }
                    j = j + 1;
                }
                let ghost neww0 = neww@;
                proof {
                    assert(vview(row@) =~= nwm[k as int]);
                }
                neww.push(row);
                proof {
                    assert forall|u: int|
                        0 <= u < k + 1 implies #[trigger] m2view(neww@)[u] == nwm[u] by {
                        if u < k as int {
                            assert(m2view(neww0)[u] == nwm[u]);
                            assert(neww@[u] == neww0[u]);
                        }
                    }
                }
                k = k + 1;
            }
            let ghost weights0 = self.weights@;
            proof {
                assert(m2view(neww@) =~= nwm);
            }
            self.weights.set(c, neww);
            proof {
                assert forall|t: int|
                    0 <= t < lm1 implies #[trigger] m3view(self.weights@)[t] == (if t <= c {
                    if t < c {
                        new_weight_mat(m0, inp, tgt, lr, t)
                    } else {
                        nwm
                    }
                } else {
                    m0.weights[t]
                }) by {
                    if t != c {
                        assert(self.weights@[t] == weights0[t]);
                        assert(m3view(weights0)[t] == m2view(weights0[t]@));
                    }
                }
            }
            c = c + 1;
        }

        // Update every bias vector.
        let ghost weights_done = self.weights@;
        let mut c: usize = 0;
        while c < lm1
            invariant
                c <= lm1,
                self.layers == old(self).layers,
                self.shape == old(self).shape,
                self.activation == old(self).activation,
                self.neurons@ == neurons_ff,
                self.weights@ == weights_done,
                self.biases@.len() == lm1,
                deltas@.len() == lm1,
                forall|t: int|
                    0 <= t <= lm1 - 1 ==> vview(#[trigger] deltas@[t]@) == delta_at(
                        m0,
                        inp,
                        tgt,
                        t,
                    ),
                forall|t: int| c <= t < lm1 ==> #[trigger] m2view(self.biases@)[t] == m0.biases[t],
                forall|t: int|
                    0 <= t < c ==> #[trigger] m2view(self.biases@)[t] == new_bias_vec(
                        m0,
                        inp,
                        tgt,
                        lr,
                        t,
                    ),
            decreases lm1 - c,
        {
            let ghost dc = delta_at(m0, inp, tgt, c as int);
            proof {
                lemma_delta_len(m0, inp, tgt, c as int);
                assert(dc == vview(deltas@[c as int]@));
                assert(m0.biases[c as int].len() == m0.shape[c as int + 1]);
                assert(m2view(self.biases@)[c as int] == m0.biases[c as int]);
                assert(m0.biases[c as int] == vview(self.biases@[c as int]@));
            }
            let cols: usize = self.shape[c + 1];
            let ghost nbv = new_bias_vec(m0, inp, tgt, lr, c as int);
            let mut newb: Vec<i64> = Vec::new();
            let mut j: usize = 0;
            while j < cols
                invariant
                    j <= cols,
                    newb@.len() == j,
                    forall|u: int| 0 <= u < j ==> vview(newb@)[u] == nbv[u],
                decreases cols - j,
            {
                proof {
                    assert(m0.biases[c as int][j as int] == self.biases@[c as int]@[j as int] as int);
                    assert(dc[j as int] == deltas@[c as int]@[j as int] as int);
                }
                let ghost newb0 = newb@;
                newb.push(fx_add(self.biases[c][j], fx_mul(learning_rate, deltas[c][j])));
                proof {
                    assert forall|u: int| 0 <= u < j + 1 implies vview(newb@)[u] == nbv[u] by {
                        if u < j as int {
                            assert(vview(newb0)[u] == nbv[u]);
                            assert(newb@[u] == newb0[u]);
                        }
                    }
                }
                j = j + 1;
            }
            let ghost biases0 = self.biases@;
            proof {
                assert(vview(newb@) =~= nbv);
            }
            self.biases.set(c, newb);
            proof {
                assert forall|t: int|
                    0 <= t < lm1 implies #[trigger] m2view(self.biases@)[t] == (if t < c {
                    new_bias_vec(m0, inp, tgt, lr, t)
                } else if t == c {
                    nbv
                } else {
                    m0.biases[t]
                }) by {
                    if t != c {
                        assert(self.biases@[t] == biases0[t]);
                        assert(m2view(biases0)[t] == vview(biases0[t]@));
                    }
                }
            }
            c = c + 1;
        }

        proof {
            let bm = backprop_model(m0, inp, tgt, lr);
            assert(self.model().weights =~~= bm.weights);
            assert(self.model().biases =~~= bm.biases);
            assert(self.model().neurons == forward_model(m0, inp).neurons);
            assert(self.model() =~~= bm);
            assert forall|u: int| 0 <= u < inp.len() implies entry_bounded(#[trigger] inp[u]) by {
                assert(inp[u] == input@[u] as int);
            }
            lemma_backprop_model_wf(m0, inp, tgt, lr);
        }
        Ok(())
    }

    /// Get the index of the output neuron with the strictly greatest
    /// activation, scanning in ascending index order from a baseline of
    /// zero: ties keep the earlier index, and an output layer with no
    /// positive activation gives index 0.
    #[verifier::loop_isolation(false)]
    pub fn get_highest_output_index(&self) -> (r: usize)
        requires
            self.wf(),
        ensures
            r as int == hi_idx(
                self.model().neurons[self.model().shape.len() - 1],
                self.model().neurons[self.model().shape.len() - 1].len() as int,
            ),
            r < self.model().neurons[self.model().shape.len() - 1].len(),
    {
        let ghost outs = self.model().neurons[self.model().shape.len() - 1];
        let n: usize = self.shape[self.layers - 1];
        proof {
            assert(outs == vview(self.neurons@[(self.layers - 1) as int]@));
            assert(outs.len() == n);
        }
        let mut best: i64 = 0;
        let mut idx: usize = 0;
        let mut i: usize = 0;
        while i < n
            invariant
                i <= n,
                best as int == hi_best(outs, i as int),
                idx as int == hi_idx(outs, i as int),
                idx < n,
            decreases n - i,
        {
            let v: i64 = self.neurons[self.layers - 1][i];
            proof {
                assert(outs[i as int] == v as int);
            }
            if v > best {
                best = v;
                idx = i;
            }
            i = i + 1;
        }
        idx
    }

    /// Mean squared error between the current output activations and the
    /// given target vector. A target of the wrong width is rejected.
    pub fn get_cost(&self, target: &Vec<i64>) -> (r: Result<i64, NnError>)
        requires
            self.wf(),
        ensures
            target@.len() == self.shape@[self.shape@.len() - 1] ==> ({
                &&& r is Ok
                &&& r->Ok_0 as int == mse_spec(
                    self.model().neurons[self.model().shape.len() - 1],
                    vview(target@),
                )
                &&& r->Ok_0 >= 0
            }),
            target@.len() != self.shape@[self.shape@.len() - 1] ==> ({
                &&& r is Err
                &&& r->Err_0 == NnError::DimensionMismatch
            }),
    {
        if target.len() != self.shape[self.layers - 1] {
            return Err(NnError::DimensionMismatch);
        }
        let out_row: &Vec<i64> = &self.neurons[self.layers - 1];
        proof {
            assert(self.model().neurons[self.model().shape.len() - 1] == vview(out_row@));
            assert(self.model().neurons[self.model().shape.len() - 1].len()
                == self.model().shape[self.model().shape.len() - 1]);
        }
        Ok(mse(out_row, target))
    }

    /// Train the network: for each epoch, backpropagate every (input,
    /// target) pair in order (single-example stochastic gradient descent),
    /// and record the epoch's mean per-example cost for progress reporting.
    /// Returns one mean cost per epoch. A dataset whose vectors do not match
    /// the network's widths, or with no examples, is rejected and the
    /// network is left untouched.
    #[verifier::loop_isolation(false)]
    pub fn train(
        &mut self,
        inputs: &Vec<Vec<i64>>,
        targets: &Vec<Vec<i64>>,
        learning_rate: i64,
        epochs: usize,
    ) -> (result: Result<Vec<i64>, NnError>)
        requires
            old(self).wf(),
        ensures
            final(self).wf(),
            final(self).layers == old(self).layers,
            final(self).shape == old(self).shape,
            final(self).activation == old(self).activation,
            train_dims_ok(old(self).model(), m2view(inputs@), m2view(targets@)) ==> ({
                &&& result is Ok
                &&& final(self).model() == train_rec(
                    old(self).model(),
                    m2view(inputs@),
                    m2view(targets@),
                    learning_rate as int,
                    epochs as int,
                ).0
                &&& vview(result->Ok_0@) == train_rec(
                    old(self).model(),
                    m2view(inputs@),
                    m2view(targets@),
                    learning_rate as int,
                    epochs as int,
                ).1
            }),
            !train_dims_ok(old(self).model(), m2view(inputs@), m2view(targets@)) ==> ({
                &&& result is Err
                &&& result->Err_0 == NnError::DimensionMismatch
                &&& *final(self) == *old(self)
            }),
    {
        let ghost m0 = old(self).model();
        let ghost inps = m2view(inputs@);
        let ghost tgts = m2view(targets@);
        let ghost lr = learning_rate as int;

        let n: usize = inputs.len();
        if n != targets.len() || n == 0 {
            return Err(NnError::DimensionMismatch);
        }
        let mut p: usize = 0;
        while p < n
            invariant
                p <= n,
                forall|q: int| 0 <= q < p ==> (#[trigger] inputs@[q])@.len() == self.shape@[0],
                forall|q: int|
                    0 <= q < p ==> (#[trigger] targets@[q])@.len() == self.shape@[self.shape@.len()
                        - 1],
            decreases n - p,
        {
            if inputs[p].len() != self.shape[0] || targets[p].len() != self.shape[self.layers
                - 1] {
                proof {
                    assert(inps[p as int].len() == inputs@[p as int]@.len());
                    assert(tgts[p as int].len() == targets@[p as int]@.len());
                    assert(!train_dims_ok(m0, inps, tgts));
                }
                return Err(NnError::DimensionMismatch);
            }
            p = p + 1;
        }
        proof {
            assert forall|q: int| 0 <= q < inps.len() implies (#[trigger] inps[q]).len()
                == m0.shape[0] by {
                assert(inputs@[q]@.len() == self.shape@[0]);
            }
            assert forall|q: int| 0 <= q < tgts.len() implies (#[trigger] tgts[q]).len()
                == m0.shape[m0.shape.len() - 1] by {
                assert(targets@[q]@.len() == self.shape@[self.shape@.len() - 1]);
            }
            assert(train_dims_ok(m0, inps, tgts));
        }

        let mut costs: Vec<i64> = Vec::new();
        let mut e: usize = 0;
        while e < epochs
            invariant
                e <= epochs,
                costs@.len() == e,
                self.layers == old(self).layers,
                self.shape == old(self).shape,
                self.activation == old(self).activation,
                self.wf(),
                self.model() == train_rec(m0, inps, tgts, lr, e as int).0,
                vview(costs@) == train_rec(m0, inps, tgts, lr, e as int).1,
            decreases epochs - e,
        {
            let ghost me = self.model();
            let mut costsum: i64 = 0;
            let mut p: usize = 0;
            while p < n
                invariant
                    p <= n,
                    self.layers == old(self).layers,
                    self.shape == old(self).shape,
                    self.activation == old(self).activation,
                    self.wf(),
                    self.model() == epoch_rec(me, inps, tgts, lr, p as int).0,
                    costsum as int == epoch_rec(me, inps, tgts, lr, p as int).1,
                    costsum >= 0,
                decreases n - p,
            {
                proof {
                    assert(inps[p as int] == vview(inputs@[p as int]@));
                    assert(tgts[p as int] == vview(targets@[p as int]@));
                    assert(inputs@[p as int]@.len() == self.shape@[0]);
                    assert(targets@[p as int]@.len() == self.shape@[self.shape@.len() - 1]);
                }
                let _ = self.backpropagate(&inputs[p], &targets[p], learning_rate);
                let gc = self.get_cost(&targets[p]);
                match gc {
                    Ok(v) => {
                        costsum = fx_add(costsum, v);
                    },
                    Err(_) => {},
                }
                p = p + 1;
            }
            let nu: u64 = n as u64;
            proof {
                lemma_div_pos_is_pos(costsum as int, nu as int);
                lemma_div_is_ordered_by_denominator(costsum as int, 1, nu as int);
            }
            let ec: i64 = ((costsum as u64) / nu) as i64;
            let ghost costs0 = costs@;
            costs.push(ec);
            proof {
                assert(ec as int == epoch_rec(me, inps, tgts, lr, n as int).1 / (inps.len() as int));
                assert forall|u: int|
                    0 <= u < e + 1 implies vview(costs@)[u] == train_rec(
                    m0,
                    inps,
                    tgts,
                    lr,
                    e as int + 1,
                ).1[u] by {
                    if u < e as int {
                        assert(vview(costs0)[u] == train_rec(m0, inps, tgts, lr, e as int).1[u]);
                        assert(costs@[u] == costs0[u]);
                    }
                }
                assert(vview(costs@) =~= train_rec(m0, inps, tgts, lr, e as int + 1).1);
            }
            e = e + 1;
        }
        Ok(costs)
    }
}

} // verus!
