//! The network: neurons, layers, topology, forward propagation and
//! backpropagation with per-sample gradient descent.
//!
//! All scalars are single-precision bit patterns (see `scalar`); every
//! contract states the exact code computed, as a composition of the named
//! arithmetic operations in the order the algorithm performs them.

use crate::scalar::{
    code_gt_zero, f32_of_usize, f32_of_usize_c, fadd, fadd_c, fdiv, fdiv_c, fmul, fmul_c, fsub,
    fsub_c, is_finite_code, is_zero_code, relu, relu_code, relu_derivative, relu_derivative_code,
    POS_ZERO,
};
use crate::NetError;
use vstd::prelude::*;

verus! {

/// The mathematical image of a neuron: its weight codes, bias code, and the
/// two transient per-pass fields.
pub ghost struct NeuronView {
    pub weights: Seq<u32>,
    pub bias: u32,
    pub output: u32,
    pub delta: u32,
}

/// A neuron: a weight vector, a bias, and the transient output and delta of
/// the last forward and backward pass.
pub struct Neuron {
    pub weights: Vec<u32>,
    pub bias: u32,
    pub output: u32,
    pub delta: u32,
}

impl View for Neuron {
    type V = NeuronView;

    open spec fn view(&self) -> NeuronView {
        NeuronView { weights: self.weights@, bias: self.bias, output: self.output, delta: self.delta }
    }
}

/// A layer: an ordered collection of neurons sharing one input width.
pub struct Layer {
    pub neurons: Vec<Neuron>,
}

impl View for Layer {
    type V = Seq<NeuronView>;

    open spec fn view(&self) -> Seq<NeuronView> {
        Seq::new(self.neurons@.len(), |i: int| self.neurons@[i]@)
    }
}

/// A feed-forward network: an ordered sequence of layers.
pub struct Network {
    pub layers: Vec<Layer>,
}

impl View for Network {
    type V = Seq<Seq<NeuronView>>;

    open spec fn view(&self) -> Seq<Seq<NeuronView>> {
        Seq::new(self.layers@.len(), |l: int| self.layers@[l]@)
    }
}

/// The input width the network expects: the weight count of the first layer's
/// neurons.
pub open spec fn input_width(v: Seq<Seq<NeuronView>>) -> nat {
    v[0][0].weights.len()
}

/// The input width of layer `l`: the width of the network for the first
/// layer, the previous layer's neuron count after that.
pub open spec fn layer_in_width(v: Seq<Seq<NeuronView>>, l: int) -> nat {
    if l == 0 {
        input_width(v)
    } else {
        v[l - 1].len()
    }
}

/// Well-formedness: at least one layer, no empty layer, and every neuron's
/// weight count equal to its layer's input width.
pub open spec fn net_wf(v: Seq<Seq<NeuronView>>) -> bool {
    &&& v.len() >= 1
    &&& forall|l: int| 0 <= l < v.len() ==> #[trigger] v[l].len() >= 1
    &&& forall|l: int, i: int|
        0 <= l < v.len() && 0 <= i < v[l].len() ==> #[trigger] v[l][i].weights.len()
            == layer_in_width(v, l)
}

/// The running weighted sum of the first `k` inputs of a neuron: the code
/// accumulator starts at `+0.0` and each product is added in index order.
pub open spec fn dot_prefix(ws: Seq<u32>, acts: Seq<u32>, k: int) -> u32
    decreases k,
{
    if k <= 0 {
        POS_ZERO
    } else {
        fadd(dot_prefix(ws, acts, k - 1), fmul(ws[k - 1], acts[k - 1]))
    }
}

/// A neuron's pre-activation: its full weighted sum plus its bias.
pub open spec fn neuron_pre(n: NeuronView, acts: Seq<u32>) -> u32 {
    fadd(dot_prefix(n.weights, acts, n.weights.len() as int), n.bias)
}

/// A neuron's activation: the rectifier of its pre-activation.
pub open spec fn neuron_out(n: NeuronView, acts: Seq<u32>) -> u32 {
    relu_code(neuron_pre(n, acts))
}

/// The activations a layer produces from the activations it is fed.
pub open spec fn layer_outs(layer: Seq<NeuronView>, acts: Seq<u32>) -> Seq<u32> {
    Seq::new(layer.len(), |i: int| neuron_out(layer[i], acts))
}

/// The activations entering layer `l`: the network input for `l == 0`, else
/// the outputs of the layers before it, in order.
pub open spec fn activations_at(v: Seq<Seq<NeuronView>>, input: Seq<u32>, l: int) -> Seq<u32>
    decreases l,
{
    if l <= 0 {
        input
    } else {
        layer_outs(v[l - 1], activations_at(v, input, l - 1))
    }
}

/// What a forward pass returns: the last layer's activations.
pub open spec fn net_forward(v: Seq<Seq<NeuronView>>, input: Seq<u32>) -> Seq<u32> {
    activations_at(v, input, v.len() as int)
}

/// The network after a forward pass: every neuron's `output` overwritten with
/// its activation, everything else unchanged.
pub open spec fn forward_updated(v: Seq<Seq<NeuronView>>, input: Seq<u32>) -> Seq<Seq<NeuronView>> {
    Seq::new(
        v.len(),
        |l: int|
            Seq::new(
                v[l].len(),
                |i: int| NeuronView { output: activations_at(v, input, l + 1)[i], ..v[l][i] },
            ),
    )
}

/// The width of the network's output: the last layer's neuron count.
pub open spec fn output_width(v: Seq<Seq<NeuronView>>) -> nat {
    v[v.len() - 1].len()
}

/// The error a target code assigns to an output neuron's stored output.
pub open spec fn out_err(n: NeuronView, t: u32) -> u32 {
    fsub(t, n.output)
}

/// The running sum of squared errors over the first `k` output neurons: the
/// accumulator starts at `+0.0` and each squared error is added in order.
pub open spec fn sq_err_prefix(layer: Seq<NeuronView>, t: Seq<u32>, k: int) -> u32
    decreases k,
{
    if k <= 0 {
        POS_ZERO
    } else {
        fadd(
            sq_err_prefix(layer, t, k - 1),
            fmul(out_err(layer[k - 1], t[k - 1]), out_err(layer[k - 1], t[k - 1])),
        )
    }
}

/// The sample's mean squared error: the squared-error sum over the output
/// layer, divided once by the output width.
pub open spec fn mse_code(layer: Seq<NeuronView>, t: Seq<u32>) -> u32 {
    fdiv(sq_err_prefix(layer, t, layer.len() as int), f32_of_usize(t.len() as usize))
}

/// The running back-propagated error of neuron `i` of a layer: the weighted
/// deltas `nd` of the first `k` neurons of the next layer, added in order.
pub open spec fn back_err_prefix(next: Seq<NeuronView>, nd: Seq<u32>, i: int, k: int) -> u32
    decreases k,
{
    if k <= 0 {
        POS_ZERO
    } else {
        fadd(back_err_prefix(next, nd, i, k - 1), fmul(next[k - 1].weights[i], nd[k - 1]))
    }
}

/// The deltas the backward pass writes into layer `l`: on the output layer
/// the gated target errors, on a hidden layer the gated back-propagated
/// errors computed from the next layer's fresh deltas.
pub open spec fn new_deltas(v: Seq<Seq<NeuronView>>, t: Seq<u32>, l: int) -> Seq<u32>
    decreases v.len() - l,
{
    if l < v.len() - 1 {
        let nd = new_deltas(v, t, l + 1);
        Seq::new(
            v[l].len(),
            |i: int|
                fmul(
                    back_err_prefix(v[l + 1], nd, i, v[l + 1].len() as int),
                    relu_derivative_code(v[l][i].output),
                ),
        )
    } else {
        Seq::new(
            v[l].len(),
            |i: int| fmul(out_err(v[l][i], t[i]), relu_derivative_code(v[l][i].output)),
        )
    }
}

/// The activations the weight step feeds layer `l`: the sample input for the
/// first layer, the stored outputs of the previous layer after that.
pub open spec fn update_acts(v: Seq<Seq<NeuronView>>, x: Seq<u32>, l: int) -> Seq<u32> {
    if l == 0 {
        x
    } else {
        Seq::new(v[l - 1].len(), |i: int| v[l - 1][i].output)
    }
}

/// A neuron after the gradient step with delta `d`, input activations `acts`
/// and learning rate `lr`: each weight moves by `lr * d * acts[j]`, the bias
/// by `lr * d`, and the stored output stays.
pub open spec fn stepped_neuron(n: NeuronView, d: u32, acts: Seq<u32>, lr: u32) -> NeuronView {
    NeuronView {
        weights: Seq::new(n.weights.len(), |j: int| fadd(n.weights[j], fmul(fmul(lr, d), acts[j]))),
        bias: fadd(n.bias, fmul(lr, d)),
        output: n.output,
        delta: d,
    }
}

/// The network after one training step on the sample `(x, t)` with learning
/// rate `lr`.
pub open spec fn trained(v: Seq<Seq<NeuronView>>, x: Seq<u32>, t: Seq<u32>, lr: u32) -> Seq<
    Seq<NeuronView>,
> {
    Seq::new(
        v.len(),
        |l: int|
            Seq::new(
                v[l].len(),
                |i: int| stepped_neuron(v[l][i], new_deltas(v, t, l)[i], update_acts(v, x, l), lr),
            ),
    )
}

/// Freshly drawn parameters: every weight code finite, every bias `+0.0`.
pub open spec fn fresh_params(v: Seq<Seq<NeuronView>>) -> bool {
    &&& forall|l: int, i: int, j: int|
        0 <= l < v.len() && 0 <= i < v[l].len() && 0 <= j < v[l][i].weights.len()
            ==> is_finite_code(#[trigger] v[l][i].weights[j])
    &&& forall|l: int, i: int|
        0 <= l < v.len() && 0 <= i < v[l].len() ==> (#[trigger] v[l][i]).bias == POS_ZERO
}

/// Whether every code in a sequence denotes a zero of either sign.
pub open spec fn all_zero_codes(s: Seq<u32>) -> bool {
    forall|k: int| 0 <= k < s.len() ==> is_zero_code(#[trigger] s[k])
}

/// The total number of weights in the layers built from `sizes[..k+1]`:
/// layer `t` (fed by width `sizes[t]`) holds `sizes[t+1] * sizes[t]` weights.
pub open spec fn weight_total(sizes: Seq<usize>, k: int) -> nat
    decreases k,
{
    if k <= 0 {
        0
    } else {
        weight_total(sizes, k - 1) + (sizes[k] * sizes[k - 1]) as nat
    }
}

/// Where weight `j` of neuron `i` of layer `l` sits in the flat list of
/// drawn weight codes.
pub open spec fn flat_pos(sizes: Seq<usize>, l: int, i: int, j: int) -> int {
    weight_total(sizes, l) + i * sizes[l] + j
}

/// `weight_total` grows with its prefix length.
proof fn lemma_weight_total_mono(sizes: Seq<usize>, a: int, b: int)
    requires
        a <= b,
    ensures
        weight_total(sizes, a) <= weight_total(sizes, b),
    decreases b,
{
    if a < b && b > 0 {
        lemma_weight_total_mono(sizes, a, b - 1);
    }
}

impl Network {
    /// The topology and weight-length invariant every public method keeps.
    pub open spec fn wf(&self) -> bool {
        net_wf(self@)
    }

    /// Builds the network for `sizes`: `sizes[0]` is the input width and each
    /// later entry a layer's neuron count. The weight codes are consumed from
    /// `weight_codes` in draw order — layer by layer, neuron by neuron, index
    /// by index — and every bias, output and delta starts at `+0.0`.
    pub fn new(sizes: &Vec<usize>, weight_codes: &Vec<u32>) -> (r: Network)
        requires
            sizes@.len() >= 2,
            forall|k: int| 0 <= k < sizes@.len() ==> #[trigger] sizes@[k] >= 1,
            weight_codes@.len() == weight_total(sizes@, sizes@.len() - 1),
            forall|k: int| 0 <= k < weight_codes@.len() ==> is_finite_code(
                #[trigger] weight_codes@[k],
            ),
        ensures
            r.wf(),
            fresh_params(r@),
            r@.len() == sizes@.len() - 1,
            forall|l: int| 0 <= l < r@.len() ==> #[trigger] r@[l].len() == sizes@[l + 1],
            forall|l: int, i: int|
                0 <= l < r@.len() && 0 <= i < r@[l].len() ==> #[trigger] r@[l][i].weights.len()
                    == sizes@[l],
            forall|l: int, i: int, j: int|
                0 <= l < r@.len() && 0 <= i < r@[l].len() && 0 <= j < sizes@[l]
                    ==> #[trigger] r@[l][i].weights[j] == weight_codes@[flat_pos(sizes@, l, i, j)],
            forall|l: int, i: int|
                0 <= l < r@.len() && 0 <= i < r@[l].len() ==> (#[trigger] r@[l][i]).bias == POS_ZERO
                    && r@[l][i].output == POS_ZERO && r@[l][i].delta == POS_ZERO,
    {
        let ghost s = sizes@;
        let n_codes = weight_codes.len();
        let mut layers: Vec<Layer> = Vec::new();
        let mut idx: usize = 0;
        let num_layers = sizes.len() - 1;
        let mut l: usize = 0;
        while l < num_layers
            invariant
                s == sizes@,
                s.len() >= 2,
                forall|k: int| 0 <= k < s.len() ==> #[trigger] s[k] >= 1,
                weight_codes@.len() == weight_total(s, s.len() - 1),
                forall|k: int| 0 <= k < weight_codes@.len() ==> is_finite_code(
                    #[trigger] weight_codes@[k],
                ),
                n_codes == weight_codes@.len(),
                num_layers == s.len() - 1,
                0 <= l <= num_layers,
                idx == weight_total(s, l as int),
                layers@.len() == l,
                forall|l2: int| 0 <= l2 < l ==> #[trigger] layers@[l2]@.len() == s[l2 + 1],
                forall|l2: int, i: int|
                    0 <= l2 < l && 0 <= i < layers@[l2]@.len()
                        ==> #[trigger] layers@[l2]@[i].weights.len() == s[l2],
                forall|l2: int, i: int, j: int|
                    0 <= l2 < l && 0 <= i < layers@[l2]@.len() && 0 <= j < s[l2]
                        ==> #[trigger] layers@[l2]@[i].weights[j]
                            == weight_codes@[flat_pos(s, l2, i, j)],
                forall|l2: int, i: int, j: int|
                    0 <= l2 < l && 0 <= i < layers@[l2]@.len() && 0 <= j < s[l2]
                        ==> is_finite_code(#[trigger] layers@[l2]@[i].weights[j]),
                forall|l2: int, i: int|
                    0 <= l2 < l && 0 <= i < layers@[l2]@.len()
                        ==> (#[trigger] layers@[l2]@[i]).bias == POS_ZERO
                            && layers@[l2]@[i].output == POS_ZERO
                            && layers@[l2]@[i].delta == POS_ZERO,
            decreases num_layers - l,
        {
            let prev_size = sizes[l];
            let layer_size = sizes[l + 1];
            let mut neurons: Vec<Neuron> = Vec::new();
            let mut i: usize = 0;
            proof {
                lemma_weight_total_mono(s, l + 1, s.len() - 1);
            }
            while i < layer_size
                invariant
                    s == sizes@,
                    forall|k: int| 0 <= k < s.len() ==> #[trigger] s[k] >= 1,
                    weight_codes@.len() == weight_total(s, s.len() - 1),
                    forall|k: int| 0 <= k < weight_codes@.len() ==> is_finite_code(
                        #[trigger] weight_codes@[k],
                    ),
                    n_codes == weight_codes@.len(),
                    0 <= (l as int) < s.len() - 1,
                    prev_size == s[l as int],
                    layer_size == s[l as int + 1],
                    0 <= i <= layer_size,
                    idx == flat_pos(s, l as int, i as int, 0),
                    weight_total(s, l as int + 1) <= weight_codes@.len(),
                    neurons@.len() == i,
                    forall|i2: int|
                        0 <= i2 < i ==> #[trigger] neurons@[i2]@.weights.len() == s[l as int],
                    forall|i2: int, j: int|
                        0 <= i2 < i && 0 <= j < s[l as int] ==> #[trigger] neurons@[i2]@.weights[j]
                            == weight_codes@[flat_pos(s, l as int, i2, j)],
                    forall|i2: int, j: int|
                        0 <= i2 < i && 0 <= j < s[l as int] ==> is_finite_code(
                            #[trigger] neurons@[i2]@.weights[j],
                        ),
                    forall|i2: int|
                        0 <= i2 < i ==> (#[trigger] neurons@[i2]@).bias == POS_ZERO
                            && neurons@[i2]@.output == POS_ZERO && neurons@[i2]@.delta == POS_ZERO,
                decreases layer_size - i,
            {
                proof {
                    assert((i + 1) * s[l as int] <= s[l as int + 1] * s[l as int]) by (nonlinear_arith)
                        requires i + 1 <= s[l as int + 1], s[l as int] >= 0;
                    assert(weight_total(s, l as int + 1)
                        == weight_total(s, l as int) + s[l as int + 1] * s[l as int]);
                    assert((i as int) * s[l as int] + s[l as int] == (i + 1) * s[l as int])
                        by (nonlinear_arith);
                }
                let mut weights: Vec<u32> = Vec::new();
                let mut j: usize = 0;
                while j < prev_size
                    invariant
                        s == sizes@,
                        weight_codes@.len() == weight_total(s, s.len() - 1),
                        n_codes == weight_codes@.len(),
                        0 <= (l as int) < s.len() - 1,
                        prev_size == s[l as int],
                        0 <= j <= prev_size,
                        idx == flat_pos(s, l as int, i as int, j as int),
                        flat_pos(s, l as int, i as int, 0) + s[l as int]
                            <= weight_codes@.len(),
                        weights@.len() == j,
                        forall|j2: int|
                            0 <= j2 < j ==> #[trigger] weights@[j2]
                                == weight_codes@[flat_pos(s, l as int, i as int, j2)],
                        forall|k: int| 0 <= k < weight_codes@.len() ==> is_finite_code(
                            #[trigger] weight_codes@[k],
                        ),
                        forall|j2: int| 0 <= j2 < j ==> is_finite_code(#[trigger] weights@[j2]),
                    decreases prev_size - j,
                {
                    weights.push(weight_codes[idx]);
                    idx = idx + 1;
                    j = j + 1;
                }
                neurons.push(Neuron { weights, bias: POS_ZERO, output: POS_ZERO, delta: POS_ZERO });
                i = i + 1;
            }
            let ghost nv = neurons@;
            let ghost pre = layers@;
            layers.push(Layer { neurons });
            proof {
                let ll = l as int;
                assert(layers@[ll].neurons@ == nv);
                assert forall|i2: int| 0 <= i2 < layers@[ll]@.len() implies #[trigger] layers@[ll]@[i2]
                    == nv[i2]@ by {}
                assert forall|l2: int| 0 <= l2 < ll implies #[trigger] layers@[l2] == pre[l2] by {}
                assert forall|l2: int, i2: int|
                    0 <= l2 < layers@.len() && 0 <= i2 < layers@[l2]@.len() implies (
                #[trigger] layers@[l2]@[i2]).bias == POS_ZERO && layers@[l2]@[i2].output
                    == POS_ZERO && layers@[l2]@[i2].delta == POS_ZERO by {
                    if l2 < ll {
                        assert(layers@[l2] == pre[l2]);
                        assert(pre[l2]@[i2].bias == POS_ZERO);
                    } else {
                        assert(layers@[ll]@[i2] == nv[i2]@);
                        assert(nv[i2]@.bias == POS_ZERO);
                    }
                }
            }
            l = l + 1;
        }
        let ghost lv = layers@;
        let r = Network { layers };
        proof {
            assert(r.layers@ == lv);
            assert(r@.len() == lv.len());
            assert forall|l2: int, i: int|
                0 <= l2 < r@.len() && 0 <= i < r@[l2].len() implies #[trigger] r@[l2][i]
                == lv[l2]@[i] by {}
            assert forall|l2: int| 0 <= l2 < r@.len() implies #[trigger] r@[l2].len()
                == s[l2 + 1] by {
                assert(r@[l2].len() == lv[l2]@.len());
            }
            assert forall|l2: int, i: int|
                0 <= l2 < r@.len() && 0 <= i < r@[l2].len() implies #[trigger] r@[l2][i]
                .weights.len() == s[l2] by {
                assert(r@[l2][i] == lv[l2]@[i]);
            }
            assert forall|l2: int, i: int|
                0 <= l2 < r@.len() && 0 <= i < r@[l2].len() implies (#[trigger] r@[l2][i]).bias
                == POS_ZERO && r@[l2][i].output == POS_ZERO && r@[l2][i].delta == POS_ZERO by {
                assert(r@[l2][i] == lv[l2]@[i]);
                assert(lv[l2]@[i].bias == POS_ZERO);
            }
            assert forall|l2: int, i: int, j: int|
                0 <= l2 < r@.len() && 0 <= i < r@[l2].len() && 0 <= j < s[l2]
                implies #[trigger] r@[l2][i].weights[j] == weight_codes@[flat_pos(s, l2, i, j)] by {
                assert(r@[l2][i] == lv[l2]@[i]);
                assert(lv[l2]@[i].weights[j] == weight_codes@[flat_pos(s, l2, i, j)]);
            }
            assert forall|l2: int, i: int, j: int|
                0 <= l2 < r@.len() && 0 <= i < r@[l2].len() && 0 <= j < r@[l2][i].weights.len()
                implies is_finite_code(#[trigger] r@[l2][i].weights[j]) by {
                assert(r@[l2][i] == lv[l2]@[i]);
                assert(is_finite_code(lv[l2]@[i].weights[j]));
            }
            assert forall|l2: int, i: int|
                0 <= l2 < r@.len() && 0 <= i < r@[l2].len() implies (#[trigger] r@[l2][i]).bias
                == POS_ZERO by {
                assert(r@[l2][i] == lv[l2]@[i]);
            }
            assert forall|l2: int, i: int|
                0 <= l2 < r@.len() && 0 <= i < r@[l2].len() implies #[trigger] r@[l2][i]
                .weights.len() == layer_in_width(r@, l2) by {
                assert(r@[l2][i].weights.len() == s[l2]);
                if l2 > 0 {
                    assert(r@[l2 - 1].len() == s[l2]);
                } else {
                    assert(r@[0][0].weights.len() == s[0]);
                }
            }
        }
        r
    }

    /// One forward pass: feeds `input` through the layers in order; each
    /// neuron adds up its weighted inputs and its bias, stores the rectifier
    /// of that sum in its `output` field, and the layer's outputs feed the
    /// next layer. Returns the last layer's outputs, or
    /// `DimensionMismatch` — with the network unchanged — when `input` is not
    /// the network's input width.
    ///
    /// Law: through a network with freshly drawn parameters — finite weights
    /// and `+0.0` biases, as `new` builds it — an all-zero input comes out as
    /// an all-zero output: every weighted sum of zeros is a zero code and the
    /// rectifier maps it to `+0.0` (the last `ensures` clause).
    #[verifier::loop_isolation(false)]
    pub fn forward(&mut self, input: Vec<u32>) -> (r: Result<Vec<u32>, NetError>)
        requires
            old(self).wf(),
        ensures
            final(self).wf(),
            input@.len() == input_width(old(self)@) ==> (r matches Ok(out)
                && out@ == net_forward(old(self)@, input@)
                && final(self)@ == forward_updated(old(self)@, input@)),
            input@.len() != input_width(old(self)@) ==> (r matches Err(e)
                && e == NetError::DimensionMismatch
                && *final(self) == *old(self)),
            (fresh_params(old(self)@) && all_zero_codes(input@) && input@.len() == input_width(
                old(self)@,
            )) ==> (r matches Ok(out) && forall|k: int|
                0 <= k < out@.len() ==> #[trigger] out@[k] == POS_ZERO),
    {
        proof {
            assert(self@.len() == self.layers@.len());
            assert(self@[0] == self.layers@[0]@);
            assert(self@[0][0] == self.layers@[0].neurons@[0]@);
            assert(self@[0][0].weights.len() == input_width(self@));
        }
        if input.len() != self.layers[0].neurons[0].weights.len() {
            return Err(NetError::DimensionMismatch);
        }
        let ghost v0 = self@;
        let ghost in0 = input@;
        let ghost zh = fresh_params(v0) && all_zero_codes(in0);
        let mut activations = input;
        let num_layers = self.layers.len();
        let mut l: usize = 0;
        while l < num_layers
            invariant
                net_wf(v0),
                num_layers == v0.len(),
                0 <= l <= num_layers,
                in0.len() == input_width(v0),
                self@.len() == v0.len(),
                forall|l2: int| 0 <= l2 < v0.len() ==> #[trigger] self@[l2].len() == v0[l2].len(),
                forall|l2: int, i2: int|
                    0 <= l2 < v0.len() && 0 <= i2 < v0[l2].len() ==> #[trigger] self@[l2][i2] == (
                    if l2 < l {
                        NeuronView { output: activations_at(v0, in0, l2 + 1)[i2], ..v0[l2][i2] }
                    } else {
                        v0[l2][i2]
                    }),
                activations@ == activations_at(v0, in0, l as int),
                zh ==> all_zero_codes(activations@),
                (zh && l >= 1) ==> (forall|k: int|
                    0 <= k < activations@.len() ==> #[trigger] activations@[k] == POS_ZERO),
            decreases num_layers - l,
        {
            let ghost acts_l = activations_at(v0, in0, l as int);
            proof {
                assert(acts_l.len() == layer_in_width(v0, l as int));
                assert(self@[l as int] == self.layers@[l as int]@);
            }
            let mut new_acts: Vec<u32> = Vec::new();
            let n_count = self.layers[l].neurons.len();
            let mut i: usize = 0;
            while i < n_count
                invariant
                    net_wf(v0),
                    num_layers == v0.len(),
                    0 <= (l as int) < v0.len(),
                    n_count == v0[l as int].len(),
                    0 <= i <= n_count,
                    in0.len() == input_width(v0),
                    self@.len() == v0.len(),
                    forall|l2: int| 0 <= l2 < v0.len() ==> #[trigger] self@[l2].len()
                        == v0[l2].len(),
                    forall|l2: int, i2: int|
                        0 <= l2 < v0.len() && 0 <= i2 < v0[l2].len() ==> #[trigger] self@[l2][i2]
                            == (if l2 < l || (l2 == l && i2 < i) {
                            NeuronView { output: activations_at(v0, in0, l2 + 1)[i2], ..v0[l2][i2] }
                        } else {
                            v0[l2][i2]
                        }),
                    activations@ == acts_l,
                    acts_l == activations_at(v0, in0, l as int),
                    acts_l.len() == layer_in_width(v0, l as int),
                    new_acts@.len() == i,
                    forall|i2: int| 0 <= i2 < i ==> #[trigger] new_acts@[i2] == neuron_out(
                        v0[l as int][i2],
                        acts_l,
                    ),
                    zh ==> all_zero_codes(acts_l),
                    zh ==> (forall|i2: int| 0 <= i2 < i ==> #[trigger] new_acts@[i2] == POS_ZERO),
                decreases n_count - i,
            {
                proof {
                    assert(self.layers@.len() == v0.len());
                    assert(self@[l as int] == self.layers@[l as int]@);
                    assert(self@[l as int].len() == v0[l as int].len());
                    assert(self.layers@[l as int].neurons@.len() == self@[l as int].len());
                    assert(self@[l as int][i as int] == self.layers@[l as int].neurons@[i as int]@);
                    assert(self@[l as int][i as int] == v0[l as int][i as int]);
                }
                let mut acc: u32 = POS_ZERO;
                let w_len = self.layers[l].neurons[i].weights.len();
                proof {
                    assert(v0[l as int][i as int].weights.len() == layer_in_width(v0, l as int));
                    assert(w_len == acts_l.len());
                }
                let mut j: usize = 0;
                while j < w_len
                    invariant
                        0 <= (l as int) < v0.len(),
                        0 <= (i as int) < v0[l as int].len(),
                        0 <= j <= w_len,
                        self@.len() == v0.len(),
                        0 <= (l as int) < self.layers@.len(),
                        0 <= (i as int) < self.layers@[l as int].neurons@.len(),
                        self.layers@[l as int].neurons@[i as int].weights@ == v0[l as int][i as int].weights,
                        self.layers@[l as int].neurons@[i as int].bias == v0[l as int][i as int].bias,
                        w_len == v0[l as int][i as int].weights.len(),
                        w_len == acts_l.len(),
                        activations@ == acts_l,
                        acc == dot_prefix(v0[l as int][i as int].weights, acts_l, j as int),
                        zh ==> acc == POS_ZERO,
                    decreases w_len - j,
                {
                    proof {
                        if zh {
                            assert(is_finite_code(v0[l as int][i as int].weights[j as int]));
                            assert(is_zero_code(acts_l[j as int]));
                        }
                    }
                    acc = fadd_c(acc, fmul_c(self.layers[l].neurons[i].weights[j], activations[j]));
                    j = j + 1;
                }
                proof {
                    if zh {
                        assert(v0[l as int][i as int].bias == POS_ZERO);
                    }
                }
                let pre = fadd_c(acc, self.layers[l].neurons[i].bias);
                let out = relu(pre);
                proof {
                    let n = v0[l as int][i as int];
                    assert(acc == dot_prefix(n.weights, acts_l, n.weights.len() as int));
                    assert(pre == neuron_pre(n, acts_l));
                    assert(out == neuron_out(n, acts_l));
                    if zh {
                        assert(pre == POS_ZERO);
                        assert(!code_gt_zero(POS_ZERO));
                        assert(out == POS_ZERO);
                    }
                }
                let ghost before = self@;
                let ghost bl = self.layers@;
                self.layers[l].neurons[i].output = out;
                new_acts.push(out);
                proof {
                    assert(self@.len() == v0.len());
                    assert forall|l2: int| 0 <= l2 < v0.len() implies #[trigger] self@[l2].len()
                        == v0[l2].len() by {
                        if l2 == l {
                            assert(self.layers@[l2].neurons@.len() == bl[l2].neurons@.len());
                        } else {
                            assert(self.layers@[l2] == bl[l2]);
                        }
                        assert(before[l2].len() == v0[l2].len());
                    }
                    assert forall|l2: int, i2: int|
                        0 <= l2 < v0.len() && 0 <= i2 < v0[l2].len() implies #[trigger] self@[l2][i2]
                            == (if l2 < l || (l2 == l && i2 <= i) {
                            NeuronView { output: activations_at(v0, in0, l2 + 1)[i2], ..v0[l2][i2] }
                        } else {
                            v0[l2][i2]
                        }) by {
                        if l2 == l && i2 == i {
                            assert(self@[l2][i2] == NeuronView { output: out, ..before[l2][i2] });
                            assert(activations_at(v0, in0, l2 + 1)[i2] == neuron_out(
                                v0[l2][i2],
                                acts_l,
                            ));
                        } else if l2 == l {
                            assert(self.layers@[l2].neurons@[i2] == bl[l2].neurons@[i2]);
                            assert(self@[l2][i2] == before[l2][i2]);
                        } else {
                            assert(self.layers@[l2] == bl[l2]);
                            assert(self@[l2][i2] == before[l2][i2]);
                        }
                    }
                }
                i = i + 1;
            }
            activations = new_acts;
            proof {
                assert(activations@ =~= activations_at(v0, in0, l as int + 1));
            }
            l = l + 1;
        }
        proof {
            assert(activations@ == net_forward(v0, in0));
            assert(self@ =~~= forward_updated(v0, in0));
            assert forall|l2: int, i2: int|
                0 <= l2 < self@.len() && 0 <= i2 < self@[l2].len() implies #[trigger] self@[l2][i2]
                .weights.len() == layer_in_width(self@, l2) by {
                assert(self@[l2][i2].weights == v0[l2][i2].weights);
                assert(v0[l2][i2].weights.len() == layer_in_width(v0, l2));
            }
            assert(net_wf(self@));
        }
        Ok(activations)
    }

    /// One training step on a sample: computes each output neuron's error
    /// against `targets` and the sample's mean squared error, back-propagates
    /// deltas through the hidden layers, then steps every weight and bias —
    /// front to back, feeding each layer the previous layer's stored
    /// outputs. It must follow the forward pass whose activations are still
    /// stored. Returns the mean squared error, or `DimensionMismatch` — with
    /// the network unchanged — when `inputs` or `targets` has the wrong
    /// length.
    #[verifier::loop_isolation(false)]
    #[verifier::rlimit(60)]
    pub fn train(&mut self, inputs: Vec<u32>, targets: Vec<u32>, lr: u32) -> (r: Result<
        u32,
        NetError,
    >)
        requires
            old(self).wf(),
        ensures
            final(self).wf(),
            (inputs@.len() == input_width(old(self)@) && targets@.len() == output_width(
                old(self)@,
            )) ==> (r matches Ok(mse) && mse == mse_code(old(self)@[old(self)@.len() - 1], targets@)
                && final(self)@ == trained(old(self)@, inputs@, targets@, lr)),
            !(inputs@.len() == input_width(old(self)@) && targets@.len() == output_width(
                old(self)@,
            )) ==> (r matches Err(e) && e == NetError::DimensionMismatch && *final(self) == *old(
                self,
            )),
    {
        proof {
            assert(self@.len() == self.layers@.len());
            assert(self@[0] == self.layers@[0]@);
            assert(self@[0][0] == self.layers@[0].neurons@[0]@);
            assert(self@[self@.len() - 1] == self.layers@[self@.len() - 1]@);
        }
        let last = self.layers.len() - 1;
        if inputs.len() != self.layers[0].neurons[0].weights.len() || targets.len()
            != self.layers[last].neurons.len() {
            return Err(NetError::DimensionMismatch);
        }
        let ghost v0 = self@;
        let ghost x = inputs@;
        let ghost t = targets@;
        let mut result_error: u32 = POS_ZERO;
        let n_last = self.layers[last].neurons.len();
        let mut i: usize = 0;
        while i < n_last
            invariant
                net_wf(v0),
                last == v0.len() - 1,
                n_last == v0[last as int].len(),
                0 <= i <= n_last,
                t.len() == n_last,
                self@.len() == v0.len(),
                forall|l2: int| 0 <= l2 < v0.len() ==> #[trigger] self@[l2].len() == v0[l2].len(),
                forall|l2: int, i2: int|
                    0 <= l2 < v0.len() && 0 <= i2 < v0[l2].len() ==> #[trigger] self@[l2][i2] == (
                    if l2 == last && i2 < i {
                        NeuronView { delta: new_deltas(v0, t, last as int)[i2], ..v0[l2][i2] }
                    } else {
                        v0[l2][i2]
                    }),
                result_error == sq_err_prefix(v0[last as int], t, i as int),
            decreases n_last - i,
        {
            proof {
                assert(self.layers@.len() == v0.len());
                assert(self@[last as int] == self.layers@[last as int]@);
                assert(self@[last as int].len() == v0[last as int].len());
                assert(self.layers@[last as int].neurons@.len() == self@[last as int].len());
                assert(self@[last as int][i as int]
                    == self.layers@[last as int].neurons@[i as int]@);
                assert(self@[last as int][i as int] == v0[last as int][i as int]);
            }
            let out_i = self.layers[last].neurons[i].output;
            let err = fsub_c(targets[i], out_i);
            result_error = fadd_c(result_error, fmul_c(err, err));
            let d = fmul_c(err, relu_derivative(out_i));
            let ghost before = self@;
            let ghost bl = self.layers@;
            self.layers[last].neurons[i].delta = d;
            proof {
                assert(d == new_deltas(v0, t, last as int)[i as int]);
                assert(self@.len() == v0.len());
                assert forall|l2: int| 0 <= l2 < v0.len() implies #[trigger] self@[l2].len()
                    == v0[l2].len() by {
                    if l2 == last {
                        assert(self.layers@[l2].neurons@.len() == bl[l2].neurons@.len());
                    } else {
                        assert(self.layers@[l2] == bl[l2]);
                    }
                    assert(before[l2].len() == v0[l2].len());
                }
                assert forall|l2: int, i2: int|
                    0 <= l2 < v0.len() && 0 <= i2 < v0[l2].len() implies #[trigger] self@[l2][i2]
                    == (if l2 == last && i2 <= i {
                    NeuronView { delta: new_deltas(v0, t, last as int)[i2], ..v0[l2][i2] }
                } else {
                    v0[l2][i2]
                }) by {
                    if l2 == last && i2 == i {
                        assert(self@[l2][i2] == NeuronView { delta: d, ..before[l2][i2] });
                    } else if l2 == last {
                        assert(self.layers@[l2].neurons@[i2] == bl[l2].neurons@[i2]);
                        assert(self@[l2][i2] == before[l2][i2]);
                    } else {
                        assert(self.layers@[l2] == bl[l2]);
                        assert(self@[l2][i2] == before[l2][i2]);
                    }
                }
            }
            i = i + 1;
        }
        result_error = fdiv_c(result_error, f32_of_usize_c(targets.len()));
        proof {
            assert(result_error == mse_code(v0[last as int], t));
        }
        let mut l: usize = last;
        while l > 0
            invariant
                net_wf(v0),
                last == v0.len() - 1,
                0 <= l <= last,
                t.len() == v0[last as int].len(),
                self@.len() == v0.len(),
                forall|l2: int| 0 <= l2 < v0.len() ==> #[trigger] self@[l2].len() == v0[l2].len(),
                forall|l2: int, i2: int|
                    0 <= l2 < v0.len() && 0 <= i2 < v0[l2].len() ==> #[trigger] self@[l2][i2] == (
                    if l2 >= l {
                        NeuronView { delta: new_deltas(v0, t, l2)[i2], ..v0[l2][i2] }
                    } else {
                        v0[l2][i2]
                    }),
            decreases l,
        {
            let lc = l - 1;
            let n_lc = self.layers[lc].neurons.len();
            proof {
                assert(self@[lc as int] == self.layers@[lc as int]@);
            }
            let mut i: usize = 0;
            while i < n_lc
                invariant
                    net_wf(v0),
                    last == v0.len() - 1,
                    1 <= l <= last,
                    lc == l - 1,
                    n_lc == v0[lc as int].len(),
                    0 <= i <= n_lc,
                    t.len() == v0[last as int].len(),
                    self@.len() == v0.len(),
                    forall|l2: int| 0 <= l2 < v0.len() ==> #[trigger] self@[l2].len()
                        == v0[l2].len(),
                    forall|l2: int, i2: int|
                        0 <= l2 < v0.len() && 0 <= i2 < v0[l2].len() ==> #[trigger] self@[l2][i2]
                            == (if l2 >= l || (l2 == lc && i2 < i) {
                            NeuronView { delta: new_deltas(v0, t, l2)[i2], ..v0[l2][i2] }
                        } else {
                            v0[l2][i2]
                        }),
                decreases n_lc - i,
            {
                let n_next = self.layers[l].neurons.len();
                proof {
                    assert(self@[l as int] == self.layers@[l as int]@);
                    assert(n_next == v0[l as int].len());
                }
                let mut acc: u32 = POS_ZERO;
                let mut j: usize = 0;
                while j < n_next
                    invariant
                        net_wf(v0),
                        last == v0.len() - 1,
                        1 <= l <= last,
                        lc == l - 1,
                        0 <= (i as int) < v0[lc as int].len(),
                        n_next == v0[l as int].len(),
                        0 <= j <= n_next,
                        t.len() == v0[last as int].len(),
                        self@.len() == v0.len(),
                        self.layers@.len() == v0.len(),
                        self@[l as int] == self.layers@[l as int]@,
                        self@[l as int].len() == v0[l as int].len(),
                        forall|i2: int|
                            0 <= i2 < v0[l as int].len() ==> #[trigger] self@[l as int][i2]
                                == (NeuronView {
                                delta: new_deltas(v0, t, l as int)[i2],
                                ..v0[l as int][i2]
                            }),
                        acc == back_err_prefix(
                            v0[l as int],
                            new_deltas(v0, t, l as int),
                            i as int,
                            j as int,
                        ),
                    decreases n_next - j,
                {
                    proof {
                        assert(self@[l as int][j as int]
                            == self.layers@[l as int].neurons@[j as int]@);
                        assert(v0[l as int][j as int].weights.len() == layer_in_width(v0, l as int));
                    }
                    acc = fadd_c(
                        acc,
                        fmul_c(
                            self.layers[l].neurons[j].weights[i],
                            self.layers[l].neurons[j].delta,
                        ),
                    );
                    j = j + 1;
                }
                proof {
                    assert(self.layers@.len() == v0.len());
                    assert(self@[lc as int] == self.layers@[lc as int]@);
                    assert(self@[lc as int].len() == v0[lc as int].len());
                    assert(self.layers@[lc as int].neurons@.len() == self@[lc as int].len());
                    assert(self@[lc as int][i as int]
                        == self.layers@[lc as int].neurons@[i as int]@);
                    assert(self@[lc as int][i as int] == v0[lc as int][i as int]);
                }
                let out_i = self.layers[lc].neurons[i].output;
                let d = fmul_c(acc, relu_derivative(out_i));
                let ghost before = self@;
                let ghost bl = self.layers@;
                self.layers[lc].neurons[i].delta = d;
                proof {
                    assert(d == new_deltas(v0, t, lc as int)[i as int]);
                    assert(self@.len() == v0.len());
                    assert forall|l2: int| 0 <= l2 < v0.len() implies #[trigger] self@[l2].len()
                        == v0[l2].len() by {
                        if l2 == lc {
                            assert(self.layers@[l2].neurons@.len() == bl[l2].neurons@.len());
                        } else {
                            assert(self.layers@[l2] == bl[l2]);
                        }
                        assert(before[l2].len() == v0[l2].len());
                    }
                    assert forall|l2: int, i2: int|
                        0 <= l2 < v0.len() && 0 <= i2 < v0[l2].len() implies #[trigger] self@[l2][i2]
                        == (if l2 >= l || (l2 == lc && i2 <= i) {
                        NeuronView { delta: new_deltas(v0, t, l2)[i2], ..v0[l2][i2] }
                    } else {
                        v0[l2][i2]
                    }) by {
                        if l2 == lc && i2 == i {
                            assert(self@[l2][i2] == NeuronView { delta: d, ..before[l2][i2] });
                        } else if l2 == lc {
                            assert(self.layers@[l2].neurons@[i2] == bl[l2].neurons@[i2]);
                            assert(self@[l2][i2] == before[l2][i2]);
                        } else {
                            assert(self.layers@[l2] == bl[l2]);
                            assert(self@[l2][i2] == before[l2][i2]);
                        }
                    }
                }
                i = i + 1;
            }
            l = lc;
        }
        let mut activations = inputs;
        let num_layers = self.layers.len();
        let mut l: usize = 0;
        while l < num_layers
            invariant
                net_wf(v0),
                num_layers == v0.len(),
                0 <= l <= num_layers,
                x.len() == input_width(v0),
                t.len() == v0[v0.len() - 1].len(),
                self@.len() == v0.len(),
                forall|l2: int| 0 <= l2 < v0.len() ==> #[trigger] self@[l2].len() == v0[l2].len(),
                forall|l2: int, i2: int|
                    0 <= l2 < v0.len() && 0 <= i2 < v0[l2].len() ==> #[trigger] self@[l2][i2] == (
                    if l2 < l {
                        stepped_neuron(
                            v0[l2][i2],
                            new_deltas(v0, t, l2)[i2],
                            update_acts(v0, x, l2),
                            lr,
                        )
                    } else {
                        NeuronView { delta: new_deltas(v0, t, l2)[i2], ..v0[l2][i2] }
                    }),
                activations@ == update_acts(v0, x, l as int),
            decreases num_layers - l,
        {
            let ghost acts_l = update_acts(v0, x, l as int);
            proof {
                assert(acts_l.len() == layer_in_width(v0, l as int));
                assert(self@[l as int] == self.layers@[l as int]@);
            }
            let n_count = self.layers[l].neurons.len();
            let mut i: usize = 0;
            while i < n_count
                invariant
                    net_wf(v0),
                    num_layers == v0.len(),
                    0 <= (l as int) < v0.len(),
                    n_count == v0[l as int].len(),
                    0 <= i <= n_count,
                    x.len() == input_width(v0),
                    t.len() == v0[v0.len() - 1].len(),
                    self@.len() == v0.len(),
                    forall|l2: int| 0 <= l2 < v0.len() ==> #[trigger] self@[l2].len()
                        == v0[l2].len(),
                    forall|l2: int, i2: int|
                        0 <= l2 < v0.len() && 0 <= i2 < v0[l2].len() ==> #[trigger] self@[l2][i2]
                            == (if l2 < l || (l2 == l && i2 < i) {
                            stepped_neuron(
                                v0[l2][i2],
                                new_deltas(v0, t, l2)[i2],
                                update_acts(v0, x, l2),
                                lr,
                            )
                        } else {
                            NeuronView { delta: new_deltas(v0, t, l2)[i2], ..v0[l2][i2] }
                        }),
                    activations@ == acts_l,
                    acts_l == update_acts(v0, x, l as int),
                    acts_l.len() == layer_in_width(v0, l as int),
                decreases n_count - i,
            {
                proof {
                    assert(self@[l as int] == self.layers@[l as int]@);
                    assert(self@[l as int][i as int] == self.layers@[l as int].neurons@[i as int]@);
                    assert(self@[l as int][i as int] == NeuronView {
                        delta: new_deltas(v0, t, l as int)[i as int],
                        ..v0[l as int][i as int]
                    });
                    assert(v0[l as int][i as int].weights.len() == layer_in_width(v0, l as int));
                }
                let ghost d_i = new_deltas(v0, t, l as int)[i as int];
                let dl = self.layers[l].neurons[i].delta;
                let ld = fmul_c(lr, dl);
                let w_len = self.layers[l].neurons[i].weights.len();
                let mut nw: Vec<u32> = Vec::new();
                let mut j: usize = 0;
                while j < w_len
                    invariant
                        0 <= (l as int) < v0.len(),
                        0 <= (i as int) < v0[l as int].len(),
                        0 <= j <= w_len,
                        self@.len() == v0.len(),
                        0 <= (l as int) < self.layers@.len(),
                        0 <= (i as int) < self.layers@[l as int].neurons@.len(),
                        self.layers@[l as int].neurons@[i as int].weights@
                            == v0[l as int][i as int].weights,
                        w_len == v0[l as int][i as int].weights.len(),
                        w_len == acts_l.len(),
                        activations@ == acts_l,
                        ld == fmul(lr, d_i),
                        nw@.len() == j,
                        forall|j2: int|
                            0 <= j2 < j ==> #[trigger] nw@[j2] == fadd(
                                v0[l as int][i as int].weights[j2],
                                fmul(fmul(lr, d_i), acts_l[j2]),
                            ),
                    decreases w_len - j,
                {
                    nw.push(fadd_c(self.layers[l].neurons[i].weights[j], fmul_c(ld, activations[j])));
                    j = j + 1;
                }
                let nb = fadd_c(self.layers[l].neurons[i].bias, ld);
                let ghost nwv = nw@;
                let ghost before = self@;
                let ghost bl = self.layers@;
                self.layers[l].neurons[i].weights = nw;
                self.layers[l].neurons[i].bias = nb;
                proof {
                    let sn = stepped_neuron(v0[l as int][i as int], d_i, acts_l, lr);
                    assert(nwv =~= sn.weights);
                    assert(self@[l as int][i as int] == self.layers@[l as int].neurons@[i as int]@);
                    assert(self@[l as int][i as int] == sn);
                    assert(self@.len() == v0.len());
                    assert forall|l2: int| 0 <= l2 < v0.len() implies #[trigger] self@[l2].len()
                        == v0[l2].len() by {
                        if l2 == l {
                            assert(self.layers@[l2].neurons@.len() == bl[l2].neurons@.len());
                        } else {
                            assert(self.layers@[l2] == bl[l2]);
                        }
                        assert(before[l2].len() == v0[l2].len());
                    }
                    assert forall|l2: int, i2: int|
                        0 <= l2 < v0.len() && 0 <= i2 < v0[l2].len() implies #[trigger] self@[l2][i2]
                        == (if l2 < l || (l2 == l && i2 <= i) {
                        stepped_neuron(
                            v0[l2][i2],
                            new_deltas(v0, t, l2)[i2],
                            update_acts(v0, x, l2),
                            lr,
                        )
                    } else {
                        NeuronView { delta: new_deltas(v0, t, l2)[i2], ..v0[l2][i2] }
                    }) by {
                        if l2 == l && i2 == i {
                            assert(self@[l2][i2] == sn);
                        } else if l2 == l {
                            assert(self.layers@[l2].neurons@[i2] == bl[l2].neurons@[i2]);
                            assert(self@[l2][i2] == before[l2][i2]);
                        } else {
                            assert(self.layers@[l2] == bl[l2]);
                            assert(self@[l2][i2] == before[l2][i2]);
                        }
                    }
                }
                i = i + 1;
            }
            let mut new_acts: Vec<u32> = Vec::new();
            let mut k: usize = 0;
            while k < n_count
                invariant
                    0 <= (l as int) < v0.len(),
                    n_count == v0[l as int].len(),
                    0 <= k <= n_count,
                    self@.len() == v0.len(),
                    0 <= (l as int) < self.layers@.len(),
                    self@[l as int].len() == v0[l as int].len(),
                    self@[l as int] == self.layers@[l as int]@,
                    forall|i2: int|
                        0 <= i2 < v0[l as int].len() ==> (#[trigger] self@[l as int][i2]).output
                            == v0[l as int][i2].output,
                    new_acts@.len() == k,
                    forall|k2: int|
                        0 <= k2 < k ==> #[trigger] new_acts@[k2] == v0[l as int][k2].output,
                decreases n_count - k,
            {
                proof {
                    assert(self@[l as int][k as int]
                        == self.layers@[l as int].neurons@[k as int]@);
                }
                new_acts.push(self.layers[l].neurons[k].output);
                k = k + 1;
            }
            activations = new_acts;
            proof {
                assert(activations@ =~= update_acts(v0, x, l as int + 1));
            }
            l = l + 1;
        }
        proof {
            assert(self@ =~~= trained(v0, x, t, lr));
            assert forall|l2: int, i2: int|
                0 <= l2 < self@.len() && 0 <= i2 < self@[l2].len() implies #[trigger] self@[l2][i2]
                .weights.len() == layer_in_width(self@, l2) by {
                assert(self@[l2][i2].weights.len() == v0[l2][i2].weights.len());
                assert(v0[l2][i2].weights.len() == layer_in_width(v0, l2));
            }
            assert(net_wf(self@));
        }
        Ok(result_error)
    }
}

/// One inference on an already decoded image: a forward pass whose class
/// scores the caller displays. Loading the snapshot, decoding the image and
/// drawing the bars happen outside the library.
pub fn forward_test(network: &mut Network, input: Vec<u32>) -> (r: Result<Vec<u32>, NetError>)
    requires
        old(network).wf(),
    ensures
        final(network).wf(),
        input@.len() == input_width(old(network)@) ==> (r matches Ok(out) && out@ == net_forward(
            old(network)@,
            input@,
        ) && final(network)@ == forward_updated(old(network)@, input@)),
        input@.len() != input_width(old(network)@) ==> (r matches Err(e) && e
            == NetError::DimensionMismatch && *final(network) == *old(network)),
{
    network.forward(input)
}

} // verus!
