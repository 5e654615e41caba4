//! The snapshot format: the whole network — topology and every weight, bias
//! and transient — as human-inspectable text, one number per line, each a
//! fixed-width lowercase hexadecimal scalar code or count.
//!
//! The file holds, in order: the layer count; then for each layer its neuron
//! count, its weight count, and for each neuron its weight codes, bias,
//! output and delta. `save` writes exactly `render_net` of the network;
//! `load` accepts a byte string if and only if it is the canonical rendering
//! of a well-formed network, and returns exactly that network. The snapshot
//! therefore round-trips: loading what `save` wrote gives back the network,
//! bit for bit — the two contracts compose to `load(save(n)) == n`.

use crate::net::{layer_in_width, net_wf, Layer, Network, Neuron, NeuronView};
use crate::NetError;
use vstd::prelude::*;

verus! {

/// The ASCII code of a nibble: `0`–`9` then `a`–`f`.
pub open spec fn hex_digit(n: u32) -> u8 {
    if n < 10 {
        (48 + n) as u8
    } else {
        (87 + n) as u8
    }
}

/// Whether a byte is a lowercase hexadecimal digit.
pub open spec fn is_hex_byte(b: u8) -> bool {
    (48 <= b && b <= 57) || (97 <= b && b <= 102)
}

/// The value of a lowercase hexadecimal digit byte.
pub open spec fn hex_val(b: u8) -> u32 {
    if b <= 57 {
        (b - 48) as u32
    } else {
        (b - 87) as u32
    }
}

/// One number line: eight hex digits, high nibble first, then a newline.
pub open spec fn render_u32(v: u32) -> Seq<u8> {
    seq![
        hex_digit((v >> 28u32) & 0xFu32),
        hex_digit((v >> 24u32) & 0xFu32),
        hex_digit((v >> 20u32) & 0xFu32),
        hex_digit((v >> 16u32) & 0xFu32),
        hex_digit((v >> 12u32) & 0xFu32),
        hex_digit((v >> 8u32) & 0xFu32),
        hex_digit((v >> 4u32) & 0xFu32),
        hex_digit(v & 0xFu32),
        10u8,
    ]
}

/// The lines of the first `k` weight codes.
pub open spec fn render_weights(ws: Seq<u32>, k: int) -> Seq<u8>
    decreases k,
{
    if k <= 0 {
        Seq::empty()
    } else {
        render_weights(ws, k - 1) + render_u32(ws[k - 1])
    }
}

/// A neuron's lines: its weights, then bias, output and delta.
pub open spec fn render_neuron(n: NeuronView) -> Seq<u8> {
    render_weights(n.weights, n.weights.len() as int) + render_u32(n.bias) + render_u32(n.output)
        + render_u32(n.delta)
}

/// The lines of the first `k` neurons of a layer.
pub open spec fn render_layer(layer: Seq<NeuronView>, k: int) -> Seq<u8>
    decreases k,
{
    if k <= 0 {
        Seq::empty()
    } else {
        render_layer(layer, k - 1) + render_neuron(layer[k - 1])
    }
}

/// The lines of the first `k` layers, each led by its neuron count and its
/// weight count.
pub open spec fn render_layers(v: Seq<Seq<NeuronView>>, k: int) -> Seq<u8>
    decreases k,
{
    if k <= 0 {
        Seq::empty()
    } else {
        render_layers(v, k - 1) + render_u32(v[k - 1].len() as u32) + render_u32(
            v[k - 1][0].weights.len() as u32,
        ) + render_layer(v[k - 1], v[k - 1].len() as int)
    }
}

/// The whole snapshot: the layer count, then every layer.
pub open spec fn render_net(v: Seq<Seq<NeuronView>>) -> Seq<u8> {
    render_u32(v.len() as u32) + render_layers(v, v.len() as int)
}

/// `render_weights` reads only the first `k` entries.
proof fn lemma_render_weights_prefix(a: Seq<u32>, b: Seq<u32>, k: int)
    requires
        0 <= k <= a.len(),
        k <= b.len(),
        forall|j: int| 0 <= j < k ==> a[j] == b[j],
    ensures
        render_weights(a, k) == render_weights(b, k),
    decreases k,
{
    if k > 0 {
        lemma_render_weights_prefix(a, b, k - 1);
    }
}

/// `render_layer` reads only the first `k` neurons.
proof fn lemma_render_layer_prefix(a: Seq<NeuronView>, b: Seq<NeuronView>, k: int)
    requires
        0 <= k <= a.len(),
        k <= b.len(),
        forall|j: int| 0 <= j < k ==> a[j] == b[j],
    ensures
        render_layer(a, k) == render_layer(b, k),
    decreases k,
{
    if k > 0 {
        lemma_render_layer_prefix(a, b, k - 1);
    }
}

/// `render_layers` reads only the first `k` layers.
proof fn lemma_render_layers_prefix(a: Seq<Seq<NeuronView>>, b: Seq<Seq<NeuronView>>, k: int)
    requires
        0 <= k <= a.len(),
        k <= b.len(),
        forall|j: int| 0 <= j < k ==> a[j] == b[j],
    ensures
        render_layers(a, k) == render_layers(b, k),
    decreases k,
{
    if k > 0 {
        lemma_render_layers_prefix(a, b, k - 1);
    }
}

/// Whether every count of the network fits the format's number width.
pub open spec fn counts_fit(v: Seq<Seq<NeuronView>>) -> bool {
    &&& v.len() <= 0xFFFF_FFFF
    &&& forall|l: int| 0 <= l < v.len() ==> #[trigger] v[l].len() <= 0xFFFF_FFFF
    &&& forall|l: int, i: int|
        0 <= l < v.len() && 0 <= i < v[l].len() ==> #[trigger] v[l][i].weights.len()
            <= 0xFFFF_FFFF
}

/// The bytes are the snapshot of the network: its canonical rendering, the
/// network well-formed and its counts within the format's number width.
pub open spec fn snapshot_of(v: Seq<Seq<NeuronView>>, bytes: Seq<u8>) -> bool {
    net_wf(v) && counts_fit(v) && render_net(v) == bytes
}

/// The lines of the weight codes from index `a` on.
pub open spec fn render_weights_from(ws: Seq<u32>, a: int) -> Seq<u8>
    decreases ws.len() - a,
{
    if a < 0 || a >= ws.len() {
        Seq::empty()
    } else {
        render_u32(ws[a]) + render_weights_from(ws, a + 1)
    }
}

/// A neuron's lines from weight `a` on.
pub open spec fn render_neuron_from(n: NeuronView, a: int) -> Seq<u8> {
    render_weights_from(n.weights, a) + render_u32(n.bias) + render_u32(n.output) + render_u32(
        n.delta,
    )
}

/// The lines of a layer's neurons from index `a` on.
pub open spec fn render_layer_from(layer: Seq<NeuronView>, a: int) -> Seq<u8>
    decreases layer.len() - a,
{
    if a < 0 || a >= layer.len() {
        Seq::empty()
    } else {
        render_neuron(layer[a]) + render_layer_from(layer, a + 1)
    }
}

/// The lines of the layers from index `a` on, each led by its two counts.
pub open spec fn render_layers_from(v: Seq<Seq<NeuronView>>, a: int) -> Seq<u8>
    decreases v.len() - a,
{
    if a < 0 || a >= v.len() {
        Seq::empty()
    } else {
        render_u32(v[a].len() as u32) + render_u32(v[a][0].weights.len() as u32) + render_layer(
            v[a],
            v[a].len() as int,
        ) + render_layers_from(v, a + 1)
    }
}

/// The full weight rendering splits at any index.
proof fn lemma_weights_split(ws: Seq<u32>, a: int)
    requires
        0 <= a <= ws.len(),
    ensures
        render_weights(ws, ws.len() as int) == render_weights(ws, a) + render_weights_from(ws, a),
    decreases ws.len() - a,
{
    if a == ws.len() {
        assert(render_weights(ws, a) + render_weights_from(ws, a) =~= render_weights(ws, a));
    } else {
        lemma_weights_split(ws, a + 1);
        assert(render_weights(ws, a + 1) == render_weights(ws, a) + render_u32(ws[a]));
        assert((render_weights(ws, a) + render_u32(ws[a])) + render_weights_from(ws, a + 1)
            =~= render_weights(ws, a) + render_weights_from(ws, a));
    }
}

/// A neuron's full rendering is its rendering from the first weight on.
proof fn lemma_neuron_from_zero(n: NeuronView)
    ensures
        render_neuron(n) == render_neuron_from(n, 0),
{
    lemma_weights_split(n.weights, 0);
    assert(render_weights(n.weights, 0) + render_weights_from(n.weights, 0)
        =~= render_weights_from(n.weights, 0));
}

/// The full layer rendering splits at any neuron index.
proof fn lemma_layer_split(layer: Seq<NeuronView>, a: int)
    requires
        0 <= a <= layer.len(),
    ensures
        render_layer(layer, layer.len() as int) == render_layer(layer, a) + render_layer_from(
            layer,
            a,
        ),
    decreases layer.len() - a,
{
    if a == layer.len() {
        assert(render_layer(layer, a) + render_layer_from(layer, a) =~= render_layer(layer, a));
    } else {
        lemma_layer_split(layer, a + 1);
        assert(render_layer(layer, a + 1) == render_layer(layer, a) + render_neuron(layer[a]));
        assert((render_layer(layer, a) + render_neuron(layer[a])) + render_layer_from(
            layer,
            a + 1,
        ) =~= render_layer(layer, a) + render_layer_from(layer, a));
    }
}

/// The full rendering of the layers splits at any layer index.
proof fn lemma_layers_split(v: Seq<Seq<NeuronView>>, a: int)
    requires
        0 <= a <= v.len(),
    ensures
        render_layers(v, v.len() as int) == render_layers(v, a) + render_layers_from(v, a),
    decreases v.len() - a,
{
    if a == v.len() {
        assert(render_layers(v, a) + render_layers_from(v, a) =~= render_layers(v, a));
    } else {
        lemma_layers_split(v, a + 1);
        assert(render_layers(v, a + 1) == render_layers(v, a) + render_u32(v[a].len() as u32)
            + render_u32(v[a][0].weights.len() as u32) + render_layer(v[a], v[a].len() as int));
        assert(((render_layers(v, a) + render_u32(v[a].len() as u32) + render_u32(
            v[a][0].weights.len() as u32,
        ) + render_layer(v[a], v[a].len() as int))) + render_layers_from(v, a + 1)
            =~= render_layers(v, a) + render_layers_from(v, a));
    }
}

/// A number line is nine bytes: eight hex digits and a newline.
proof fn lemma_render_u32_props(w: u32)
    ensures
        render_u32(w).len() == 9,
        forall|q: int| 0 <= q < 8 ==> is_hex_byte(#[trigger] render_u32(w)[q]),
        render_u32(w)[8] == 10u8,
{
    assert((w >> 28u32) & 0xFu32 < 16 && (w >> 24u32) & 0xFu32 < 16 && (w >> 20u32) & 0xFu32 < 16
        && (w >> 16u32) & 0xFu32 < 16 && (w >> 12u32) & 0xFu32 < 16 && (w >> 8u32) & 0xFu32 < 16
        && (w >> 4u32) & 0xFu32 < 16 && w & 0xFu32 < 16) by (bit_vector);
    assert forall|q: int| 0 <= q < 8 implies is_hex_byte(#[trigger] render_u32(w)[q]) by {
        if q == 0 {
            assert(is_hex_byte(render_u32(w)[0]));
        } else if q == 1 {
            assert(is_hex_byte(render_u32(w)[1]));
        } else if q == 2 {
            assert(is_hex_byte(render_u32(w)[2]));
        } else if q == 3 {
            assert(is_hex_byte(render_u32(w)[3]));
        } else if q == 4 {
            assert(is_hex_byte(render_u32(w)[4]));
        } else if q == 5 {
            assert(is_hex_byte(render_u32(w)[5]));
        } else if q == 6 {
            assert(is_hex_byte(render_u32(w)[6]));
        } else {
            assert(is_hex_byte(render_u32(w)[7]));
        }
    }
}

/// The rendering of a number pins the number.
proof fn lemma_render_u32_injective(a: u32, b: u32)
    requires
        render_u32(a) == render_u32(b),
    ensures
        a == b,
{
    assert((a >> 28u32) & 0xFu32 < 16 && (a >> 24u32) & 0xFu32 < 16 && (a >> 20u32) & 0xFu32 < 16
        && (a >> 16u32) & 0xFu32 < 16 && (a >> 12u32) & 0xFu32 < 16 && (a >> 8u32) & 0xFu32 < 16
        && (a >> 4u32) & 0xFu32 < 16 && a & 0xFu32 < 16) by (bit_vector);
    assert((b >> 28u32) & 0xFu32 < 16 && (b >> 24u32) & 0xFu32 < 16 && (b >> 20u32) & 0xFu32 < 16
        && (b >> 16u32) & 0xFu32 < 16 && (b >> 12u32) & 0xFu32 < 16 && (b >> 8u32) & 0xFu32 < 16
        && (b >> 4u32) & 0xFu32 < 16 && b & 0xFu32 < 16) by (bit_vector);
    assert(render_u32(a)[0] == render_u32(b)[0]);
    assert(render_u32(a)[1] == render_u32(b)[1]);
    assert(render_u32(a)[2] == render_u32(b)[2]);
    assert(render_u32(a)[3] == render_u32(b)[3]);
    assert(render_u32(a)[4] == render_u32(b)[4]);
    assert(render_u32(a)[5] == render_u32(b)[5]);
    assert(render_u32(a)[6] == render_u32(b)[6]);
    assert(render_u32(a)[7] == render_u32(b)[7]);
    assert((a >> 28u32) & 0xFu32 == (b >> 28u32) & 0xFu32);
    assert((a >> 24u32) & 0xFu32 == (b >> 24u32) & 0xFu32);
    assert((a >> 20u32) & 0xFu32 == (b >> 20u32) & 0xFu32);
    assert((a >> 16u32) & 0xFu32 == (b >> 16u32) & 0xFu32);
    assert((a >> 12u32) & 0xFu32 == (b >> 12u32) & 0xFu32);
    assert((a >> 8u32) & 0xFu32 == (b >> 8u32) & 0xFu32);
    assert((a >> 4u32) & 0xFu32 == (b >> 4u32) & 0xFu32);
    assert(a & 0xFu32 == b & 0xFu32);
    assert(a == b) by (bit_vector)
        requires
            (a >> 28u32) & 0xFu32 == (b >> 28u32) & 0xFu32,
            (a >> 24u32) & 0xFu32 == (b >> 24u32) & 0xFu32,
            (a >> 20u32) & 0xFu32 == (b >> 20u32) & 0xFu32,
            (a >> 16u32) & 0xFu32 == (b >> 16u32) & 0xFu32,
            (a >> 12u32) & 0xFu32 == (b >> 12u32) & 0xFu32,
            (a >> 8u32) & 0xFu32 == (b >> 8u32) & 0xFu32,
            (a >> 4u32) & 0xFu32 == (b >> 4u32) & 0xFu32,
            a & 0xFu32 == b & 0xFu32,
    ;
}

/// Where the consumed prefix is followed by a number line and a remainder,
/// the next nine bytes are that line.
proof fn lemma_chunk_at(b: Seq<u8>, pos: int, x: u32, rest: Seq<u8>)
    requires
        0 <= pos <= b.len(),
        b == b.take(pos) + (render_u32(x) + rest),
    ensures
        pos + 9 <= b.len(),
        b.subrange(pos, pos + 9) == render_u32(x),
        b.take(pos + 9) == b.take(pos) + render_u32(x),
        b == b.take(pos + 9) + rest,
{
    assert(b.len() == pos + 9 + rest.len());
    assert(b.subrange(pos, pos + 9) =~= render_u32(x));
    assert(b.take(pos + 9) =~= b.take(pos) + render_u32(x));
    assert(b =~= b.take(pos + 9) + rest);
}

/// The digit of a nibble, as executable code.
fn hex_digit_x(n: u32) -> (r: u8)
    requires
        n < 16,
    ensures
        r == hex_digit(n),
        is_hex_byte(r),
{
    if n < 10 {
        (48 + n) as u8
    } else {
        (87 + n) as u8
    }
}

/// Appends one number line to the output.
fn push_u32(out: &mut Vec<u8>, v: u32)
    ensures
        final(out)@ == old(out)@ + render_u32(v),
{
    let ghost pre = out@;
    proof {
        assert((v >> 28u32) & 0xFu32 < 16 && (v >> 24u32) & 0xFu32 < 16 && (v >> 20u32) & 0xFu32
            < 16 && (v >> 16u32) & 0xFu32 < 16 && (v >> 12u32) & 0xFu32 < 16 && (v >> 8u32)
            & 0xFu32 < 16 && (v >> 4u32) & 0xFu32 < 16 && v & 0xFu32 < 16) by (bit_vector);
    }
    out.push(hex_digit_x((v >> 28) & 0xF));
    out.push(hex_digit_x((v >> 24) & 0xF));
    out.push(hex_digit_x((v >> 20) & 0xF));
    out.push(hex_digit_x((v >> 16) & 0xF));
    out.push(hex_digit_x((v >> 12) & 0xF));
    out.push(hex_digit_x((v >> 8) & 0xF));
    out.push(hex_digit_x((v >> 4) & 0xF));
    out.push(hex_digit_x(v & 0xF));
    out.push(10u8);
    proof {
        assert(out@ =~= pre + render_u32(v));
    }
}

/// The value of a lowercase hexadecimal digit byte.
fn hex_val_t(b: u8) -> (r: u32)
    requires
        is_hex_byte(b),
    ensures
        r == hex_val(b),
        r < 16,
{
    if b <= 57 {
        (b - 48) as u32
    } else {
        (b - 87) as u32
    }
}

/// Reads one number line: exactly eight lowercase hex digits and a newline.
/// What was read re-renders to the very bytes consumed, and wherever a
/// rendered number sits, the read succeeds.
fn read_u32(bytes: &Vec<u8>, pos: usize) -> (r: Option<u32>)
    ensures
        r matches Some(v) ==> pos + 9 <= bytes@.len() && bytes@.subrange(
            pos as int,
            pos as int + 9,
        ) == render_u32(v),
        forall|w: u32|
            (pos + 9 <= bytes@.len() && bytes@.subrange(pos as int, pos as int + 9)
                == #[trigger] render_u32(w)) ==> r is Some,
{
    if bytes.len() < 9 || pos > bytes.len() - 9 {
        proof {
            assert(pos + 9 > bytes@.len());
        }
        return None;
    }
    let n = bytes.len();
    let mut q: usize = 0;
    while q < 8
        invariant
            n == bytes@.len(),
            pos + 9 <= n,
            0 <= q <= 8,
            forall|t: int| 0 <= t < q ==> is_hex_byte(#[trigger] bytes@[pos + t]),
        decreases 8 - q,
    {
        let b = bytes[pos + q];
        if !((48 <= b && b <= 57) || (97 <= b && b <= 102)) {
            proof {
                assert forall|w: u32|
                    pos + 9 <= bytes@.len() && bytes@.subrange(pos as int, pos as int + 9)
                        == #[trigger] render_u32(w) implies false by {
                    lemma_render_u32_props(w);
                    assert(bytes@[pos + q] == bytes@.subrange(pos as int, pos as int + 9)[q as int]);
                    assert(is_hex_byte(render_u32(w)[q as int]));
                }
            }
            return None;
        }
        q = q + 1;
    }
    if bytes[pos + 8] != 10 {
        proof {
            assert forall|w: u32|
                pos + 9 <= bytes@.len() && bytes@.subrange(pos as int, pos as int + 9)
                    == #[trigger] render_u32(w) implies false by {
                lemma_render_u32_props(w);
                assert(bytes@[pos + 8] == bytes@.subrange(pos as int, pos as int + 9)[8]);
            }
        }
        return None;
    }
    proof {
        assert(is_hex_byte(bytes@[pos + 0]));
        assert(is_hex_byte(bytes@[pos + 1]));
        assert(is_hex_byte(bytes@[pos + 2]));
        assert(is_hex_byte(bytes@[pos + 3]));
        assert(is_hex_byte(bytes@[pos + 4]));
        assert(is_hex_byte(bytes@[pos + 5]));
        assert(is_hex_byte(bytes@[pos + 6]));
        assert(is_hex_byte(bytes@[pos + 7]));
    }
    let d0 = hex_val_t(bytes[pos]);
    let d1 = hex_val_t(bytes[pos + 1]);
    let d2 = hex_val_t(bytes[pos + 2]);
    let d3 = hex_val_t(bytes[pos + 3]);
    let d4 = hex_val_t(bytes[pos + 4]);
    let d5 = hex_val_t(bytes[pos + 5]);
    let d6 = hex_val_t(bytes[pos + 6]);
    let d7 = hex_val_t(bytes[pos + 7]);
    let v = (d0 << 28) | (d1 << 24) | (d2 << 20) | (d3 << 16) | (d4 << 12) | (d5 << 8) | (d6 << 4)
        | d7;
    proof {
        assert((v >> 28u32) & 0xFu32 == d0 && (v >> 24u32) & 0xFu32 == d1 && (v >> 20u32) & 0xFu32
            == d2 && (v >> 16u32) & 0xFu32 == d3 && (v >> 12u32) & 0xFu32 == d4 && (v >> 8u32)
            & 0xFu32 == d5 && (v >> 4u32) & 0xFu32 == d6 && v & 0xFu32 == d7) by (bit_vector)
            requires
                v == (d0 << 28u32) | (d1 << 24u32) | (d2 << 20u32) | (d3 << 16u32) | (d4 << 12u32)
                    | (d5 << 8u32) | (d6 << 4u32) | d7,
                d0 < 16,
                d1 < 16,
                d2 < 16,
                d3 < 16,
                d4 < 16,
                d5 < 16,
                d6 < 16,
                d7 < 16,
        ;
        assert(hex_digit(hex_val(bytes@[pos as int])) == bytes@[pos as int]);
        assert(hex_digit(hex_val(bytes@[pos + 1])) == bytes@[pos + 1]);
        assert(hex_digit(hex_val(bytes@[pos + 2])) == bytes@[pos + 2]);
        assert(hex_digit(hex_val(bytes@[pos + 3])) == bytes@[pos + 3]);
        assert(hex_digit(hex_val(bytes@[pos + 4])) == bytes@[pos + 4]);
        assert(hex_digit(hex_val(bytes@[pos + 5])) == bytes@[pos + 5]);
        assert(hex_digit(hex_val(bytes@[pos + 6])) == bytes@[pos + 6]);
        assert(hex_digit(hex_val(bytes@[pos + 7])) == bytes@[pos + 7]);
        assert(bytes@.subrange(pos as int, pos as int + 9) =~= render_u32(v));
    }
    Some(v)
}

/// Serializes the network: the snapshot is exactly `render_net` of its
/// current state, transients included.
pub fn save(network: &Network) -> (out: Vec<u8>)
    requires
        network.wf(),
        counts_fit(network@),
    ensures
        out@ == render_net(network@),
        snapshot_of(network@, out@),
{
    let ghost v = network@;
    let mut out: Vec<u8> = Vec::new();
    let num_layers = network.layers.len();
    proof {
        assert(v.len() == network.layers@.len());
    }
    push_u32(&mut out, num_layers as u32);
    let mut l: usize = 0;
    while l < num_layers
        invariant
            network.wf(),
            v == network@,
            v.len() <= 0xFFFF_FFFF,
            forall|l2: int| 0 <= l2 < v.len() ==> #[trigger] v[l2].len() <= 0xFFFF_FFFF,
            forall|l2: int, i2: int|
                0 <= l2 < v.len() && 0 <= i2 < v[l2].len() ==> #[trigger] v[l2][i2].weights.len()
                    <= 0xFFFF_FFFF,
            num_layers == v.len(),
            0 <= l <= num_layers,
            out@ == render_u32(v.len() as u32) + render_layers(v, l as int),
        decreases num_layers - l,
    {
        proof {
            assert(v[l as int] == network.layers@[l as int]@);
            assert(v[l as int].len() >= 1);
            assert(v[l as int][0] == network.layers@[l as int].neurons@[0]@);
        }
        let n_count = network.layers[l].neurons.len();
        let width = network.layers[l].neurons[0].weights.len();
        push_u32(&mut out, n_count as u32);
        push_u32(&mut out, width as u32);
        let mut i: usize = 0;
        while i < n_count
            invariant
                network.wf(),
                v == network@,
                forall|l2: int, i2: int|
                    0 <= l2 < v.len() && 0 <= i2 < v[l2].len() ==> #[trigger] v[l2][i2]
                        .weights.len() <= 0xFFFF_FFFF,
                0 <= (l as int) < v.len(),
                n_count == v[l as int].len(),
                width == v[l as int][0].weights.len(),
                0 <= i <= n_count,
                out@ == render_u32(v.len() as u32) + render_layers(v, l as int) + render_u32(
                    n_count as u32,
                ) + render_u32(width as u32) + render_layer(v[l as int], i as int),
            decreases n_count - i,
        {
            proof {
                assert(v[l as int] == network.layers@[l as int]@);
                assert(v[l as int][i as int] == network.layers@[l as int].neurons@[i as int]@);
            }
            let w_len = network.layers[l].neurons[i].weights.len();
            let ghost n = v[l as int][i as int];
            let ghost base = out@;
            let mut j: usize = 0;
            while j < w_len
                invariant
                    v == network@,
                    0 <= (l as int) < v.len(),
                    0 <= (i as int) < v[l as int].len(),
                    n == v[l as int][i as int],
                    n == network.layers@[l as int].neurons@[i as int]@,
                    0 <= (l as int) < network.layers@.len(),
                    0 <= (i as int) < network.layers@[l as int].neurons@.len(),
                    w_len == n.weights.len(),
                    0 <= j <= w_len,
                    out@ == base + render_weights(n.weights, j as int),
                decreases w_len - j,
            {
                push_u32(&mut out, network.layers[l].neurons[i].weights[j]);
                proof {
                    assert(out@ =~= base + render_weights(n.weights, j as int + 1));
                }
                j = j + 1;
            }
            push_u32(&mut out, network.layers[l].neurons[i].bias);
            push_u32(&mut out, network.layers[l].neurons[i].output);
            push_u32(&mut out, network.layers[l].neurons[i].delta);
            proof {
                assert(out@ =~= base + render_neuron(n));
                assert(render_layer(v[l as int], i as int + 1) == render_layer(
                    v[l as int],
                    i as int,
                ) + render_neuron(n));
                assert(out@ =~= render_u32(v.len() as u32) + render_layers(v, l as int)
                    + render_u32(n_count as u32) + render_u32(width as u32) + render_layer(
                    v[l as int],
                    i as int + 1,
                ));
            }
            i = i + 1;
        }
        proof {
            assert(out@ =~= render_u32(v.len() as u32) + render_layers(v, l as int + 1));
        }
        l = l + 1;
    }
    out
}

/// Deserializes a snapshot. Succeeds exactly on the canonical rendering of a
/// well-formed network — wrong digits, inconsistent counts or trailing bytes
/// are `PersistenceError` — and then returns that very network (the last
/// `ensures` clause), so whatever `save` wrote loads back equal, and
/// whatever loads re-renders to the very bytes read.
#[verifier::rlimit(100)]
pub fn load(bytes: &Vec<u8>) -> (r: Result<Network, NetError>)
    ensures
        r matches Ok(net) ==> net.wf() && render_net(net@) == bytes@,
        r matches Err(e) ==> e == NetError::PersistenceError,
        forall|v: Seq<Seq<NeuronView>>| #[trigger] snapshot_of(v, bytes@) ==> (r matches Ok(net)
            && net@ == v),
{
    let num_layers_c = match read_u32(bytes, 0) {
        Some(v) => v,
        None => {
            proof {
                assert forall|v: Seq<Seq<NeuronView>>| #[trigger] snapshot_of(v, bytes@)
                    implies false by {
                    lemma_layers_split(v, 0);
                    assert(render_layers(v, 0) + render_layers_from(v, 0) =~= render_layers_from(
                        v,
                        0,
                    ));
                    assert(bytes@ =~= bytes@.take(0int) + (render_u32(v.len() as u32)
                        + render_layers_from(v, 0)));
                    lemma_chunk_at(bytes@, 0, v.len() as u32, render_layers_from(v, 0));
                }
            }
            return Err(NetError::PersistenceError);
        },
    };
    proof {
        assert forall|v: Seq<Seq<NeuronView>>| #[trigger] snapshot_of(v, bytes@) implies (
        num_layers_c == v.len() as u32 && bytes@ == bytes@.take(9int) + render_layers_from(
            v,
            0,
        )) by {
            lemma_layers_split(v, 0);
            assert(render_layers(v, 0) + render_layers_from(v, 0) =~= render_layers_from(v, 0));
            assert(bytes@ =~= bytes@.take(0int) + (render_u32(v.len() as u32)
                + render_layers_from(v, 0)));
            lemma_chunk_at(bytes@, 0, v.len() as u32, render_layers_from(v, 0));
            lemma_render_u32_injective(num_layers_c, v.len() as u32);
        }
    }
    if num_layers_c == 0 {
        proof {
            assert forall|v: Seq<Seq<NeuronView>>| #[trigger] snapshot_of(v, bytes@)
                implies false by {
                assert(v.len() >= 1);
                assert(v.len() <= 0xFFFF_FFFF);
                assert(v.len() as u32 != 0);
            }
        }
        return Err(NetError::PersistenceError);
    }
    let num_layers = num_layers_c as usize;
    proof {
        assert forall|v: Seq<Seq<NeuronView>>| #[trigger] snapshot_of(v, bytes@)
            implies num_layers == v.len() by {
            assert(num_layers_c == v.len() as u32);
            assert(v.len() <= 0xFFFF_FFFF);
        }
    }
    let blen = bytes.len();
    let mut pos: usize = 9;
    let mut layers: Vec<Layer> = Vec::new();
    let ghost nl32 = num_layers_c;
    let mut l: usize = 0;
    while l < num_layers
        invariant
            blen == bytes@.len(),
            nl32 as usize == num_layers,
            nl32 != 0,
            0 <= l <= num_layers,
            layers@.len() == l,
            pos <= bytes@.len(),
            bytes@.take(pos as int) == render_u32(nl32) + render_layers(
                Seq::new(layers@.len(), |l2: int| layers@[l2]@),
                l as int,
            ),
            forall|l2: int| 0 <= l2 < l ==> #[trigger] layers@[l2]@.len() >= 1,
            forall|l2: int, i2: int|
                0 <= l2 < l && 0 <= i2 < layers@[l2]@.len() ==> #[trigger] layers@[l2]@[i2]
                    .weights.len() == (if l2 == 0 {
                    layers@[0]@[0].weights.len()
                } else {
                    layers@[l2 - 1]@.len()
                }),
            forall|v: Seq<Seq<NeuronView>>| #[trigger] snapshot_of(v, bytes@) ==> num_layers
                == v.len(),
            forall|v: Seq<Seq<NeuronView>>| #[trigger] snapshot_of(v, bytes@) ==> (forall|l2: int|
                0 <= l2 < l ==> layers@[l2]@ == v[l2]),
            forall|v: Seq<Seq<NeuronView>>| #[trigger] snapshot_of(v, bytes@) ==> bytes@
                == bytes@.take(pos as int) + render_layers_from(v, l as int),
        decreases num_layers - l,
    {
        let ghost pre_view = Seq::new(layers@.len(), |l2: int| layers@[l2]@);
        proof {
            assert forall|v: Seq<Seq<NeuronView>>| #[trigger] snapshot_of(v, bytes@) implies (l
                < v.len() && bytes@ == bytes@.take(pos as int) + (render_u32(
                v[l as int].len() as u32,
            ) + (render_u32(v[l as int][0].weights.len() as u32) + (render_layer_from(
                v[l as int],
                0,
            ) + render_layers_from(v, l as int + 1))))) by {
                assert(num_layers == v.len());
                lemma_layer_split(v[l as int], 0);
                assert(render_layer(v[l as int], 0) + render_layer_from(v[l as int], 0)
                    =~= render_layer_from(v[l as int], 0));
                assert(render_layers_from(v, l as int) =~= render_u32(v[l as int].len() as u32) + (
                render_u32(v[l as int][0].weights.len() as u32) + (render_layer_from(v[l as int], 0)
                    + render_layers_from(v, l as int + 1))));
                assert(bytes@ =~= bytes@.take(pos as int) + (render_u32(v[l as int].len() as u32)
                    + (render_u32(v[l as int][0].weights.len() as u32) + (render_layer_from(
                    v[l as int],
                    0,
                ) + render_layers_from(v, l as int + 1)))));
            }
        }
        let n_count_c = match read_u32(bytes, pos) {
            Some(v) => v,
            None => {
                proof {
                    assert forall|v: Seq<Seq<NeuronView>>| #[trigger] snapshot_of(v, bytes@)
                        implies false by {
                        lemma_chunk_at(
                            bytes@,
                            pos as int,
                            v[l as int].len() as u32,
                            render_u32(v[l as int][0].weights.len() as u32) + (render_layer_from(
                                v[l as int],
                                0,
                            ) + render_layers_from(v, l as int + 1)),
                        );
                    }
                }
                return Err(NetError::PersistenceError);
            },
        };
        proof {
            assert(pos + 9 <= blen);
            assert forall|v: Seq<Seq<NeuronView>>| #[trigger] snapshot_of(v, bytes@) implies (
            n_count_c == v[l as int].len() as u32 && bytes@ == bytes@.take(pos as int + 9) + (
            render_u32(v[l as int][0].weights.len() as u32) + (render_layer_from(v[l as int], 0)
                + render_layers_from(v, l as int + 1)))) by {
                lemma_chunk_at(
                    bytes@,
                    pos as int,
                    v[l as int].len() as u32,
                    render_u32(v[l as int][0].weights.len() as u32) + (render_layer_from(
                        v[l as int],
                        0,
                    ) + render_layers_from(v, l as int + 1)),
                );
                lemma_render_u32_injective(n_count_c, v[l as int].len() as u32);
            }
        }
        let width_c = match read_u32(bytes, pos + 9) {
            Some(v) => v,
            None => {
                proof {
                    assert forall|v: Seq<Seq<NeuronView>>| #[trigger] snapshot_of(v, bytes@)
                        implies false by {
                        lemma_chunk_at(
                            bytes@,
                            pos as int + 9,
                            v[l as int][0].weights.len() as u32,
                            render_layer_from(v[l as int], 0) + render_layers_from(
                                v,
                                l as int + 1,
                            ),
                        );
                    }
                }
                return Err(NetError::PersistenceError);
            },
        };
        proof {
            assert(pos + 18 <= blen);
            assert forall|v: Seq<Seq<NeuronView>>| #[trigger] snapshot_of(v, bytes@) implies (
            width_c == v[l as int][0].weights.len() as u32 && bytes@ == bytes@.take(pos as int + 18)
                + (render_layer_from(v[l as int], 0) + render_layers_from(v, l as int + 1))) by {
                lemma_chunk_at(
                    bytes@,
                    pos as int + 9,
                    v[l as int][0].weights.len() as u32,
                    render_layer_from(v[l as int], 0) + render_layers_from(v, l as int + 1),
                );
                lemma_render_u32_injective(width_c, v[l as int][0].weights.len() as u32);
            }
        }
        if n_count_c == 0 {
            proof {
                assert forall|v: Seq<Seq<NeuronView>>| #[trigger] snapshot_of(v, bytes@)
                    implies false by {
                    assert(v[l as int].len() >= 1);
                    assert(v[l as int].len() <= 0xFFFF_FFFF);
                    assert(v[l as int].len() as u32 != 0);
                }
            }
            return Err(NetError::PersistenceError);
        }
        let n_count = n_count_c as usize;
        let width = width_c as usize;
        if l > 0 {
            let prev_count = layers[l - 1].neurons.len();
            if width != prev_count {
                proof {
                    assert forall|v: Seq<Seq<NeuronView>>| #[trigger] snapshot_of(v, bytes@)
                        implies false by {
                        assert(v[l as int][0].weights.len() == layer_in_width(v, l as int));
                        assert(layer_in_width(v, l as int) == v[l as int - 1].len());
                        assert(layers@[l as int - 1]@ == v[l as int - 1]);
                        assert(prev_count == v[l as int - 1].len());
                        assert(v[l as int - 1].len() <= 0xFFFF_FFFF);
                        assert(width == v[l as int][0].weights.len());
                    }
                }
                return Err(NetError::PersistenceError);
            }
        }
        proof {
            assert forall|v: Seq<Seq<NeuronView>>| #[trigger] snapshot_of(v, bytes@) implies (
            n_count == v[l as int].len() && width == v[l as int][0].weights.len()) by {
                assert(v[l as int].len() <= 0xFFFF_FFFF);
                assert(v[l as int][0].weights.len() <= 0xFFFF_FFFF);
            }
        }
        let ghost pos0 = pos as int;
        pos = pos + 18;
        let mut neurons: Vec<Neuron> = Vec::new();
        let mut i: usize = 0;
        while i < n_count
            invariant
                blen == bytes@.len(),
                0 <= i <= n_count,
                neurons@.len() == i,
                pos <= bytes@.len(),
                bytes@.take(pos as int) == bytes@.take(pos0) + render_u32(n_count_c) + render_u32(
                    width_c,
                ) + render_layer(Seq::new(neurons@.len(), |i2: int| neurons@[i2]@), i as int),
                forall|i2: int| 0 <= i2 < i ==> #[trigger] neurons@[i2]@.weights.len() == width,
                width == width_c as usize,
                n_count == n_count_c as usize,
                pos0 + 18 <= pos,
                forall|v: Seq<Seq<NeuronView>>| #[trigger] snapshot_of(v, bytes@) ==> (num_layers
                    == v.len() && (l as int) < v.len() && n_count == v[l as int].len() && width
                    == v[l as int][0].weights.len()),
                forall|v: Seq<Seq<NeuronView>>| #[trigger] snapshot_of(v, bytes@) ==> (forall|
                    l2: int,
                |
                    0 <= l2 < l ==> layers@[l2]@ == v[l2]),
                forall|v: Seq<Seq<NeuronView>>| #[trigger] snapshot_of(v, bytes@) ==> (forall|
                    i2: int,
                |
                    0 <= i2 < i ==> neurons@[i2]@ == v[l as int][i2]),
                forall|v: Seq<Seq<NeuronView>>| #[trigger] snapshot_of(v, bytes@) ==> bytes@
                    == bytes@.take(pos as int) + (render_layer_from(v[l as int], i as int)
                    + render_layers_from(v, l as int + 1)),
            decreases n_count - i,
        {
            let ghost pre_neurons = Seq::new(neurons@.len(), |i2: int| neurons@[i2]@);
            let ghost npos0 = pos as int;
            proof {
                assert forall|v: Seq<Seq<NeuronView>>| #[trigger] snapshot_of(v, bytes@) implies (
                width == v[l as int][i as int].weights.len() && bytes@ == bytes@.take(pos as int) + (
                render_neuron_from(v[l as int][i as int], 0) + (render_layer_from(
                    v[l as int],
                    i as int + 1,
                ) + render_layers_from(v, l as int + 1)))) by {
                    assert(v[l as int][i as int].weights.len() == layer_in_width(v, l as int));
                    assert(v[l as int][0].weights.len() == layer_in_width(v, l as int));
                    lemma_neuron_from_zero(v[l as int][i as int]);
                    assert(render_layer_from(v[l as int], i as int) == render_neuron(
                        v[l as int][i as int],
                    ) + render_layer_from(v[l as int], i as int + 1));
                    assert(bytes@ =~= bytes@.take(pos as int) + (render_neuron_from(
                        v[l as int][i as int],
                        0,
                    ) + (render_layer_from(v[l as int], i as int + 1) + render_layers_from(
                        v,
                        l as int + 1,
                    ))));
                }
            }
            let mut weights: Vec<u32> = Vec::new();
            let mut j: usize = 0;
            while j < width
                invariant
                    blen == bytes@.len(),
                    0 <= j <= width,
                    weights@.len() == j,
                    pos <= bytes@.len(),
                    bytes@.take(pos as int) == bytes@.take(npos0) + render_weights(
                        weights@,
                        j as int,
                    ),
                    npos0 <= pos,
                    0 <= (l as int),
                    0 <= (i as int),
                    forall|v: Seq<Seq<NeuronView>>| #[trigger] snapshot_of(v, bytes@) ==> ((l as int)
                        < v.len() && (i as int) < v[l as int].len() && width
                        == v[l as int][i as int].weights.len()),
                    forall|v: Seq<Seq<NeuronView>>| #[trigger] snapshot_of(v, bytes@) ==> (forall|
                        j2: int,
                    |
                        0 <= j2 < j ==> weights@[j2] == v[l as int][i as int].weights[j2]),
                    forall|v: Seq<Seq<NeuronView>>| #[trigger] snapshot_of(v, bytes@) ==> bytes@
                        == bytes@.take(pos as int) + (render_neuron_from(
                        v[l as int][i as int],
                        j as int,
                    ) + (render_layer_from(v[l as int], i as int + 1) + render_layers_from(
                        v,
                        l as int + 1,
                    ))),
                decreases width - j,
            {
                proof {
                    assert forall|v: Seq<Seq<NeuronView>>| #[trigger] snapshot_of(v, bytes@)
                        implies bytes@ == bytes@.take(pos as int) + (render_u32(
                        v[l as int][i as int].weights[j as int],
                    ) + (render_neuron_from(v[l as int][i as int], j as int + 1) + (
                    render_layer_from(v[l as int], i as int + 1) + render_layers_from(
                        v,
                        l as int + 1,
                    )))) by {
                        let n = v[l as int][i as int];
                        assert(render_weights_from(n.weights, j as int) == render_u32(
                            n.weights[j as int],
                        ) + render_weights_from(n.weights, j as int + 1));
                        assert(bytes@ =~= bytes@.take(pos as int) + (render_u32(
                            n.weights[j as int],
                        ) + (render_neuron_from(n, j as int + 1) + (render_layer_from(
                            v[l as int],
                            i as int + 1,
                        ) + render_layers_from(v, l as int + 1)))));
                    }
                }
                let w = match read_u32(bytes, pos) {
                    Some(v) => v,
                    None => {
                        proof {
                            assert forall|v: Seq<Seq<NeuronView>>| #[trigger] snapshot_of(
                                v,
                                bytes@,
                            ) implies false by {
                                lemma_chunk_at(
                                    bytes@,
                                    pos as int,
                                    v[l as int][i as int].weights[j as int],
                                    render_neuron_from(v[l as int][i as int], j as int + 1) + (
                                    render_layer_from(v[l as int], i as int + 1)
                                        + render_layers_from(v, l as int + 1)),
                                );
                            }
                        }
                        return Err(NetError::PersistenceError);
                    },
                };
                proof {
                    assert forall|v: Seq<Seq<NeuronView>>| #[trigger] snapshot_of(v, bytes@)
                        implies (w == v[l as int][i as int].weights[j as int] && bytes@
                        == bytes@.take(pos as int + 9) + (render_neuron_from(
                        v[l as int][i as int],
                        j as int + 1,
                    ) + (render_layer_from(v[l as int], i as int + 1) + render_layers_from(
                        v,
                        l as int + 1,
                    )))) by {
                        lemma_chunk_at(
                            bytes@,
                            pos as int,
                            v[l as int][i as int].weights[j as int],
                            render_neuron_from(v[l as int][i as int], j as int + 1) + (
                            render_layer_from(v[l as int], i as int + 1) + render_layers_from(
                                v,
                                l as int + 1,
                            )),
                        );
                        lemma_render_u32_injective(w, v[l as int][i as int].weights[j as int]);
                    }
                }
                let ghost pw = weights@;
                weights.push(w);
                proof {
                    lemma_render_weights_prefix(pw, weights@, j as int);
                    assert(bytes@.take(pos as int + 9) =~= bytes@.take(pos as int)
                        + bytes@.subrange(pos as int, pos as int + 9));
                    assert(bytes@.take(pos as int + 9) =~= bytes@.take(npos0) + render_weights(
                        weights@,
                        j as int + 1,
                    ));
                }
                pos = pos + 9;
                j = j + 1;
            }
            proof {
                assert forall|v: Seq<Seq<NeuronView>>| #[trigger] snapshot_of(v, bytes@)
                    implies bytes@ == bytes@.take(pos as int) + (render_u32(
                    v[l as int][i as int].bias,
                ) + (render_u32(v[l as int][i as int].output) + (render_u32(
                    v[l as int][i as int].delta,
                ) + (render_layer_from(v[l as int], i as int + 1) + render_layers_from(
                    v,
                    l as int + 1,
                ))))) by {
                    let n = v[l as int][i as int];
                    assert(render_weights_from(n.weights, width as int) == Seq::<u8>::empty());
                    assert(bytes@ =~= bytes@.take(pos as int) + (render_u32(n.bias) + (render_u32(
                        n.output,
                    ) + (render_u32(n.delta) + (render_layer_from(v[l as int], i as int + 1)
                        + render_layers_from(v, l as int + 1))))));
                }
            }
            let bias = match read_u32(bytes, pos) {
                Some(v) => v,
                None => {
                    proof {
                        assert forall|v: Seq<Seq<NeuronView>>| #[trigger] snapshot_of(v, bytes@)
                            implies false by {
                            let n = v[l as int][i as int];
                            lemma_chunk_at(
                                bytes@,
                                pos as int,
                                n.bias,
                                render_u32(n.output) + (render_u32(n.delta) + (render_layer_from(
                                    v[l as int],
                                    i as int + 1,
                                ) + render_layers_from(v, l as int + 1))),
                            );
                        }
                    }
                    return Err(NetError::PersistenceError);
                },
            };
            proof {
                assert(pos + 9 <= blen);
                assert forall|v: Seq<Seq<NeuronView>>| #[trigger] snapshot_of(v, bytes@) implies (
                bias == v[l as int][i as int].bias && bytes@ == bytes@.take(pos as int + 9) + (
                render_u32(v[l as int][i as int].output) + (render_u32(v[l as int][i as int].delta)
                    + (render_layer_from(v[l as int], i as int + 1) + render_layers_from(
                    v,
                    l as int + 1,
                ))))) by {
                    let n = v[l as int][i as int];
                    lemma_chunk_at(
                        bytes@,
                        pos as int,
                        n.bias,
                        render_u32(n.output) + (render_u32(n.delta) + (render_layer_from(
                            v[l as int],
                            i as int + 1,
                        ) + render_layers_from(v, l as int + 1))),
                    );
                    lemma_render_u32_injective(bias, n.bias);
                }
            }
            let output = match read_u32(bytes, pos + 9) {
                Some(v) => v,
                None => {
                    proof {
                        assert forall|v: Seq<Seq<NeuronView>>| #[trigger] snapshot_of(v, bytes@)
                            implies false by {
                            let n = v[l as int][i as int];
                            lemma_chunk_at(
                                bytes@,
                                pos as int + 9,
                                n.output,
                                render_u32(n.delta) + (render_layer_from(v[l as int], i as int + 1)
                                    + render_layers_from(v, l as int + 1)),
                            );
                        }
                    }
                    return Err(NetError::PersistenceError);
                },
            };
            proof {
                assert(pos + 18 <= blen);
                assert forall|v: Seq<Seq<NeuronView>>| #[trigger] snapshot_of(v, bytes@) implies (
                output == v[l as int][i as int].output && bytes@ == bytes@.take(pos as int + 18) + (
                render_u32(v[l as int][i as int].delta) + (render_layer_from(
                    v[l as int],
                    i as int + 1,
                ) + render_layers_from(v, l as int + 1)))) by {
                    let n = v[l as int][i as int];
                    lemma_chunk_at(
                        bytes@,
                        pos as int + 9,
                        n.output,
                        render_u32(n.delta) + (render_layer_from(v[l as int], i as int + 1)
                            + render_layers_from(v, l as int + 1)),
                    );
                    lemma_render_u32_injective(output, n.output);
                }
            }
            let delta = match read_u32(bytes, pos + 18) {
                Some(v) => v,
                None => {
                    proof {
                        assert forall|v: Seq<Seq<NeuronView>>| #[trigger] snapshot_of(v, bytes@)
                            implies false by {
                            let n = v[l as int][i as int];
                            lemma_chunk_at(
                                bytes@,
                                pos as int + 18,
                                n.delta,
                                render_layer_from(v[l as int], i as int + 1) + render_layers_from(
                                    v,
                                    l as int + 1,
                                ),
                            );
                        }
                    }
                    return Err(NetError::PersistenceError);
                },
            };
            proof {
                assert(pos + 27 <= blen);
                assert forall|v: Seq<Seq<NeuronView>>| #[trigger] snapshot_of(v, bytes@) implies (
                delta == v[l as int][i as int].delta && bytes@ == bytes@.take(pos as int + 27) + (
                render_layer_from(v[l as int], i as int + 1) + render_layers_from(
                    v,
                    l as int + 1,
                ))) by {
                    let n = v[l as int][i as int];
                    lemma_chunk_at(
                        bytes@,
                        pos as int + 18,
                        n.delta,
                        render_layer_from(v[l as int], i as int + 1) + render_layers_from(
                            v,
                            l as int + 1,
                        ),
                    );
                    lemma_render_u32_injective(delta, n.delta);
                }
            }
            let ghost wv = weights@;
            let n = Neuron { weights, bias, output, delta };
            proof {
                assert(n@.weights == wv);
                assert(bytes@.take(pos as int + 27) =~= bytes@.take(pos as int) + bytes@.subrange(
                    pos as int,
                    pos as int + 9,
                ) + bytes@.subrange(pos as int + 9, pos as int + 18) + bytes@.subrange(
                    pos as int + 18,
                    pos as int + 27,
                ));
                assert(bytes@.take(pos as int + 27) =~= bytes@.take(npos0) + render_neuron(n@));
            }
            pos = pos + 27;
            let ghost pn = neurons@;
            neurons.push(n);
            proof {
                let cur = Seq::new(neurons@.len(), |i2: int| neurons@[i2]@);
                assert forall|i2: int| 0 <= i2 < i implies pre_neurons[i2] == cur[i2] by {
                    assert(neurons@[i2] == pn[i2]);
                }
                lemma_render_layer_prefix(pre_neurons, cur, i as int);
                assert(cur[i as int] == n@);
                assert(render_layer(cur, i as int + 1) == render_layer(cur, i as int)
                    + render_neuron(n@));
                assert(bytes@.take(pos as int) == bytes@.take(pos0) + render_u32(n_count_c)
                    + render_u32(width_c) + render_layer(cur, i as int + 1));
                assert forall|v: Seq<Seq<NeuronView>>| #[trigger] snapshot_of(v, bytes@) implies (
                forall|i2: int| 0 <= i2 < i + 1 ==> neurons@[i2]@ == v[l as int][i2]) by {
                    assert forall|i2: int| 0 <= i2 < i + 1 implies neurons@[i2]@ == v[l as int][i2] by {
                        if i2 == i {
                            assert(wv =~= v[l as int][i as int].weights);
                            assert(neurons@[i2]@ == v[l as int][i2]);
                        } else {
                            assert(neurons@[i2] == pn[i2]);
                        }
                    }
                }
            }
            i = i + 1;
        }
        let ghost nv = Seq::new(neurons@.len(), |i2: int| neurons@[i2]@);
        let ghost pl = layers@;
        layers.push(Layer { neurons });
        proof {
            let cur = Seq::new(layers@.len(), |l2: int| layers@[l2]@);
            assert forall|l2: int| 0 <= l2 < l implies pre_view[l2] == cur[l2] by {
                assert(layers@[l2] == pl[l2]);
            }
            lemma_render_layers_prefix(pre_view, cur, l as int);
            assert(cur[l as int] =~= nv);
            assert(cur[l as int].len() == n_count_c as int);
            assert(cur[l as int][0].weights.len() == width_c as int);
            assert(render_layers(cur, l as int + 1) == render_layers(cur, l as int) + render_u32(
                n_count_c,
            ) + render_u32(width_c) + render_layer(cur[l as int], cur[l as int].len() as int));
            assert(bytes@.take(pos as int) == render_u32(nl32) + render_layers(cur, l as int + 1));
            assert forall|v: Seq<Seq<NeuronView>>| #[trigger] snapshot_of(v, bytes@) implies ((
            forall|l2: int| 0 <= l2 < l + 1 ==> layers@[l2]@ == v[l2]) && bytes@ == bytes@.take(
                pos as int,
            ) + render_layers_from(v, l as int + 1)) by {
                assert(layers@[l as int]@ =~= nv);
                assert(nv =~= v[l as int]);
                assert forall|l2: int| 0 <= l2 < l + 1 implies layers@[l2]@ == v[l2] by {
                    if l2 < l {
                        assert(layers@[l2] == pl[l2]);
                    }
                }
                assert(render_layer_from(v[l as int], n_count as int) == Seq::<u8>::empty());
                assert(bytes@ =~= bytes@.take(pos as int) + render_layers_from(v, l as int + 1));
            }
        }
        l = l + 1;
    }
    if pos != bytes.len() {
        proof {
            assert forall|v: Seq<Seq<NeuronView>>| #[trigger] snapshot_of(v, bytes@)
                implies false by {
                assert(l == v.len());
                assert(render_layers_from(v, l as int) == Seq::<u8>::empty());
                assert(bytes@ =~= bytes@.take(pos as int));
                assert(bytes@.len() == pos);
            }
        }
        return Err(NetError::PersistenceError);
    }
    let ghost lv = layers@;
    let net = Network { layers };
    proof {
        assert(net.layers@ == lv);
        assert(net@ =~~= Seq::new(net.layers@.len(), |l2: int| net.layers@[l2]@));
        assert(bytes@.take(bytes@.len() as int) =~= bytes@);
        assert(render_net(net@) == bytes@);
        assert forall|l2: int, i2: int|
            0 <= l2 < net@.len() && 0 <= i2 < net@[l2].len() implies #[trigger] net@[l2][i2]
            .weights.len() == layer_in_width(net@, l2) by {
            assert(net@[l2][i2] == net.layers@[l2]@[i2]);
        }
        assert(net_wf(net@));
        assert forall|v: Seq<Seq<NeuronView>>| #[trigger] snapshot_of(v, bytes@) implies net@
            == v by {
            assert(num_layers == v.len());
            assert forall|l2: int| 0 <= l2 < v.len() implies net@[l2] == v[l2] by {
                assert(net@[l2] == lv[l2]@);
                assert(lv[l2]@ == v[l2]);
            }
            assert(net@ =~= v);
        }
    }
    Ok(net)
}

} // verus!
