//! The brain of an agent: a layered weight tensor, the geometry of its
//! sensors and its activation policy.
//!
//! A brain is made once, at birth or from a parent, and not edited after.
//! The numbers in it come from the embedding program; this module gives them
//! their place and keeps the tensor in step with the layer widths.

use crate::activations::Activation;
use crate::scalar::{Scalar, TAU_BITS};
use crate::utils::{cap, capped};
use vstd::prelude::*;

verus! {

/// A layered feed-forward network with its sensor geometry.
#[derive(Debug)]
pub struct Brain {
    pub network_shape: Vec<i32>,
    pub neuron_separation_radians: Scalar,
    pub weights: Vec<Vec<Vec<Scalar>>>,
    pub neuron_angles: Vec<Scalar>,
    pub neuron_length: Scalar,
    pub activation: Activation,
}

/// The mathematical content of a [`Brain`].
pub struct BrainView {
    pub network_shape: Seq<i32>,
    pub neuron_separation_radians: Scalar,
    pub weights: Seq<Seq<Seq<Scalar>>>,
    pub neuron_angles: Seq<Scalar>,
    pub neuron_length: Scalar,
    pub activation: Activation,
}

/// The rows of a matrix as sequences.
pub open spec fn matrix_view(matrix: Seq<Vec<Scalar>>) -> Seq<Seq<Scalar>> {
    Seq::new(matrix.len(), |r: int| matrix[r]@)
}

/// The layers of a weight tensor as sequences of rows.
pub open spec fn tensor_view(tensor: Seq<Vec<Vec<Scalar>>>) -> Seq<Seq<Seq<Scalar>>> {
    Seq::new(tensor.len(), |l: int| matrix_view(tensor[l]@))
}

/// A layer width as a count: a width below zero counts as none.
pub open spec fn width(w: i32) -> nat {
    if w > 0 {
        w as nat
    } else {
        0
    }
}

/// Whether a tensor has, for every layer `l`, `shape[l + 1]` rows of
/// `shape[l]` weights each.
pub open spec fn fits(weights: Seq<Seq<Seq<Scalar>>>, shape: Seq<i32>) -> bool {
    &&& shape.len() >= 1
    &&& weights.len() == shape.len() - 1
    &&& forall|l: int|
        0 <= l < weights.len() ==> (#[trigger] weights[l]).len() == width(shape[l + 1])
    &&& forall|l: int, r: int|
        0 <= l < weights.len() && 0 <= r < weights[l].len() ==> (#[trigger] weights[l][r]).len()
            == width(shape[l])
}

/// The rows of a matrix laid end to end.
pub open spec fn flat_rows(matrix: Seq<Seq<Scalar>>) -> Seq<Scalar>
    decreases matrix.len(),
{
    if matrix.len() == 0 {
        Seq::empty()
    } else {
        flat_rows(matrix.drop_last()) + matrix.last()
    }
}

/// The layers of a tensor laid end to end, each row by row.
pub open spec fn flat(tensor: Seq<Seq<Seq<Scalar>>>) -> Seq<Scalar>
    decreases tensor.len(),
{
    if tensor.len() == 0 {
        Seq::empty()
    } else {
        flat(tensor.drop_last()) + flat_rows(tensor.last())
    }
}

/// The number of weights in the first `layers` layers of a network.
pub open spec fn weights_upto(shape: Seq<i32>, layers: int) -> nat
    decreases layers,
{
    if layers <= 0 || layers >= shape.len() {
        0
    } else {
        weights_upto(shape, layers - 1) + width(shape[layers]) * width(shape[layers - 1])
    }
}

/// The number of weights in a network of the given layer widths.
pub open spec fn weight_total(shape: Seq<i32>) -> nat {
    weights_upto(shape, shape.len() - 1)
}

/// The multiples of the separation angle at which the sensors of a brain
/// with `input_neurons` sensors point: `i - input_neurons / 2` for sensor `i`.
pub open spec fn offsets(input_neurons: i32) -> Seq<i32> {
    Seq::new(width(input_neurons), |i: int| (i - input_neurons / 2) as i32)
}

impl View for Brain {
    type V = BrainView;

    open spec fn view(&self) -> BrainView {
        BrainView {
            network_shape: self.network_shape@,
            neuron_separation_radians: self.neuron_separation_radians,
            weights: tensor_view(self.weights@),
            neuron_angles: self.neuron_angles@,
            neuron_length: self.neuron_length,
            activation: self.activation,
        }
    }
}

impl BrainView {
    /// The number of sensors, which is the width of the first layer.
    pub open spec fn sensors(self) -> nat {
        if self.network_shape.len() > 0 {
            width(self.network_shape[0])
        } else {
            0
        }
    }

    /// The number of outputs, which is the width of the last layer.
    pub open spec fn outputs(self) -> nat {
        if self.network_shape.len() > 0 {
            width(self.network_shape.last())
        } else {
            0
        }
    }

    /// The invariant of a brain: at least two layers, each at least one
    /// neuron wide; a weight matrix of `shape[l + 1]` rows by `shape[l]`
    /// columns for every layer `l`; one sensor angle for every input neuron.
    pub open spec fn well_formed(self) -> bool {
        &&& self.network_shape.len() >= 2
        &&& forall|l: int| 0 <= l < self.network_shape.len() ==> self.network_shape[l] >= 1
        &&& fits(self.weights, self.network_shape)
        &&& self.neuron_angles.len() == width(self.network_shape[0])
    }
}

/// The weights counted up to a layer do not shrink as the layer grows.
pub proof fn lemma_weights_upto_grows(shape: Seq<i32>, a: int, b: int)
    requires
        0 <= a <= b < shape.len(),
    ensures
        weights_upto(shape, a) <= weights_upto(shape, b),
    decreases b - a,
{
    if a < b {
        lemma_weights_upto_grows(shape, a, b - 1);
    }
}

/// The number of weights that a network of the given layer widths holds,
/// or `None` where that number does not fit the machine.
pub fn weight_count(network_shape: &Vec<i32>) -> (count: Option<usize>)
    ensures
        count is Some <==> weight_total(network_shape@) <= usize::MAX,
        count matches Some(n) ==> n == weight_total(network_shape@),
{
    let mut total: usize = 0;
    let mut layer: usize = 1;
    while layer < network_shape.len()
        invariant
            1 <= layer,
            layer <= network_shape.len() || network_shape.len() == 0,
            total == weights_upto(network_shape@, layer - 1),
        decreases network_shape.len() - layer,
    {
        let rows: usize = positive(network_shape[layer]);
        let cols: usize = positive(network_shape[layer - 1]);
        proof {
            lemma_weights_upto_grows(network_shape@, layer as int, network_shape.len() - 1);
        }
        let size = match rows.checked_mul(cols) {
            Some(size) => size,
            None => { return None; },
        };
        total = match total.checked_add(size) {
            Some(sum) => sum,
            None => { return None; },
        };
        layer += 1;
    }
    Some(total)
}

/// A layer width as a count.
fn positive(w: i32) -> (n: usize)
    ensures
        n == width(w),
{
    if w > 0 {
        w as usize
    } else {
        0
    }
}

/// Lays `values` out as the weight tensor of a network: layer by layer, row
/// by row, in the order given. `None` where the number of values is not the
/// number of weights of the network.
fn arrange(network_shape: &Vec<i32>, values: &Vec<Scalar>) -> (tensor: Option<
    Vec<Vec<Vec<Scalar>>>,
>)
    ensures
        tensor is Some <==> network_shape.len() >= 1 && values.len() == weight_total(
            network_shape@,
        ),
        tensor matches Some(w) ==> fits(tensor_view(w@), network_shape@) && flat(
            tensor_view(w@),
        ) == values@,
{
    if network_shape.len() == 0 {
        return None;
    }
    let ghost shape = network_shape@;
    let mut weights: Vec<Vec<Vec<Scalar>>> = Vec::new();
    let mut k: usize = 0;
    let mut layer: usize = 0;
    proof {
        assert(flat(tensor_view(weights@)) =~= values@.subrange(0, 0));
    }
    while layer < network_shape.len() - 1
        invariant
            shape == network_shape@,
            shape.len() >= 1,
            layer <= shape.len() - 1,
            k <= values.len(),
            k == weights_upto(shape, layer as int),
            weights.len() == layer,
            fits(tensor_view(weights@), shape.subrange(0, layer + 1)),
            flat(tensor_view(weights@)) == values@.subrange(0, k as int),
        decreases shape.len() - layer,
    {
        let rows: i32 = network_shape[layer + 1];
        let cols: i32 = network_shape[layer];
        let ghost base = k as int;
        let mut matrix: Vec<Vec<Scalar>> = Vec::new();
        let mut r: i32 = 0;
        proof {
            assert(flat_rows(matrix_view(matrix@)) =~= values@.subrange(base, base));
            assert(0 * width(cols) == 0) by (nonlinear_arith);
        }
        while r < rows
            invariant
                shape == network_shape@,
                layer < shape.len() - 1,
                rows == shape[layer + 1],
                cols == shape[layer as int],
                0 <= r,
                r <= width(rows),
                matrix.len() == r,
                base == weights_upto(shape, layer as int),
                base <= k <= values.len(),
                k == base + r * width(cols),
                forall|i: int| 0 <= i < matrix.len() ==> (#[trigger] matrix[i]).len() == width(cols),
                flat_rows(matrix_view(matrix@)) == values@.subrange(base, k as int),
            decreases rows - r,
        {
            let ghost row_base = k as int;
            let mut row: Vec<Scalar> = Vec::new();
            let mut c: i32 = 0;
            proof {
                assert(row@ =~= values@.subrange(row_base, row_base));
            }
            while c < cols
                invariant
                    shape == network_shape@,
                    layer < shape.len() - 1,
                    rows == shape[layer + 1],
                    cols == shape[layer as int],
                    0 <= r < rows,
                    0 <= c,
                    c <= width(cols),
                    row.len() == c,
                    base == weights_upto(shape, layer as int),
                    row_base == base + r * width(cols),
                    row_base <= k <= values.len(),
                    k == row_base + c,
                    row@ == values@.subrange(row_base, k as int),
                decreases cols - c,
            {
                if k >= values.len() {
                    proof {
                        lemma_weights_upto_grows(shape, layer + 1, shape.len() - 1);
                        assert(r * width(cols) + c < width(rows) * width(cols))
                            by (nonlinear_arith)
                            requires
                                0 <= r < width(rows),
                                0 <= c < width(cols),
                        ;
                    }
                    return None;
                }
                row.push(values[k]);
                k += 1;
                c += 1;
                proof {
                    assert(row@ =~= values@.subrange(row_base, k as int));
                }
            }
            proof {
                let before = matrix_view(matrix@);
                let after = matrix_view(matrix@.push(row));
                assert(after =~= before.push(row@));
                assert(after.drop_last() =~= before);
                assert(flat_rows(after) =~= values@.subrange(base, k as int));
                assert((r + 1) * width(cols) == r * width(cols) + width(cols))
                    by (nonlinear_arith);
            }
            matrix.push(row);
            r += 1;
        }
        proof {
            let before = tensor_view(weights@);
            let after = tensor_view(weights@.push(matrix));
            assert(after =~= before.push(matrix_view(matrix@)));
            assert(after.drop_last() =~= before);
            assert(flat(after) =~= values@.subrange(0, k as int));
            assert(r == width(rows));
            assert(r * width(cols) == width(rows) * width(cols)) by (nonlinear_arith)
                requires
                    r == width(rows),
            ;
            assert forall|l: int| 0 <= l < after.len() implies (#[trigger] after[l]).len()
                == width(shape.subrange(0, layer + 2)[l + 1]) by {
                if l < before.len() {
                    assert(after[l] == before[l]);
                    assert(shape.subrange(0, layer + 1)[l + 1] == shape[l + 1]);
                }
            }
            assert forall|l: int, i: int|
                0 <= l < after.len() && 0 <= i < after[l].len() implies (#[trigger] after[l][i]).len()
                == width(shape.subrange(0, layer + 2)[l]) by {
                if l < before.len() {
                    assert(after[l] == before[l]);
                    assert(before[l][i].len() == width(shape.subrange(0, layer + 1)[l]));
                } else {
                    assert(after[l][i] == matrix[i]@);
                }
            }
        }
        weights.push(matrix);
        layer += 1;
    }
    proof {
        assert(shape.subrange(0, layer + 1) =~= shape);
    }
    if k != values.len() {
        return None;
    }
    proof {
        assert(values@.subrange(0, k as int) =~= values@);
    }
    Some(weights)
}

/// Whether a tensor has the dimensions that the layer widths ask for.
pub fn conforms(weights: &Vec<Vec<Vec<Scalar>>>, network_shape: &Vec<i32>) -> (ok: bool)
    ensures
        ok == fits(tensor_view(weights@), network_shape@),
{
    if network_shape.len() == 0 || weights.len() != network_shape.len() - 1 {
        return false;
    }
    let ghost tensor = tensor_view(weights@);
    let mut layer: usize = 0;
    while layer < weights.len()
        invariant
            tensor == tensor_view(weights@),
            weights.len() == network_shape.len() - 1,
            layer <= weights.len(),
            forall|l: int| 0 <= l < layer ==> (#[trigger] tensor[l]).len() == width(
                network_shape[l + 1],
            ),
            forall|l: int, r: int|
                0 <= l < layer && 0 <= r < tensor[l].len() ==> (#[trigger] tensor[l][r]).len()
                    == width(network_shape[l]),
        decreases weights.len() - layer,
    {
        let rows: usize = positive(network_shape[layer + 1]);
        let cols: usize = positive(network_shape[layer]);
        if weights[layer].len() != rows {
            assert(tensor[layer as int].len() != width(network_shape[layer + 1]));
            return false;
        }
        let mut row: usize = 0;
        while row < rows
            invariant
                tensor == tensor_view(weights@),
                layer < weights.len(),
                weights[layer as int].len() == rows,
                row <= rows,
                cols == width(network_shape[layer as int]),
                forall|r: int| 0 <= r < row ==> (#[trigger] tensor[layer as int][r]).len() == cols,
            decreases rows - row,
        {
            if weights[layer][row].len() != cols {
                assert(tensor[layer as int][row as int].len() != cols);
                return false;
            }
            row += 1;
        }
        layer += 1;
    }
    true
}

impl Brain {
    /// Puts a brain together from its parts, or returns `None` where the
    /// parts do not make a well-formed brain.
    pub fn new(
        network_shape: Vec<i32>,
        neuron_separation_radians: Scalar,
        neuron_length: Scalar,
        weights: Vec<Vec<Vec<Scalar>>>,
        neuron_angles: Vec<Scalar>,
        activation: Activation,
    ) -> (brain: Option<Brain>)
        ensures
            brain is Some <==> (BrainView {
                network_shape: network_shape@,
                neuron_separation_radians,
                weights: tensor_view(weights@),
                neuron_angles: neuron_angles@,
                neuron_length,
                activation,
            }).well_formed(),
            brain matches Some(b) ==> b == (Brain {
                network_shape,
                neuron_separation_radians,
                weights,
                neuron_angles,
                neuron_length,
                activation,
            }),
    {
        let brain = Brain {
            network_shape,
            neuron_separation_radians,
            weights,
            neuron_angles,
            neuron_length,
            activation,
        };
        if brain.is_well_formed() {
            Some(brain)
        } else {
            None
        }
    }

    /// The invariant of a brain, on the brain itself.
    pub open spec fn well_formed(&self) -> bool {
        self@.well_formed()
    }

    /// The multiples of the separation angle at which the sensors point:
    /// sensor `i` of `input_neurons` looks along `i - input_neurons / 2`
    /// separations from the heading.
    pub fn neuron_offsets(input_neurons: i32) -> (multiples: Vec<i32>)
        ensures
            multiples@ == offsets(input_neurons),
    {
        let mut multiples: Vec<i32> = Vec::new();
        let mut i: i32 = 0;
        while i < input_neurons
            invariant
                0 <= i,
                i <= width(input_neurons),
                multiples.len() == i,
                forall|j: int| 0 <= j < i ==> multiples[j] == j - input_neurons / 2,
            decreases input_neurons - i,
        {
            multiples.push(i - input_neurons / 2);
            i += 1;
        }
        assert(multiples@ =~= offsets(input_neurons));
        multiples
    }

    /// The weight tensor of a newborn: the drawn values laid out layer by
    /// layer and row by row, in the order drawn. `None` where the number of
    /// values drawn is not the number of weights of the network.
    pub fn init_random(network_shape: &Vec<i32>, draws: &Vec<Scalar>) -> (weights: Option<
        Vec<Vec<Vec<Scalar>>>,
    >)
        ensures
            weights is Some <==> network_shape.len() >= 1 && draws.len() == weight_total(
                network_shape@,
            ),
            weights matches Some(w) ==> fits(tensor_view(w@), network_shape@) && flat(
                tensor_view(w@),
            ) == draws@,
    {
        arrange(network_shape, draws)
    }

    /// The tensor of changes that a mutation adds to a parent's weights: the
    /// scaled draws laid out as the weights themselves are.
    pub fn delta(network_shape: &Vec<i32>, scaled_draws: &Vec<Scalar>) -> (changes: Option<
        Vec<Vec<Vec<Scalar>>>,
    >)
        ensures
            changes is Some <==> network_shape.len() >= 1 && scaled_draws.len() == weight_total(
                network_shape@,
            ),
            changes matches Some(d) ==> fits(tensor_view(d@), network_shape@) && flat(
                tensor_view(d@),
            ) == scaled_draws@,
    {
        arrange(network_shape, scaled_draws)
    }

    /// The separation angle of a child: the parent's separation with its
    /// jitter added, capped into `[0, 2π]`.
    pub fn mutated_separation(jittered: Scalar) -> (separation: Scalar)
        ensures
            separation == capped(jittered, Scalar { bits: TAU_BITS }),
    {
        cap(jittered, Scalar::from_bits(TAU_BITS))
    }

    /// The brain of a child: the parent's layer widths, sensor length and
    /// activation policy, with the mutated weights and sensor geometry
    /// given, the separation angle capped into `[0, 2π]`. The parent is not
    /// changed. `None` where the parts given do not fit the parent's layer
    /// widths.
    pub fn make_child(
        &self,
        weights: Vec<Vec<Vec<Scalar>>>,
        jittered_separation: Scalar,
        neuron_angles: Vec<Scalar>,
    ) -> (child: Option<Brain>)
        ensures
            child is Some <==> (BrainView {
                network_shape: self.network_shape@,
                neuron_separation_radians: capped(jittered_separation, Scalar { bits: TAU_BITS }),
                weights: tensor_view(weights@),
                neuron_angles: neuron_angles@,
                neuron_length: self.neuron_length,
                activation: self.activation,
            }).well_formed(),
            child matches Some(b) ==> b@ == (BrainView {
                network_shape: self.network_shape@,
                neuron_separation_radians: capped(jittered_separation, Scalar { bits: TAU_BITS }),
                weights: tensor_view(weights@),
                neuron_angles: neuron_angles@,
                neuron_length: self.neuron_length,
                activation: self.activation,
            }) && b.weights == weights && b.neuron_angles == neuron_angles,
    {
        let network_shape = self.network_shape.clone();
        assert(network_shape@ =~= self.network_shape@);
        Brain::new(
            network_shape,
            Brain::mutated_separation(jittered_separation),
            self.neuron_length,
            weights,
            neuron_angles,
            self.activation,
        )
    }

    /// The length of the stimulus that the brain takes.
    pub fn sensors(&self) -> (n: usize)
        ensures
            n == self@.sensors(),
    {
        if self.network_shape.len() > 0 {
            positive(self.network_shape[0])
        } else {
            0
        }
    }

    /// The length of the response that the brain gives.
    pub fn outputs(&self) -> (n: usize)
        ensures
            n == self@.outputs(),
    {
        if self.network_shape.len() > 0 {
            positive(self.network_shape[self.network_shape.len() - 1])
        } else {
            0
        }
    }

    /// Whether the activation policy is applied to what layer `layer` of
    /// `layers` puts out: after every layer but the last it is, and after
    /// the last as `last_too` says.
    pub fn activates(layer: usize, layers: usize, last_too: bool) -> (applied: bool)
        ensures
            applied == (layer < layers && (layer + 1 < layers || last_too)),
    {
        layer < layers && (layer < layers - 1 || last_too)
    }

    /// The number of layers that weights lead into: one less than the
    /// number of layer widths.
    pub fn layers(&self) -> (n: usize)
        ensures
            n == if self.network_shape.len() > 0 {
                self.network_shape.len() - 1
            } else {
                0
            },
    {
        if self.network_shape.len() > 0 {
            self.network_shape.len() - 1
        } else {
            0
        }
    }

    /// Whether the brain satisfies its invariant.
    pub fn is_well_formed(&self) -> (ok: bool)
        ensures
            ok == self.well_formed(),
    {
        if self.network_shape.len() < 2 {
            return false;
        }
        let mut layer: usize = 0;
        while layer < self.network_shape.len()
            invariant
                layer <= self.network_shape.len(),
                forall|l: int| 0 <= l < layer ==> self.network_shape[l] >= 1,
            decreases self.network_shape.len() - layer,
        {
            if self.network_shape[layer] < 1 {
                return false;
            }
            layer += 1;
        }
        conforms(&self.weights, &self.network_shape) && self.neuron_angles.len() == positive(
            self.network_shape[0],
        )
    }
}

} // verus!
