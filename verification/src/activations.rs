//! The closed set of activation policies and the names that select them.

use crate::constants::Constants;
use vstd::prelude::*;

verus! {

/// The function applied elementwise between the layers of a brain.
#[derive(Clone, Copy, PartialEq, Eq, Structural, Debug)]
pub enum Activation {
    Sigmoid,
    ReLu,
    LeakyRelu,
    Tanh,
    Identity,
}

/// The policy that a configured name selects: the four known names select
/// their policy, every other name selects no activation at all.
pub open spec fn activation_named(name: Seq<char>) -> Activation {
    if name == "sigmoid"@ {
        Activation::Sigmoid
    } else if name == "relu"@ {
        Activation::ReLu
    } else if name == "leaky_relu"@ {
        Activation::LeakyRelu
    } else if name == "tanh"@ {
        Activation::Tanh
    } else {
        Activation::Identity
    }
}

fn names(text: &String, name: &str) -> (r: bool)
    ensures
        r == (text@ == name@),
{
    let owned = name.to_owned();
    *text == owned
}

pub fn which_activation(constants: &Constants) -> (r: Activation)
    ensures
        r == activation_named(constants.activation@),
{
    if names(&constants.activation, "sigmoid") {
        Activation::Sigmoid
    } else if names(&constants.activation, "relu") {
        Activation::ReLu
    } else if names(&constants.activation, "leaky_relu") {
        Activation::LeakyRelu
    } else if names(&constants.activation, "tanh") {
        Activation::Tanh
    } else {
        Activation::Identity
    }
}

} // verus!
