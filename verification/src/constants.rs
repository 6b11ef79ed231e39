//! The tunable constants of a run, fixed when the world is made.

use crate::scalar::Scalar;
use vstd::prelude::*;

verus! {

/// Every tunable of a run. A world holds one value of this type and never
/// changes it.
#[derive(Debug)]
pub struct Constants {
    pub reproduction_distance: Scalar,
    pub step_size: Scalar,
    pub food_energy: Scalar,
    pub neuron_length: Scalar,
    pub world_shape: (Scalar, Scalar),
    pub input_neurons_num: i32,
    pub motion_energy_cost: Scalar,
    pub prey_base_energy_gain: Scalar,
    pub predator_base_energy_loss: Scalar,
    pub mutation_rate: Scalar,
    pub ages: i32,
    pub num_predators: i32,
    pub num_prey: i32,
    pub max_speed: Scalar,
    pub max_angle_diff: Scalar,
    pub graph_neurons: bool,
    pub activation: String,
}

impl Clone for Constants {
    fn clone(&self) -> (copy: Self)
        ensures
            copy == *self,
    {
        Constants {
            reproduction_distance: self.reproduction_distance,
            step_size: self.step_size,
            food_energy: self.food_energy,
            neuron_length: self.neuron_length,
            world_shape: self.world_shape,
            input_neurons_num: self.input_neurons_num,
            motion_energy_cost: self.motion_energy_cost,
            prey_base_energy_gain: self.prey_base_energy_gain,
            predator_base_energy_loss: self.predator_base_energy_loss,
            mutation_rate: self.mutation_rate,
            ages: self.ages,
            num_predators: self.num_predators,
            num_prey: self.num_prey,
            max_speed: self.max_speed,
            max_angle_diff: self.max_angle_diff,
            graph_neurons: self.graph_neurons,
            activation: self.activation.clone(),
        }
    }
}

} // verus!
