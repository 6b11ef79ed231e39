use blobworld::activations::Activation;
use blobworld::brains::{conforms, weight_count, Brain};
use blobworld::scalar::Scalar;
use blobworld::utils::same_dimensions;

fn val(x: f32) -> Scalar {
    Scalar::from_bits(x.to_bits())
}

fn vals(xs: &[f32]) -> Vec<Scalar> {
    xs.iter().map(|x| val(*x)).collect()
}

fn counted(n: usize) -> Vec<Scalar> {
    (0..n).map(|k| val(k as f32)).collect()
}

fn small_brain() -> Brain {
    let shape = vec![3, 2];
    let weights = Brain::init_random(&shape, &counted(6)).unwrap();
    Brain::new(shape, val(0.1), val(10.0), weights, vals(&[-0.1, 0.0, 0.1]), Activation::Tanh)
        .unwrap()
}

#[test]
fn weight_count_sums_rows_times_columns() {
    assert_eq!(weight_count(&vec![3, 4, 2]), Some(3 * 4 + 4 * 2));
    assert_eq!(weight_count(&vec![5, 2]), Some(10));
    assert_eq!(weight_count(&vec![7]), Some(0));
    assert_eq!(weight_count(&vec![]), Some(0));
}

#[test]
fn weight_count_takes_widths_below_zero_as_none() {
    assert_eq!(weight_count(&vec![3, -4, 2]), Some(0));
    assert_eq!(weight_count(&vec![3, 0, 2]), Some(0));
}

#[test]
fn weight_count_reports_what_does_not_fit() {
    let wide = i32::MAX;
    let shape = vec![wide, wide, wide, wide, wide, wide, wide, wide, wide];
    let exact: u128 = 8 * (wide as u128) * (wide as u128);
    if exact > usize::MAX as u128 {
        assert_eq!(weight_count(&shape), None);
    } else {
        assert_eq!(weight_count(&shape), Some(exact as usize));
    }
}

#[test]
fn init_random_lays_draws_out_layer_by_layer_row_by_row() {
    let weights = Brain::init_random(&vec![3, 2, 1], &counted(8)).unwrap();
    assert_eq!(
        weights,
        vec![
            vec![vals(&[0.0, 1.0, 2.0]), vals(&[3.0, 4.0, 5.0])],
            vec![vals(&[6.0, 7.0])],
        ]
    );
}

#[test]
fn init_random_gives_shape_l_plus_one_rows_of_shape_l_columns() {
    let shape = vec![4, 3, 5, 2];
    let count = weight_count(&shape).unwrap();
    assert_eq!(count, 4 * 3 + 3 * 5 + 5 * 2);
    let weights = Brain::init_random(&shape, &counted(count)).unwrap();
    assert_eq!(weights.len(), 3);
    for layer in 0..3 {
        assert_eq!(weights[layer].len(), shape[layer + 1] as usize);
        for row in &weights[layer] {
            assert_eq!(row.len(), shape[layer] as usize);
        }
    }
    assert!(conforms(&weights, &shape));
}

#[test]
fn init_random_wants_exactly_as_many_draws_as_weights() {
    assert!(Brain::init_random(&vec![3, 2], &counted(5)).is_none());
    assert!(Brain::init_random(&vec![3, 2], &counted(7)).is_none());
    assert!(Brain::init_random(&vec![3, 2], &counted(6)).is_some());
    assert!(Brain::init_random(&vec![], &counted(0)).is_none());
}

#[test]
fn init_random_of_one_layer_is_empty() {
    assert_eq!(Brain::init_random(&vec![3], &counted(0)), Some(vec![]));
}

#[test]
fn delta_is_laid_out_as_the_weights_are() {
    let shape = vec![2, 2, 2];
    let scaled = vals(&[0.01, -0.02, 0.03, -0.04, 0.05, -0.06, 0.07, -0.08]);
    let changes = Brain::delta(&shape, &scaled).unwrap();
    assert_eq!(
        changes,
        vec![
            vec![vals(&[0.01, -0.02]), vals(&[0.03, -0.04])],
            vec![vals(&[0.05, -0.06]), vals(&[0.07, -0.08])],
        ]
    );
    assert!(Brain::delta(&shape, &vals(&[0.01])).is_none());
}

#[test]
fn conforms_checks_every_row() {
    let shape = vec![3, 2];
    assert!(conforms(&vec![vec![counted(3), counted(3)]], &shape));
    assert!(!conforms(&vec![vec![counted(3), counted(2)]], &shape));
    assert!(!conforms(&vec![vec![counted(3)]], &shape));
    assert!(!conforms(&vec![], &shape));
    assert!(!conforms(&vec![vec![counted(3), counted(3)], vec![]], &shape));
    assert!(!conforms(&vec![], &vec![]));
    assert!(conforms(&vec![], &vec![4]));
}

#[test]
fn neuron_offsets_are_centred_on_the_heading() {
    assert_eq!(Brain::neuron_offsets(5), vec![-2, -1, 0, 1, 2]);
    assert_eq!(Brain::neuron_offsets(4), vec![-2, -1, 0, 1]);
    assert_eq!(Brain::neuron_offsets(1), vec![0]);
    assert_eq!(Brain::neuron_offsets(0), Vec::<i32>::new());
    assert_eq!(Brain::neuron_offsets(-3), Vec::<i32>::new());
}

#[test]
fn new_keeps_its_parts() {
    let brain = small_brain();
    assert_eq!(brain.network_shape, vec![3, 2]);
    assert_eq!(brain.neuron_separation_radians, val(0.1));
    assert_eq!(brain.neuron_length, val(10.0));
    assert_eq!(brain.weights, vec![vec![vals(&[0.0, 1.0, 2.0]), vals(&[3.0, 4.0, 5.0])]]);
    assert_eq!(brain.neuron_angles, vals(&[-0.1, 0.0, 0.1]));
    assert_eq!(brain.activation, Activation::Tanh);
    assert!(brain.is_well_formed());
}

#[test]
fn new_refuses_what_is_not_well_formed() {
    let good = || Brain::init_random(&vec![3, 2], &counted(6)).unwrap();
    let angles = || vals(&[-0.1, 0.0, 0.1]);
    let none = Activation::Identity;
    assert!(Brain::new(vec![3], val(0.1), val(1.0), vec![], angles(), none).is_none());
    assert!(Brain::new(vec![], val(0.1), val(1.0), vec![], vec![], none).is_none());
    assert!(Brain::new(vec![3, 0], val(0.1), val(1.0), vec![vec![]], angles(), none).is_none());
    assert!(Brain::new(vec![2, 2], val(0.1), val(1.0), good(), vals(&[0.0, 0.1]), none).is_none());
    assert!(Brain::new(vec![3, 2], val(0.1), val(1.0), good(), vals(&[0.0, 0.1]), none).is_none());
    assert!(Brain::new(vec![3, 2], val(0.1), val(1.0), good(), angles(), none).is_some());
}

#[test]
fn is_well_formed_sees_edits() {
    let mut brain = small_brain();
    assert!(brain.is_well_formed());
    brain.weights[0][1].pop();
    assert!(!brain.is_well_formed());
    let mut brain = small_brain();
    brain.neuron_angles.push(val(0.2));
    assert!(!brain.is_well_formed());
    let mut brain = small_brain();
    brain.network_shape[1] = 0;
    assert!(!brain.is_well_formed());
}

#[test]
fn make_child_inherits_topology_and_leaves_the_parent() {
    let parent = small_brain();
    let weights = Brain::init_random(&parent.network_shape, &vals(&[9.0; 6])).unwrap();
    let child = parent.make_child(weights, val(0.11), vals(&[-0.11, 0.0, 0.11])).unwrap();
    assert_eq!(child.network_shape, parent.network_shape);
    assert_eq!(child.neuron_length, parent.neuron_length);
    assert_eq!(child.activation, parent.activation);
    assert_eq!(child.neuron_separation_radians, val(0.11));
    assert_eq!(child.neuron_angles, vals(&[-0.11, 0.0, 0.11]));
    assert_eq!(child.weights, vec![vec![vals(&[9.0; 3]), vals(&[9.0; 3])]]);
    assert!(child.is_well_formed());
    assert_eq!(parent.weights, vec![vec![vals(&[0.0, 1.0, 2.0]), vals(&[3.0, 4.0, 5.0])]]);
    assert_eq!(parent.neuron_separation_radians, val(0.1));
}

#[test]
fn make_child_refuses_weights_of_another_topology() {
    let parent = small_brain();
    let weights = Brain::init_random(&vec![2, 2], &counted(4)).unwrap();
    assert!(parent.make_child(weights, val(0.1), vals(&[-0.1, 0.0, 0.1])).is_none());
    let weights = Brain::init_random(&vec![3, 2], &counted(6)).unwrap();
    assert!(parent.make_child(weights, val(0.1), vals(&[0.0])).is_none());
}

#[test]
fn sensors_and_outputs_are_the_outer_widths() {
    let brain = small_brain();
    assert_eq!(brain.sensors(), 3);
    assert_eq!(brain.outputs(), 2);
    assert_eq!(brain.layers(), 1);
}

#[test]
fn activation_skips_the_last_layer_unless_asked() {
    assert!(Brain::activates(0, 3, false));
    assert!(Brain::activates(1, 3, false));
    assert!(!Brain::activates(2, 3, false));
    assert!(Brain::activates(2, 3, true));
    assert!(!Brain::activates(3, 3, true));
    assert!(!Brain::activates(0, 0, true));
}

#[test]
fn mutated_separation_is_capped_into_a_full_turn() {
    let tau = std::f32::consts::TAU;
    assert_eq!(Brain::mutated_separation(val(0.105)), val(0.105));
    assert_eq!(Brain::mutated_separation(val(-0.004)), val(0.0));
    assert_eq!(Brain::mutated_separation(val(tau + 0.01)), val(tau));
    assert_eq!(Brain::mutated_separation(val(tau)), val(tau));
    assert_eq!(Brain::mutated_separation(val(0.0)), val(0.0));
}

#[test]
fn make_child_caps_the_jittered_separation() {
    let parent = small_brain();
    let weights = || Brain::init_random(&vec![3, 2], &counted(6)).unwrap();
    let angles = || vals(&[0.0, 0.0, 0.0]);
    let child = parent.make_child(weights(), val(-0.003), angles()).unwrap();
    assert_eq!(child.neuron_separation_radians, val(0.0));
    let child = parent.make_child(weights(), val(7.0), angles()).unwrap();
    assert_eq!(child.neuron_separation_radians, val(std::f32::consts::TAU));
}

#[test]
fn same_dimensions_compares_every_row() {
    let a = Brain::init_random(&vec![3, 2, 1], &counted(8)).unwrap();
    let b = Brain::init_random(&vec![3, 2, 1], &vals(&[0.5; 8])).unwrap();
    let c = Brain::init_random(&vec![2, 3, 1], &counted(9)).unwrap();
    let d = Brain::init_random(&vec![3, 2], &counted(6)).unwrap();
    assert!(same_dimensions(&a, &b));
    assert!(same_dimensions(&a, &a));
    assert!(!same_dimensions(&a, &c));
    assert!(!same_dimensions(&a, &d));
    let mut e = Brain::init_random(&vec![3, 2, 1], &counted(8)).unwrap();
    e[0][1].pop();
    assert!(!same_dimensions(&a, &e));
    assert!(same_dimensions(&Vec::<Vec<Vec<u8>>>::new(), &Vec::new()));
}
