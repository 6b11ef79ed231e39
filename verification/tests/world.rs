use blobworld::activations::Activation;
use blobworld::blobs::{Birth, Blob, BlobType};
use blobworld::brains::Brain;
use blobworld::constants::Constants;
use blobworld::scalar::Scalar;
use blobworld::utils::{collect_by_index, remove_marked};
use blobworld::phases::TickError;
use blobworld::world::{make_world, EnergyChange, Gap, Motion, Seed, World};

fn sc(x: f32) -> Scalar {
    Scalar::from_bits(x.to_bits())
}

fn float(s: Scalar) -> f32 {
    f32::from_bits(s.to_bits())
}

fn brain() -> Brain {
    let shape = vec![3, 2];
    let draws: Vec<Scalar> = (0..6).map(|k| sc(k as f32 / 10.0)).collect();
    let weights = Brain::init_random(&shape, &draws).unwrap();
    let angles = vec![sc(-0.1), sc(0.0), sc(0.1)];
    Brain::new(shape, sc(0.1), sc(10.0), weights, angles, Activation::Sigmoid).unwrap()
}

fn blob(kind: BlobType, x: f32, y: f32, energy: f32) -> Blob {
    Blob::new(brain(), (sc(x), sc(y)), sc(0.0), kind, sc(energy))
}

fn constants() -> Constants {
    Constants {
        reproduction_distance: sc(1.5),
        step_size: sc(0.1),
        food_energy: sc(0.5),
        neuron_length: sc(10.0),
        world_shape: (sc(100.0), sc(80.0)),
        input_neurons_num: 3,
        motion_energy_cost: sc(0.01),
        prey_base_energy_gain: sc(0.05),
        predator_base_energy_loss: sc(0.02),
        mutation_rate: sc(0.1),
        ages: 3,
        num_predators: 1,
        num_prey: 2,
        max_speed: sc(2.0),
        max_angle_diff: sc(0.3),
        graph_neurons: false,
        activation: "sigmoid".to_string(),
    }
}

fn world_of(kinds_and_energies: &[(BlobType, f32)]) -> World {
    let blobs = kinds_and_energies
        .iter()
        .enumerate()
        .map(|(i, (kind, energy))| blob(*kind, i as f32, 0.0, *energy))
        .collect();
    World::new(blobs, constants())
}

fn xs(world: &World) -> Vec<f32> {
    world.blobs.iter().map(|b| float(b.position.0)).collect()
}

fn birth(x: f32) -> Birth {
    Birth {
        brains: (brain(), brain()),
        positions: ((sc(x - 0.5), sc(1.0)), (sc(x + 0.5), sc(1.0))),
        turned: sc(1.5),
    }
}

fn gap(distance: f32, reach: f32) -> Gap {
    Gap { distance: sc(distance), reach: sc(reach) }
}

fn near() -> Gap {
    gap(0.5, 2.0)
}

fn far() -> Gap {
    gap(50.0, 2.0)
}

const PREY: BlobType = BlobType::Prey;
const PRED: BlobType = BlobType::Predator;

#[test]
fn new_takes_the_box_from_the_constants() {
    let world = world_of(&[(PREY, 1.0)]);
    assert_eq!(world.shape, (sc(100.0), sc(80.0)));
    assert_eq!(world.blobs.len(), 1);
    assert_eq!(world.constants.ages, 3);
    assert!(world.is_well_formed());
}

#[test]
fn is_well_formed_sees_a_broken_brain_and_a_wrong_box() {
    let mut world = world_of(&[(PREY, 1.0), (PRED, 1.0)]);
    world.blobs[1].brain.neuron_angles.pop();
    assert!(!world.is_well_formed());
    let mut world = world_of(&[(PREY, 1.0)]);
    world.shape = (sc(1.0), sc(80.0));
    assert!(!world.is_well_formed());
}

#[test]
fn get_indexes_lists_predators_then_prey() {
    let world = world_of(&[(PREY, 1.0), (PRED, 1.0), (PREY, 1.0), (PRED, 1.0), (PRED, 1.0)]);
    let (predators, preys) = world.get_indexes();
    assert_eq!(predators, vec![1, 3, 4]);
    assert_eq!(preys, vec![0, 2]);
}

#[test]
fn get_indexes_of_an_empty_world() {
    let world = world_of(&[]);
    assert_eq!(world.get_indexes(), (vec![], vec![]));
}

#[test]
fn get_indexes_follows_every_removal() {
    let mut world = world_of(&[(PREY, -1.0), (PRED, 1.0), (PREY, 1.0)]);
    assert_eq!(world.get_indexes(), (vec![1], vec![0, 2]));
    world.starved();
    assert_eq!(world.get_indexes(), (vec![0], vec![1]));
}

#[test]
fn seen_by_lists_the_other_species() {
    let world = world_of(&[(PREY, 1.0), (PRED, 1.0), (PREY, 1.0)]);
    assert_eq!(world.seen_by(PRED), vec![0, 2]);
    assert_eq!(world.seen_by(PREY), vec![1]);
}

#[test]
fn population_counts_by_species() {
    let world = world_of(&[(PREY, 1.0), (PRED, 1.0), (PREY, 1.0)]);
    assert_eq!(world.population(), (3, 2, 1));
    assert_eq!(world_of(&[]).population(), (0, 0, 0));
}

#[test]
fn base_change_goes_by_species() {
    let world = world_of(&[]);
    assert_eq!(world.base_change(PREY), EnergyChange::Gain(sc(0.05)));
    assert_eq!(world.base_change(PRED), EnergyChange::Loss(sc(0.02)));
}

#[test]
fn base_energy_writes_level_i_to_agent_i() {
    let mut world = world_of(&[(PREY, 1.0), (PRED, 1.0), (PREY, 0.0)]);
    assert_eq!(world.base_energy(&vec![sc(1.05), sc(0.98), sc(0.05)]), Ok(()));
    let energies: Vec<f32> = world.blobs.iter().map(|b| float(b.energy)).collect();
    assert_eq!(energies, vec![1.05, 0.98, 0.05]);
    assert_eq!(xs(&world), vec![0.0, 1.0, 2.0]);
    assert_eq!(
        world.base_energy(&vec![sc(1.0)]),
        Err(TickError::Misaligned { expected: 3, found: 1 })
    );
    let energies: Vec<f32> = world.blobs.iter().map(|b| float(b.energy)).collect();
    assert_eq!(energies, vec![1.05, 0.98, 0.05]);
}

#[test]
fn feed_writes_to_the_predators_only() {
    let mut world = world_of(&[(PREY, 1.0), (PRED, 1.0), (PREY, 0.5), (PRED, 0.25)]);
    let (predators, _) = world.get_indexes();
    let interactions = vec![(0, 0), (1, 1), (1, 0)];
    assert_eq!(world.feed(&interactions, &predators, &vec![sc(1.5), sc(1.0)]), Ok(()));
    let energies: Vec<f32> = world.blobs.iter().map(|b| float(b.energy)).collect();
    assert_eq!(energies, vec![1.0, 1.5, 0.5, 1.0]);
}

#[test]
fn feed_lets_the_unfed_keep_their_energy() {
    let mut world = world_of(&[(PREY, 1.0), (PRED, 1.0), (PREY, 0.5), (PRED, 0.25)]);
    let (predators, _) = world.get_indexes();
    let interactions = vec![(0, 0)];
    assert_eq!(
        world.feed(&interactions, &predators, &vec![sc(1.5), sc(0.75)]),
        Err(TickError::Unearned { index: 3 })
    );
    assert_eq!(
        world.feed(&vec![], &predators, &vec![sc(1.5), sc(0.25)]),
        Err(TickError::Unearned { index: 1 })
    );
    let energies: Vec<f32> = world.blobs.iter().map(|b| float(b.energy)).collect();
    assert_eq!(energies, vec![1.0, 1.0, 0.5, 0.25]);
    assert_eq!(world.feed(&interactions, &predators, &vec![sc(1.5), sc(0.25)]), Ok(()));
    let energies: Vec<f32> = world.blobs.iter().map(|b| float(b.energy)).collect();
    assert_eq!(energies, vec![1.0, 1.5, 0.5, 0.25]);
    assert_eq!(world.feed(&vec![], &predators, &vec![sc(1.5), sc(0.25)]), Ok(()));
}

#[test]
fn feed_reports_a_fault_and_writes_nothing() {
    let mut world = world_of(&[(PREY, 1.0), (PRED, 1.0)]);
    let fed_by_all = vec![(0, 0), (1, 0)];
    assert_eq!(
        world.feed(&fed_by_all, &vec![1], &vec![]),
        Err(TickError::Misaligned { expected: 1, found: 0 })
    );
    assert_eq!(
        world.feed(&fed_by_all, &vec![1, 0], &vec![sc(9.0), sc(9.0)]),
        Err(TickError::WrongSpecies { index: 0 })
    );
    assert_eq!(
        world.feed(&fed_by_all, &vec![1, 2], &vec![sc(9.0), sc(9.0)]),
        Err(TickError::OutOfRange { index: 2, len: 2 })
    );
    let energies: Vec<f32> = world.blobs.iter().map(|b| float(b.energy)).collect();
    assert_eq!(energies, vec![1.0, 1.0]);
}

#[test]
fn a_gap_touches_where_the_distance_is_at_most_the_reach() {
    assert!(gap(1.0, 2.0).is_touching());
    assert!(gap(2.0, 2.0).is_touching());
    assert!(!gap(2.000_000_2, 2.0).is_touching());
    assert!(gap(0.0, 0.0).is_touching());
    assert!(!gap(1.0, f32::NAN).is_touching());
    assert!(!gap(f32::NAN, 1.0).is_touching());
}

#[test]
fn check_pred_interactions_lists_a_pair_for_every_hit() {
    assert_eq!(
        World::check_pred_interactions(4, &vec![near(), far(), near(), near()]),
        vec![(4, 0), (4, 2), (4, 3)]
    );
    assert_eq!(World::check_pred_interactions(0, &vec![far(), far()]), vec![]);
    assert_eq!(World::check_pred_interactions(0, &vec![]), vec![]);
}

#[test]
fn check_interactions_goes_predator_by_predator() {
    let world = world_of(&[(PRED, 1.0), (PREY, 1.0), (PRED, 1.0), (PREY, 1.0), (PREY, 1.0)]);
    let (predators, preys) = world.get_indexes();
    let gaps = vec![vec![far(), near(), near()], vec![near(), near(), far()]];
    assert_eq!(
        world.check_interactions(&predators, &preys, &gaps),
        Ok(vec![(0, 1), (0, 2), (1, 0), (1, 1)])
    );
}

#[test]
fn check_interactions_wants_a_row_per_predator() {
    let world = world_of(&[(PRED, 1.0), (PREY, 1.0)]);
    let (predators, preys) = world.get_indexes();
    assert_eq!(
        world.check_interactions(&predators, &preys, &vec![]),
        Err(TickError::Misaligned { expected: 1, found: 0 })
    );
}

#[test]
fn check_interactions_wants_an_entry_per_prey() {
    let world = world_of(&[(PRED, 1.0), (PREY, 1.0), (PRED, 1.0)]);
    let (predators, preys) = world.get_indexes();
    assert_eq!(
        world.check_interactions(
            &predators,
            &preys,
            &vec![vec![near()], vec![near(), far(), near()]]
        ),
        Err(TickError::Misaligned { expected: 1, found: 3 })
    );
}

#[test]
fn menus_list_the_prey_of_every_predator_by_position() {
    let world = world_of(&[(PRED, 1.0), (PREY, 1.0), (PRED, 1.0), (PREY, 1.0), (PRED, 1.0)]);
    let (predators, preys) = world.get_indexes();
    let interactions = vec![(0, 1), (1, 1), (1, 0), (1, 1)];
    assert_eq!(
        world.menus(&interactions, &predators, &preys),
        Ok(vec![vec![3], vec![3, 1, 3], vec![]])
    );
}

#[test]
fn menus_hold_one_entry_per_interaction() {
    let world = world_of(&[(PRED, 1.0), (PREY, 1.0), (PRED, 1.0), (PREY, 1.0)]);
    let (predators, preys) = world.get_indexes();
    let interactions = vec![(1, 0), (0, 0), (1, 1), (0, 1), (1, 0)];
    let menus = world.menus(&interactions, &predators, &preys).unwrap();
    assert_eq!(menus.iter().map(|menu| menu.len()).sum::<usize>(), interactions.len());
    assert_eq!(menus, vec![vec![1, 3], vec![1, 3, 1]]);
}

#[test]
fn menus_report_a_predator_out_of_range() {
    let world = world_of(&[(PRED, 1.0), (PREY, 1.0)]);
    let (predators, preys) = world.get_indexes();
    assert_eq!(
        world.menus(&vec![(0, 0), (1, 0)], &predators, &preys),
        Err(TickError::OutOfRange { index: 1, len: 1 })
    );
}

#[test]
fn menus_report_a_stale_list() {
    let world = world_of(&[(PRED, 1.0), (PREY, 1.0)]);
    assert_eq!(
        world.menus(&vec![(0, 0)], &vec![0], &vec![7]),
        Err(TickError::OutOfRange { index: 7, len: 2 })
    );
    assert_eq!(
        world.menus(&vec![(0, 0)], &vec![1], &vec![1]),
        Err(TickError::WrongSpecies { index: 1 })
    );
    assert_eq!(
        world.menus(&vec![(0, 0)], &vec![0], &vec![0]),
        Err(TickError::WrongSpecies { index: 0 })
    );
}

#[test]
fn kills_remove_each_prey_once() {
    let mut world =
        world_of(&[(PRED, 1.0), (PREY, 1.0), (PRED, 1.0), (PREY, 1.0), (PREY, 1.0)]);
    let (_, preys) = world.get_indexes();
    let interactions = vec![(0, 2), (1, 2), (0, 0), (1, 2)];
    assert_eq!(world.kills(&interactions, &preys), Ok(()));
    assert_eq!(xs(&world), vec![0.0, 2.0, 3.0]);
    assert_eq!(world.population(), (3, 1, 2));
}

#[test]
fn kills_without_interactions_remove_nothing() {
    let mut world = world_of(&[(PRED, 1.0), (PREY, 1.0)]);
    let (_, preys) = world.get_indexes();
    assert_eq!(world.kills(&vec![], &preys), Ok(()));
    assert_eq!(xs(&world), vec![0.0, 1.0]);
}

#[test]
fn kills_report_a_fault_and_remove_nothing() {
    let mut world = world_of(&[(PRED, 1.0), (PREY, 1.0), (PREY, 1.0)]);
    let (_, preys) = world.get_indexes();
    assert_eq!(
        world.kills(&vec![(0, 0), (0, 2)], &preys),
        Err(TickError::OutOfRange { index: 2, len: 2 })
    );
    assert_eq!(xs(&world), vec![0.0, 1.0, 2.0]);
    assert_eq!(
        world.kills(&vec![(0, 1), (0, 0)], &vec![9, 2]),
        Err(TickError::OutOfRange { index: 9, len: 3 })
    );
    assert_eq!(
        world.kills(&vec![(0, 0)], &vec![0]),
        Err(TickError::WrongSpecies { index: 0 })
    );
    assert_eq!(xs(&world), vec![0.0, 1.0, 2.0]);
}

#[test]
fn starved_removes_what_is_below_zero() {
    let mut world =
        world_of(&[(PREY, -0.5), (PRED, 0.0), (PREY, 1.0), (PRED, -0.001), (PREY, -0.0)]);
    world.starved();
    assert_eq!(xs(&world), vec![1.0, 2.0, 4.0]);
    assert!(world.blobs.iter().all(|b| !(float(b.energy) < 0.0)));
    assert_eq!(world.shape, (sc(100.0), sc(80.0)));
}

#[test]
fn starved_keeps_a_world_that_is_fed() {
    let mut world = world_of(&[(PREY, 0.5), (PRED, 3.0)]);
    world.starved();
    assert_eq!(xs(&world), vec![0.0, 1.0]);
}

#[test]
fn blob_thresholds_agree_with_the_numbers() {
    for energy in [-1.0f32, -0.0, 0.0, 1.0, 1.999_999_9, 2.0, 2.5, f32::INFINITY, f32::NAN] {
        let agent = blob(PREY, 0.0, 0.0, energy);
        assert_eq!(agent.is_starving(), energy < 0.0, "{energy}");
        assert_eq!(agent.is_fertile(), energy >= 2.0, "{energy}");
    }
}

#[test]
fn to_reproduce_lists_energy_of_two_and_more() {
    let world = world_of(&[(PREY, 2.0), (PRED, 1.99), (PREY, 5.0), (PRED, 0.0), (PRED, 2.5)]);
    assert_eq!(world.to_reproduce(), vec![0, 2, 4]);
}

#[test]
fn reproduce_splits_into_two_of_the_parents_species() {
    let mut parent = blob(PRED, 10.0, 20.0, 3.0);
    parent.angle = sc(0.75);
    let (first, second) = parent.reproduce(birth(10.0));
    assert_eq!(first.blob_type, PRED);
    assert_eq!(second.blob_type, PRED);
    assert_eq!(first.energy, sc(1.5));
    assert_eq!(second.energy, sc(1.5));
    assert_eq!(float(first.energy) + float(second.energy), 3.0);
    assert_eq!(first.position, (sc(9.5), sc(1.0)));
    assert_eq!(second.position, (sc(10.5), sc(1.0)));
    assert_eq!(first.angle, sc(1.5));
    assert_eq!(second.angle, sc(0.75));
}

#[test]
fn reproduce_blobs_replaces_parents_from_the_top_down() {
    let mut world = world_of(&[(PREY, 2.0), (PRED, 1.0), (PREY, 4.0), (PRED, 0.5)]);
    assert_eq!(world.to_reproduce(), vec![0, 2]);
    let births = vec![birth(100.0), birth(200.0)];
    assert_eq!(world.reproduce_blobs(births), Ok(()));
    assert_eq!(xs(&world), vec![1.0, 3.0, 199.5, 200.5, 99.5, 100.5]);
    let kinds: Vec<BlobType> = world.blobs.iter().map(|b| b.blob_type).collect();
    assert_eq!(kinds, vec![PRED, PRED, PREY, PREY, PREY, PREY]);
    let energies: Vec<f32> = world.blobs.iter().map(|b| float(b.energy)).collect();
    assert_eq!(energies, vec![1.0, 0.5, 2.0, 2.0, 1.0, 1.0]);
    assert_eq!(world.population(), (6, 4, 2));
}

#[test]
fn reproduce_blobs_adds_one_agent_per_parent() {
    let mut world = world_of(&[(PREY, 2.0), (PREY, 2.0), (PREY, 2.0), (PRED, 1.0)]);
    let births = vec![birth(0.0), birth(1.0), birth(2.0)];
    assert_eq!(world.reproduce_blobs(births), Ok(()));
    assert_eq!(world.blobs.len(), 4 + 3);
}

#[test]
fn reproduce_blobs_without_parents_changes_nothing() {
    let mut world = world_of(&[(PREY, 1.0), (PRED, 1.5)]);
    assert_eq!(world.reproduce_blobs(vec![]), Ok(()));
    assert_eq!(xs(&world), vec![0.0, 1.0]);
}

#[test]
fn reproduce_blobs_wants_a_birth_per_parent() {
    let mut world = world_of(&[(PREY, 2.0), (PRED, 1.0)]);
    assert_eq!(
        world.reproduce_blobs(vec![]),
        Err(TickError::Misaligned { expected: 1, found: 0 })
    );
    assert_eq!(
        world.reproduce_blobs(vec![birth(0.0), birth(0.0)]),
        Err(TickError::Misaligned { expected: 1, found: 2 })
    );
    assert_eq!(xs(&world), vec![0.0, 1.0]);
}

#[test]
fn children_share_the_energy_of_the_parent() {
    for energy in [2.0f32, 2.5, 3.0, 7.123_456, 1000.0] {
        let (first, second) = blob(PREY, 0.0, 0.0, energy).reproduce(birth(0.0));
        assert_eq!(float(first.energy), energy / 2.0);
        assert_eq!(float(second.energy), energy / 2.0);
        assert_eq!(float(first.energy) + float(second.energy), energy);
    }
}

#[test]
fn no_energy_is_below_zero_when_the_next_tick_starts() {
    let mut world = world_of(&[(PREY, 2.0), (PRED, -0.5), (PREY, 0.0), (PRED, 6.0)]);
    world.starved();
    let births: Vec<Birth> = world.to_reproduce().iter().map(|&i| birth(i as f32)).collect();
    assert_eq!(world.reproduce_blobs(births), Ok(()));
    assert_eq!(world.blobs.len(), 5);
    for agent in &world.blobs {
        assert!(float(agent.energy) >= 0.0);
        assert!(float(agent.energy).sqrt().is_finite());
    }
}

#[test]
fn step_caps_each_coordinate_on_its_own() {
    let shape = (sc(100.0), sc(80.0));
    let mut agent = blob(PREY, 50.0, 50.0, 1.0);
    agent.step((sc(120.0), sc(40.0)), &shape, sc(0.9));
    assert_eq!(agent.position, (sc(100.0), sc(40.0)));
    assert_eq!(agent.energy, sc(0.9));
    agent.step((sc(-3.0), sc(80.5)), &shape, sc(0.8));
    assert_eq!(agent.position, (sc(0.0), sc(80.0)));
    assert_eq!(agent.energy, sc(0.8));
    agent.step((sc(12.5), sc(7.25)), &shape, sc(0.7));
    assert_eq!(agent.position, (sc(12.5), sc(7.25)));
    assert_eq!(agent.blob_type, PREY);
}

#[test]
fn move_blobs_writes_move_i_to_agent_i() {
    let mut world = world_of(&[(PREY, 1.0), (PRED, 1.0), (PREY, 1.0)]);
    let moves = vec![
        Motion { angle: sc(0.1), target: (sc(5.0), sc(6.0)), energy: sc(0.9) },
        Motion { angle: sc(0.2), target: (sc(-5.0), sc(90.0)), energy: sc(-0.1) },
        Motion { angle: sc(0.3), target: (sc(500.0), sc(-1.0)), energy: sc(0.5) },
    ];
    assert_eq!(world.move_blobs(&moves), Ok(()));
    let places: Vec<(f32, f32)> =
        world.blobs.iter().map(|b| (float(b.position.0), float(b.position.1))).collect();
    assert_eq!(places, vec![(5.0, 6.0), (0.0, 80.0), (100.0, 0.0)]);
    let angles: Vec<f32> = world.blobs.iter().map(|b| float(b.angle)).collect();
    assert_eq!(angles, vec![0.1, 0.2, 0.3]);
    let energies: Vec<f32> = world.blobs.iter().map(|b| float(b.energy)).collect();
    assert_eq!(energies, vec![0.9, -0.1, 0.5]);
    let kinds: Vec<BlobType> = world.blobs.iter().map(|b| b.blob_type).collect();
    assert_eq!(kinds, vec![PREY, PRED, PREY]);
}

#[test]
fn move_blobs_wants_a_move_per_agent() {
    let mut world = world_of(&[(PREY, 1.0), (PRED, 1.0)]);
    let moves =
        vec![Motion { angle: sc(0.1), target: (sc(5.0), sc(6.0)), energy: sc(0.9) }];
    assert_eq!(
        world.move_blobs(&moves),
        Err(TickError::Misaligned { expected: 2, found: 1 })
    );
    assert_eq!(xs(&world), vec![0.0, 1.0]);
}

#[test]
fn collect_by_index_puts_results_in_order() {
    let tagged = vec![(2, "c"), (0, "a"), (3, "d"), (1, "b")];
    assert_eq!(collect_by_index(tagged), Some(vec!["a", "b", "c", "d"]));
    assert_eq!(collect_by_index(Vec::<(usize, u8)>::new()), Some(vec![]));
}

#[test]
fn collect_by_index_is_blind_to_the_order_of_arrival() {
    let orders: [[usize; 4]; 5] =
        [[0, 1, 2, 3], [3, 2, 1, 0], [1, 3, 0, 2], [2, 0, 3, 1], [0, 2, 1, 3]];
    for order in orders {
        let tagged: Vec<(usize, usize)> = order.iter().map(|&i| (i, i * 10)).collect();
        assert_eq!(collect_by_index(tagged), Some(vec![0, 10, 20, 30]));
    }
}

#[test]
fn collect_by_index_refuses_tags_that_do_not_index() {
    assert_eq!(collect_by_index(vec![(0, 'a'), (0, 'b')]), None);
    assert_eq!(collect_by_index(vec![(0, 'a'), (2, 'b')]), None);
    assert_eq!(collect_by_index(vec![(1, 'a')]), None);
}

#[test]
fn remove_marked_keeps_the_rest_in_order() {
    let mut items = vec!['a', 'b', 'c', 'd', 'e'];
    remove_marked(&mut items, &vec![true, false, true, false, true]);
    assert_eq!(items, vec!['b', 'd']);
    let mut items = vec![1, 2, 3];
    remove_marked(&mut items, &vec![false, false, false]);
    assert_eq!(items, vec![1, 2, 3]);
    remove_marked(&mut items, &vec![true, true, true]);
    assert_eq!(items, Vec::<i32>::new());
}

#[test]
fn remove_marked_takes_a_missing_mark_as_unset() {
    let mut items = vec!['a', 'b', 'c'];
    remove_marked(&mut items, &vec![true]);
    assert_eq!(items, vec!['b', 'c']);
    remove_marked(&mut items, &vec![false, true, true, true]);
    assert_eq!(items, vec!['b']);
    remove_marked(&mut items, &vec![]);
    assert_eq!(items, vec!['b']);
}

#[test]
fn gather_stimuli_orders_by_agent() {
    let world = world_of(&[(PREY, 1.0), (PRED, 1.0), (PREY, 1.0)]);
    let of = |x: f32| vec![sc(x), sc(x + 0.1), sc(x + 0.2)];
    let sensed = vec![(2, of(2.0)), (0, of(0.0)), (1, of(1.0))];
    assert_eq!(world.gather_stimuli(sensed), Some(vec![of(0.0), of(1.0), of(2.0)]));
}

#[test]
fn gather_stimuli_wants_one_stimulus_of_the_right_length_per_agent() {
    let world = world_of(&[(PREY, 1.0), (PRED, 1.0)]);
    let of = |n: usize| vec![sc(0.0); n];
    assert_eq!(world.gather_stimuli(vec![(0, of(3))]), None);
    assert_eq!(world.gather_stimuli(vec![(0, of(3)), (0, of(3))]), None);
    assert_eq!(world.gather_stimuli(vec![(0, of(3)), (1, of(2))]), None);
    assert_eq!(world.gather_stimuli(vec![(0, of(3)), (2, of(3))]), None);
    assert_eq!(world.gather_stimuli(vec![(1, of(3)), (0, of(3))]), Some(vec![of(3), of(3)]));
}

#[test]
fn gather_responses_orders_by_agent() {
    let world = world_of(&[(PREY, 1.0), (PRED, 1.0)]);
    let thought = vec![(1, vec![sc(0.3), sc(0.4)]), (0, vec![sc(0.1), sc(0.2)])];
    assert_eq!(
        world.gather_responses(thought),
        Some(vec![vec![sc(0.1), sc(0.2)], vec![sc(0.3), sc(0.4)]])
    );
}

#[test]
fn gather_responses_wants_speed_and_turn_from_every_agent() {
    let mut world = world_of(&[(PREY, 1.0)]);
    assert_eq!(world.gather_responses(vec![(0, vec![sc(0.1)])]), None);
    assert_eq!(world.gather_responses(vec![(0, vec![sc(0.1); 3])]), None);
    assert_eq!(world.gather_responses(vec![]), None);
    let narrow = Brain::init_random(&vec![3, 1], &vec![sc(0.0); 3]).unwrap();
    world.blobs[0].brain.network_shape = vec![3, 1];
    world.blobs[0].brain.weights = narrow;
    assert!(world.blobs[0].brain.is_well_formed());
    assert_eq!(world.gather_responses(vec![(0, vec![sc(0.1)])]), None);
}

#[test]
fn make_world_puts_prey_first_with_an_energy_of_one() {
    let seeds: Vec<Seed> = (0..5)
        .map(|i| Seed { brain: brain(), position: (sc(i as f32), sc(1.0)), angle: sc(0.5) })
        .collect();
    let world = make_world(3, 2, seeds, constants()).unwrap();
    let kinds: Vec<BlobType> = world.blobs.iter().map(|b| b.blob_type).collect();
    assert_eq!(kinds, vec![PREY, PREY, PREY, PRED, PRED]);
    assert_eq!(xs(&world), vec![0.0, 1.0, 2.0, 3.0, 4.0]);
    assert!(world.blobs.iter().all(|b| float(b.energy) == 1.0));
    assert!(world.blobs.iter().all(|b| b.angle == sc(0.5)));
    assert_eq!(world.shape, (sc(100.0), sc(80.0)));
    assert_eq!(world.get_indexes(), (vec![3, 4], vec![0, 1, 2]));
}

#[test]
fn make_world_wants_a_seed_per_agent() {
    let seed = || Seed { brain: brain(), position: (sc(0.0), sc(0.0)), angle: sc(0.0) };
    assert!(make_world(1, 1, vec![seed()], constants()).is_none());
    assert!(make_world(1, 0, vec![seed(), seed()], constants()).is_none());
    assert!(make_world(-1, 1, vec![seed()], constants()).is_some());
    assert!(make_world(0, 0, vec![], constants()).is_some());
}

#[test]
fn die_takes_the_agent() {
    let agent = blob(PREY, 0.0, 0.0, 1.0);
    agent.die();
}

#[test]
fn one_predator_two_prey_one_in_reach() {
    let food_energy = 0.5f32;
    let blobs = vec![
        blob(PRED, 0.0, 0.0, 1.0),
        blob(PREY, 0.1, 0.0, 1.0),
        blob(PREY, 50.0, 50.0, 1.0),
    ];
    let mut world = World::new(blobs, constants());
    let (predators, preys) = world.get_indexes();
    assert_eq!((predators.clone(), preys.clone()), (vec![0], vec![1, 2]));

    let place = |i: usize| (float(world.blobs[i].position.0), float(world.blobs[i].position.1));
    let radius = |i: usize| float(world.blobs[i].energy).sqrt();
    let gaps: Vec<Vec<Gap>> = predators
        .iter()
        .map(|&p| {
            preys
                .iter()
                .map(|&q| {
                    let (dx, dy) = (place(p).0 - place(q).0, place(p).1 - place(q).1);
                    gap(dx * dx + dy * dy, radius(q) + radius(p))
                })
                .collect()
        })
        .collect();
    assert_eq!(gaps, vec![vec![gap(0.1 * 0.1, 2.0), gap(5000.0, 2.0)]]);

    let interactions = world.check_interactions(&predators, &preys, &gaps).unwrap();
    assert_eq!(interactions, vec![(0, 0)]);

    let menus = world.menus(&interactions, &predators, &preys).unwrap();
    assert_eq!(menus, vec![vec![1]]);
    let before = float(world.blobs[0].energy);
    let prey_energy = float(world.blobs[1].energy);
    let fed: Vec<Scalar> = predators
        .iter()
        .zip(&menus)
        .map(|(&eater, menu)| {
            let gains = menu.iter().map(|&eaten| food_energy * float(world.blobs[eaten].energy));
            sc(gains.fold(float(world.blobs[eater].energy), |energy, gain| energy + gain))
        })
        .collect();
    assert_eq!(world.feed(&interactions, &predators, &fed), Ok(()));
    assert_eq!(float(world.blobs[0].energy) - before, food_energy * prey_energy);

    assert_eq!(world.kills(&interactions, &preys), Ok(()));
    assert_eq!(world.blobs.len(), 2);
    assert_eq!(xs(&world), vec![0.0, 50.0]);

    world.starved();
    assert_eq!(world.to_reproduce(), Vec::<usize>::new());
    assert_eq!(world.reproduce_blobs(vec![]), Ok(()));
    assert_eq!(world.population(), (2, 1, 1));
}

#[test]
fn a_prey_hit_twice_feeds_twice_and_dies_once() {
    let mut world = world_of(&[(PRED, 1.0), (PRED, 1.0), (PREY, 0.5), (PREY, 0.25)]);
    let (predators, preys) = world.get_indexes();
    let gaps = vec![vec![near(), far()], vec![near(), near()]];
    let interactions = world.check_interactions(&predators, &preys, &gaps).unwrap();
    assert_eq!(interactions, vec![(0, 0), (1, 0), (1, 1)]);
    let menus = world.menus(&interactions, &predators, &preys).unwrap();
    assert_eq!(menus, vec![vec![2], vec![2, 3]]);
    assert_eq!(menus[0].len() + menus[1].len(), interactions.len());
    assert_eq!(world.kills(&interactions, &preys), Ok(()));
    assert_eq!(xs(&world), vec![0.0, 1.0]);
}
