//! The world: the list of agents, the bounding box and the constants, and
//! the bookkeeping of the phases of a tick.
//!
//! A tick runs its phases in a fixed order, each on the list that the phase
//! before it left. Positions in the list are good only until the next
//! removal, so the lists of predators and of prey are worked out anew at the
//! start of every tick and every removal goes from the top of the list down.

use crate::blobs::{first_child, other_kind, second_child, Birth, Blob, BlobType};
use crate::brains::{width, Brain};
use crate::constants::Constants;
use crate::laws::lemma_reproduction_keeps_nourished;
use crate::phases::TickError;
use crate::scalar::{Scalar, ONE_BITS};
use crate::utils::{
    capped, chosen, collect_by_index, count_marked, indexes_once, kept_from, lemma_chosen_prefix,
    lemma_kept_agree, lemma_kept_members, lemma_remove_below, marked, names, placed_by_tag,
    remove_marked, without,
};
use vstd::prelude::*;

verus! {

/// The agents, the box they live in and the constants of the run.
#[derive(Debug)]
pub struct World {
    pub blobs: Vec<Blob>,
    pub shape: (Scalar, Scalar),
    pub constants: Constants,
}

/// What an agent is made from when the world is made: a brain, a place
/// and a heading.
#[derive(Debug)]
pub struct Seed {
    pub brain: Brain,
    pub position: (Scalar, Scalar),
    pub angle: Scalar,
}

/// What the movement phase has worked out for one agent: its new heading,
/// the point its step would take it to before the world's edge is minded,
/// and the energy that the step leaves it.
#[derive(Clone, Copy, Debug)]
pub struct Motion {
    pub angle: Scalar,
    pub target: (Scalar, Scalar),
    pub energy: Scalar,
}

/// What was measured between one predator and one prey: the squared
/// distance of their positions and the sum of their radii.
#[derive(Clone, Copy, PartialEq, Eq, Structural, Debug)]
pub struct Gap {
    pub distance: Scalar,
    pub reach: Scalar,
}

impl Gap {
    /// The predator hits the prey where the squared distance is at most
    /// the sum of the radii. The distance is squared and the radii are not:
    /// that is the rule as it stands. A radius that is not a number, as that
    /// of an agent below zero energy is, hits nothing.
    pub open spec fn touching(self) -> bool {
        self.distance.at_most(self.reach)
    }

    pub fn is_touching(&self) -> (r: bool)
        ensures
            r == self.touching(),
    {
        self.distance.le(&self.reach)
    }
}

/// What the base-energy phase does to an agent, whatever else happened to
/// it in the tick.
#[derive(Clone, Copy, PartialEq, Eq, Structural, Debug)]
pub enum EnergyChange {
    /// The agent gains this much.
    Gain(Scalar),
    /// The agent loses this much.
    Loss(Scalar),
}

/// For every agent, whether it is of species `kind`.
pub open spec fn of_kind(blobs: Seq<Blob>, kind: BlobType) -> Seq<bool> {
    Seq::new(blobs.len(), |i: int| blobs[i].blob_type == kind)
}

/// The positions of the agents of species `kind`, in ascending order.
pub open spec fn positions(blobs: Seq<Blob>, kind: BlobType) -> Seq<usize> {
    chosen(of_kind(blobs, kind), blobs.len() as int)
}

/// Whether the tagged stimuli hold exactly one stimulus for every agent,
/// with one entry for every sensor of that agent's brain.
pub open spec fn stimuli_fit(blobs: Seq<Blob>, sensed: Seq<(usize, Vec<Scalar>)>) -> bool {
    &&& sensed.len() == blobs.len()
    &&& indexes_once(sensed)
    &&& forall|j: int|
        0 <= j < sensed.len() ==> (#[trigger] sensed[j]).1.len() == blobs[sensed[j].0 as int].brain@.sensors()
}

/// Whether the tagged responses hold exactly one response for every agent,
/// with one entry for every output of that agent's brain and at least the
/// two that a move reads.
pub open spec fn responses_fit(blobs: Seq<Blob>, thought: Seq<(usize, Vec<Scalar>)>) -> bool {
    &&& thought.len() == blobs.len()
    &&& indexes_once(thought)
    &&& forall|j: int|
        0 <= j < thought.len() ==> (#[trigger] thought[j]).1.len() >= 2 && thought[j].1.len()
            == blobs[thought[j].0 as int].brain@.outputs()
}

/// An agent after its move: turned to the new heading, put at the target
/// with each coordinate capped into the world, and debited.
pub open spec fn moved(blob: Blob, motion: Motion, shape: (Scalar, Scalar)) -> Blob {
    Blob {
        brain: blob.brain,
        position: (capped(motion.target.0, shape.0), capped(motion.target.1, shape.1)),
        angle: motion.angle,
        blob_type: blob.blob_type,
        energy: motion.energy,
    }
}

/// For every prey of a row of measurements, whether the predator of the
/// row hits it.
pub open spec fn touches(gaps: Seq<Gap>) -> Seq<bool> {
    Seq::new(gaps.len(), |j: int| gaps[j].touching())
}

/// The table of hits that a table of measurements gives.
pub open spec fn table_view(gaps: Seq<Vec<Gap>>) -> Seq<Seq<bool>> {
    Seq::new(gaps.len(), |i: int| touches(gaps[i]@))
}

/// The first row of a table that does not have `width` entries, if one
/// does not.
pub open spec fn first_ragged(hits: Seq<Seq<bool>>, width: int, from: int) -> Option<int>
    decreases hits.len() - from,
{
    if from < 0 || from >= hits.len() {
        None
    } else if hits[from].len() != width {
        Some(from)
    } else {
        first_ragged(hits, width, from + 1)
    }
}

/// The interactions of predator `i`: one pair `(i, j)` for every prey `j`
/// that it hits, by ascending `j`.
pub open spec fn row_pairs(i: usize, hits: Seq<bool>) -> Seq<(usize, usize)> {
    chosen(hits, hits.len() as int).map_values(|j: usize| (i, j))
}

/// The interactions of the first `rows` predators, predator by predator.
pub open spec fn all_pairs(hits: Seq<Seq<bool>>, rows: int) -> Seq<(usize, usize)>
    decreases rows,
{
    if rows <= 0 || rows > hits.len() {
        Seq::empty()
    } else {
        all_pairs(hits, rows - 1) + row_pairs((rows - 1) as usize, hits[rows - 1])
    }
}

/// What is wrong with entry `slot` of a list that should hold positions of
/// agents of species `kind`, if anything is.
pub open spec fn member_fault(
    blobs: Seq<Blob>,
    indexes: Seq<usize>,
    slot: usize,
    kind: BlobType,
) -> Option<TickError> {
    if slot >= indexes.len() {
        Some(TickError::OutOfRange { index: slot, len: indexes.len() as usize })
    } else if indexes[slot as int] >= blobs.len() {
        Some(TickError::OutOfRange { index: indexes[slot as int], len: blobs.len() as usize })
    } else if blobs[indexes[slot as int] as int].blob_type != kind {
        Some(TickError::WrongSpecies { index: indexes[slot as int] })
    } else {
        None
    }
}

/// The fault of the first entry from `from` on of a list of positions of
/// agents of species `kind` that has one.
pub open spec fn first_member_fault(
    blobs: Seq<Blob>,
    indexes: Seq<usize>,
    kind: BlobType,
    from: int,
) -> Option<TickError>
    decreases indexes.len() - from,
{
    if from < 0 || from >= indexes.len() {
        None
    } else {
        match member_fault(blobs, indexes, from as usize, kind) {
            Some(e) => Some(e),
            None => first_member_fault(blobs, indexes, kind, from + 1),
        }
    }
}

/// What is wrong with one interaction, if anything is: its predator is
/// looked at first, then its prey.
pub open spec fn meal_fault(
    blobs: Seq<Blob>,
    predator_indexes: Seq<usize>,
    prey_indexes: Seq<usize>,
    pair: (usize, usize),
) -> Option<TickError> {
    match member_fault(blobs, predator_indexes, pair.0, BlobType::Predator) {
        Some(e) => Some(e),
        None => member_fault(blobs, prey_indexes, pair.1, BlobType::Prey),
    }
}

/// The fault of the first interaction from `from` on that has one.
pub open spec fn first_meal_fault(
    blobs: Seq<Blob>,
    predator_indexes: Seq<usize>,
    prey_indexes: Seq<usize>,
    interactions: Seq<(usize, usize)>,
    from: int,
) -> Option<TickError>
    decreases interactions.len() - from,
{
    if from < 0 || from >= interactions.len() {
        None
    } else {
        match meal_fault(blobs, predator_indexes, prey_indexes, interactions[from]) {
            Some(e) => Some(e),
            None => first_meal_fault(blobs, predator_indexes, prey_indexes, interactions, from + 1),
        }
    }
}

/// The menu of the predator at entry `slot` of the list of predators: the
/// positions of the prey that it feeds on, one for every interaction of
/// its own among the first `upto`, in the order of the interactions.
pub open spec fn menu(
    interactions: Seq<(usize, usize)>,
    prey_indexes: Seq<usize>,
    slot: int,
    upto: int,
) -> Seq<usize>
    decreases upto,
{
    if upto <= 0 || upto > interactions.len() {
        Seq::empty()
    } else if interactions[upto - 1].0 == slot {
        menu(interactions, prey_indexes, slot, upto - 1).push(
            prey_indexes[interactions[upto - 1].1 as int],
        )
    } else {
        menu(interactions, prey_indexes, slot, upto - 1)
    }
}

/// The menus of all predators after the first `upto` interactions, in the
/// order of the list of predators.
pub open spec fn menus_upto(
    interactions: Seq<(usize, usize)>,
    predators: nat,
    prey_indexes: Seq<usize>,
    upto: int,
) -> Seq<Seq<usize>> {
    Seq::new(predators, |slot: int| menu(interactions, prey_indexes, slot, upto))
}

/// The menus of all predators: a prey that several predators hit is on the
/// menu of each, and a predator that hits several prey has each on its
/// menu.
pub open spec fn menus(
    interactions: Seq<(usize, usize)>,
    predators: nat,
    prey_indexes: Seq<usize>,
) -> Seq<Seq<usize>> {
    menus_upto(interactions, predators, prey_indexes, interactions.len() as int)
}

/// Lists of positions as sequences.
pub open spec fn lists_view(lists: Seq<Vec<usize>>) -> Seq<Seq<usize>> {
    Seq::new(lists.len(), |i: int| lists[i]@)
}

/// Whether some interaction is one of the predator at entry `slot` of the
/// list of predators.
pub open spec fn feeds(interactions: Seq<(usize, usize)>, upto: int, slot: int) -> bool {
    exists|k: int| 0 <= k < upto && k < interactions.len() && (#[trigger] interactions[k]).0 == slot
}

/// The first entry from `from` on of the list of predators whose predator
/// fed on nothing and yet is handed another energy than it has.
pub open spec fn first_unearned(
    blobs: Seq<Blob>,
    predator_indexes: Seq<usize>,
    interactions: Seq<(usize, usize)>,
    fed: Seq<Scalar>,
    from: int,
) -> Option<int>
    decreases predator_indexes.len() - from,
{
    if from < 0 || from >= predator_indexes.len() {
        None
    } else if !feeds(interactions, interactions.len() as int, from) && fed[from]
        != blobs[predator_indexes[from] as int].energy {
        Some(from)
    } else {
        first_unearned(blobs, predator_indexes, interactions, fed, from + 1)
    }
}

/// An agent with its energy set to `energy` and nothing else changed.
pub open spec fn with_energy(blob: Blob, energy: Scalar) -> Blob {
    Blob {
        brain: blob.brain,
        position: blob.position,
        angle: blob.angle,
        blob_type: blob.blob_type,
        energy,
    }
}

/// The agents with the energy of the agent at `indexes[k]` set to
/// `levels[k]`, for every `k` below `upto`.
pub open spec fn refuelled(
    blobs: Seq<Blob>,
    indexes: Seq<usize>,
    levels: Seq<Scalar>,
    upto: int,
) -> Seq<Blob>
    decreases upto,
{
    if upto <= 0 || upto > indexes.len() {
        blobs
    } else {
        let before = refuelled(blobs, indexes, levels, upto - 1);
        before.update(
            indexes[upto - 1] as int,
            with_energy(before[indexes[upto - 1] as int], levels[upto - 1]),
        )
    }
}

/// The fault of the first interaction from `from` on whose prey has one.
pub open spec fn first_kill_fault(
    blobs: Seq<Blob>,
    prey_indexes: Seq<usize>,
    interactions: Seq<(usize, usize)>,
    from: int,
) -> Option<TickError>
    decreases interactions.len() - from,
{
    if from < 0 || from >= interactions.len() {
        None
    } else {
        match member_fault(blobs, prey_indexes, interactions[from].1, BlobType::Prey) {
            Some(e) => Some(e),
            None => first_kill_fault(blobs, prey_indexes, interactions, from + 1),
        }
    }
}

/// Whether some interaction has the agent at position `victim` as its prey.
pub open spec fn hit(
    interactions: Seq<(usize, usize)>,
    prey_indexes: Seq<usize>,
    upto: int,
    victim: int,
) -> bool {
    exists|k: int|
        0 <= k < upto && k < interactions.len() && (#[trigger] interactions[k]).1
            < prey_indexes.len() && prey_indexes[interactions[k].1 as int] == victim
}

/// The positions of the agents that an interaction has as its prey: each
/// once, however many interactions name it.
pub open spec fn eaten(interactions: Seq<(usize, usize)>, prey_indexes: Seq<usize>) -> Set<int> {
    Set::new(|victim: int| hit(interactions, prey_indexes, interactions.len() as int, victim))
}

/// The agents after the kills: every prey that an interaction names is
/// gone, the others are left in their order.
pub open spec fn after_kills(
    blobs: Seq<Blob>,
    interactions: Seq<(usize, usize)>,
    prey_indexes: Seq<usize>,
) -> Seq<Blob> {
    without(blobs, eaten(interactions, prey_indexes))
}

/// The agents with the energy of agent `i` set to `levels[i]`.
pub open spec fn with_energies(blobs: Seq<Blob>, levels: Seq<Scalar>) -> Seq<Blob> {
    Seq::new(blobs.len(), |i: int| with_energy(blobs[i], levels[i]))
}

/// For every agent, whether its energy is below zero.
pub open spec fn starving(blobs: Seq<Blob>) -> Seq<bool> {
    Seq::new(blobs.len(), |i: int| blobs[i].starving())
}

/// No agent has energy below zero.
pub open spec fn nourished(blobs: Seq<Blob>) -> bool {
    forall|i: int| 0 <= i < blobs.len() ==> !(#[trigger] blobs[i]).starving()
}

/// The agents after starvation: every agent below zero energy is gone, the
/// others are left in their order.
pub open spec fn after_starvation(blobs: Seq<Blob>) -> Seq<Blob> {
    without(blobs, marked(starving(blobs)))
}

/// For every agent, whether its energy has reached the threshold at which
/// it splits.
pub open spec fn fertile(blobs: Seq<Blob>) -> Seq<bool> {
    Seq::new(blobs.len(), |i: int| blobs[i].fertile())
}

/// The positions of the agents that split, in ascending order.
pub open spec fn parents(blobs: Seq<Blob>) -> Seq<usize> {
    chosen(fertile(blobs), blobs.len() as int)
}

/// The children of the parents from number `from` on, those of a later
/// parent before those of an earlier one, the first child of each before
/// the second.
pub open spec fn litters(
    blobs: Seq<Blob>,
    parents: Seq<usize>,
    births: Seq<Birth>,
    from: int,
) -> Seq<Blob>
    decreases parents.len() - from,
{
    if from < 0 || from >= parents.len() {
        Seq::empty()
    } else {
        litters(blobs, parents, births, from + 1) + seq![
            first_child(blobs[parents[from] as int], births[from]),
            second_child(blobs[parents[from] as int], births[from]),
        ]
    }
}

/// The agents after reproduction: every agent that splits is gone, the
/// others are left in their order, and the children follow them, those of
/// a later parent before those of an earlier one.
pub open spec fn after_reproduction(blobs: Seq<Blob>, births: Seq<Birth>) -> Seq<Blob> {
    without(blobs, marked(fertile(blobs))) + litters(blobs, parents(blobs), births, 0)
}

/// The agent that grows from a seed: of the given species, with an energy
/// of one.
pub open spec fn sprout(seed: Seed, kind: BlobType) -> Blob {
    Blob {
        brain: seed.brain,
        position: seed.position,
        angle: seed.angle,
        blob_type: kind,
        energy: Scalar { bits: ONE_BITS },
    }
}

/// Looks up entry `slot` of a list of positions of agents of species `kind`.
fn member(blobs: &Vec<Blob>, indexes: &Vec<usize>, slot: usize, kind: BlobType) -> (found: Result<
    usize,
    TickError,
>)
    ensures
        match member_fault(blobs@, indexes@, slot, kind) {
            Some(e) => found == Err::<usize, TickError>(e),
            None => found == Ok::<usize, TickError>(indexes[slot as int]),
        },
{
    if slot >= indexes.len() {
        return Err(TickError::OutOfRange { index: slot, len: indexes.len() });
    }
    let index = indexes[slot];
    if index >= blobs.len() {
        return Err(TickError::OutOfRange { index, len: blobs.len() });
    }
    if blobs[index].blob_type != kind {
        return Err(TickError::WrongSpecies { index });
    }
    Ok(index)
}

impl World {
    pub fn new(blobs: Vec<Blob>, constants: Constants) -> (world: World)
        ensures
            world.blobs == blobs,
            world.shape == constants.world_shape,
            world.constants == constants,
    {
        World { blobs, shape: constants.world_shape, constants }
    }

    /// The invariant of a world: the box is the one that the constants
    /// give, and every brain satisfies its own invariant.
    pub open spec fn well_formed(&self) -> bool {
        &&& self.shape == self.constants.world_shape
        &&& forall|i: int|
            0 <= i < self.blobs.len() ==> (#[trigger] self.blobs[i]).brain.well_formed()
    }

    /// Whether the world satisfies its invariant.
    pub fn is_well_formed(&self) -> (ok: bool)
        ensures
            ok == self.well_formed(),
    {
        if self.shape.0 != self.constants.world_shape.0 || self.shape.1
            != self.constants.world_shape.1 {
            return false;
        }
        let mut i: usize = 0;
        while i < self.blobs.len()
            invariant
                i <= self.blobs.len(),
                forall|a: int| 0 <= a < i ==> (#[trigger] self.blobs[a]).brain.well_formed(),
            decreases self.blobs.len() - i,
        {
            if !self.blobs[i].brain.is_well_formed() {
                return false;
            }
            i += 1;
        }
        true
    }

    /// The positions of the predators and the positions of the prey, each
    /// in ascending order.
    pub fn get_indexes(&self) -> (indexes: (Vec<usize>, Vec<usize>))
        ensures
            indexes.0@ == positions(self.blobs@, BlobType::Predator),
            indexes.1@ == positions(self.blobs@, BlobType::Prey),
    {
        let mut predator_indexes: Vec<usize> = Vec::new();
        let mut prey_indexes: Vec<usize> = Vec::new();
        let mut i: usize = 0;
        while i < self.blobs.len()
            invariant
                i <= self.blobs.len(),
                predator_indexes@ == chosen(of_kind(self.blobs@, BlobType::Predator), i as int),
                prey_indexes@ == chosen(of_kind(self.blobs@, BlobType::Prey), i as int),
            decreases self.blobs.len() - i,
        {
            match self.blobs[i].blob_type {
                BlobType::Prey => prey_indexes.push(i),
                BlobType::Predator => predator_indexes.push(i),
            }
            i += 1;
        }
        (predator_indexes, prey_indexes)
    }

    /// The positions of the agents that an agent of species `kind` senses:
    /// those of the other species, in ascending order.
    pub fn seen_by(&self, kind: BlobType) -> (seen: Vec<usize>)
        ensures
            seen@ == positions(self.blobs@, other_kind(kind)),
    {
        let (predator_indexes, prey_indexes) = self.get_indexes();
        match kind {
            BlobType::Prey => predator_indexes,
            BlobType::Predator => prey_indexes,
        }
    }

    /// Puts the stimuli of a tick in the order of the agents. Each stimulus
    /// comes tagged with the position of the agent it was sensed for, in
    /// whatever order the sensing finished. `None` unless there is exactly
    /// one stimulus for every agent and each has one entry for every sensor
    /// of that agent's brain.
    pub fn gather_stimuli(&self, sensed: Vec<(usize, Vec<Scalar>)>) -> (stimuli: Option<
        Vec<Vec<Scalar>>,
    >)
        ensures
            stimuli is Some <==> stimuli_fit(self.blobs@, sensed@),
            stimuli matches Some(out) ==> placed_by_tag(sensed@, out@),
    {
        if sensed.len() != self.blobs.len() {
            return None;
        }
        let stimuli = match collect_by_index(sensed) {
            Some(stimuli) => stimuli,
            None => { return None; },
        };
        let mut i: usize = 0;
        while i < stimuli.len()
            invariant
                i <= stimuli.len(),
                stimuli.len() == self.blobs.len(),
                stimuli.len() == sensed.len(),
                indexes_once(sensed@),
                placed_by_tag(sensed@, stimuli@),
                forall|a: int|
                    0 <= a < i ==> (#[trigger] stimuli[a]).len() == self.blobs[a].brain@.sensors(),
            decreases stimuli.len() - i,
        {
            if stimuli[i].len() != self.blobs[i].brain.sensors() {
                proof {
                    assert(names(sensed@, i as int));
                    let j = choose|j: int| 0 <= j < sensed.len() && (#[trigger] sensed[j]).0 == i;
                    assert(stimuli[sensed[j].0 as int] == sensed[j].1);
                }
                return None;
            }
            i += 1;
        }
        proof {
            assert forall|j: int| 0 <= j < sensed.len() implies (#[trigger] sensed[j]).1.len()
                == self.blobs[sensed[j].0 as int].brain@.sensors() by {
                assert(stimuli[sensed[j].0 as int] == sensed[j].1);
            }
        }
        Some(stimuli)
    }

    /// Puts the responses of a tick in the order of the agents, as
    /// `gather_stimuli` does the stimuli. `None` unless there is exactly one
    /// response for every agent and each has one entry for every output of
    /// that agent's brain, and at least the two that a move reads: the
    /// speed signal and the turn signal.
    pub fn gather_responses(&self, thought: Vec<(usize, Vec<Scalar>)>) -> (responses: Option<
        Vec<Vec<Scalar>>,
    >)
        ensures
            responses is Some <==> responses_fit(self.blobs@, thought@),
            responses matches Some(out) ==> placed_by_tag(thought@, out@),
    {
        if thought.len() != self.blobs.len() {
            return None;
        }
        let responses = match collect_by_index(thought) {
            Some(responses) => responses,
            None => { return None; },
        };
        let mut i: usize = 0;
        while i < responses.len()
            invariant
                i <= responses.len(),
                responses.len() == self.blobs.len(),
                responses.len() == thought.len(),
                indexes_once(thought@),
                placed_by_tag(thought@, responses@),
                forall|a: int|
                    0 <= a < i ==> (#[trigger] responses[a]).len() >= 2 && responses[a].len()
                        == self.blobs[a].brain@.outputs(),
            decreases responses.len() - i,
        {
            if responses[i].len() < 2 || responses[i].len() != self.blobs[i].brain.outputs() {
                proof {
                    assert(names(thought@, i as int));
                    let j = choose|j: int| 0 <= j < thought.len() && (#[trigger] thought[j]).0 == i;
                    assert(responses[thought[j].0 as int] == thought[j].1);
                }
                return None;
            }
            i += 1;
        }
        proof {
            assert forall|j: int| 0 <= j < thought.len() implies (#[trigger] thought[j]).1.len()
                >= 2 && thought[j].1.len() == self.blobs[thought[j].0 as int].brain@.outputs() by {
                assert(responses[thought[j].0 as int] == thought[j].1);
            }
        }
        Some(responses)
    }

    /// Writes the moves of a tick back to the agents: agent `i` gets move
    /// `i`. No agent is added, removed or reordered. Where there is not one
    /// move per agent, nothing is changed.
    pub fn move_blobs(&mut self, moves: &Vec<Motion>) -> (done: Result<(), TickError>)
        ensures
            moves.len() != old(self).blobs.len() ==> done == Err::<(), TickError>(
                TickError::Misaligned { expected: old(self).blobs.len(), found: moves.len() },
            ) && *final(self) == *old(self),
            moves.len() == old(self).blobs.len() ==> done is Ok && final(self).blobs.len()
                == moves.len() && (forall|i: int|
                0 <= i < moves.len() ==> #[trigger] final(self).blobs[i] == moved(
                    old(self).blobs[i],
                    moves[i],
                    old(self).shape,
                )) && final(self).shape == old(self).shape && final(self).constants == old(
                self,
            ).constants,
    {
        if moves.len() != self.blobs.len() {
            return Err(TickError::Misaligned { expected: self.blobs.len(), found: moves.len() });
        }
        let shape = self.shape;
        let mut i: usize = 0;
        while i < self.blobs.len()
            invariant
                i <= self.blobs.len(),
                self.blobs.len() == moves.len(),
                self.blobs.len() == old(self).blobs.len(),
                self.shape == old(self).shape,
                shape == self.shape,
                self.constants == old(self).constants,
                forall|m: int|
                    0 <= m < i ==> #[trigger] self.blobs[m] == moved(
                        old(self).blobs[m],
                        moves[m],
                        shape,
                    ),
                forall|m: int| i <= m < self.blobs.len() ==> self.blobs[m] == old(self).blobs[m],
            decreases self.blobs.len() - i,
        {
            let motion = moves[i];
            self.blobs[i].angle = motion.angle;
            self.blobs[i].step(motion.target, &shape, motion.energy);
            i += 1;
        }
        Ok(())
    }

    /// The interactions of one predator. `gaps[j]` holds what was measured
    /// between predator `i` of the list of predators and prey `j` of the
    /// list of prey; every hit is one interaction.
    pub fn check_pred_interactions(i: usize, gaps: &Vec<Gap>) -> (interactions: Vec<
        (usize, usize),
    >)
        ensures
            interactions@ == row_pairs(i, touches(gaps@)),
    {
        let ghost hits = touches(gaps@);
        let mut interactions: Vec<(usize, usize)> = Vec::new();
        let mut j: usize = 0;
        while j < gaps.len()
            invariant
                j <= gaps.len(),
                hits == touches(gaps@),
                interactions@ == chosen(hits, j as int).map_values(|j: usize| (i, j)),
            decreases gaps.len() - j,
        {
            if gaps[j].is_touching() {
                interactions.push((i, j));
                assert(chosen(hits, j + 1).map_values(|j: usize| (i, j)) =~= chosen(
                    hits,
                    j as int,
                ).map_values(|j: usize| (i, j)).push((i, j)));
            }
            j += 1;
        }
        interactions
    }

    /// The interactions of a tick. `gaps[i][j]` holds what was measured
    /// between predator `i` of `predator_indexes` and prey `j` of
    /// `prey_indexes`. Every hit is one interaction; a predator may have
    /// several, and so may a prey. Where the table does not have one row
    /// per predator, or a row does not have one entry per prey, the fault
    /// is reported.
    pub fn check_interactions(
        &self,
        predator_indexes: &Vec<usize>,
        prey_indexes: &Vec<usize>,
        gaps: &Vec<Vec<Gap>>,
    ) -> (interactions: Result<Vec<(usize, usize)>, TickError>)
        ensures
            gaps.len() != predator_indexes.len() ==> interactions == Err::<
                Vec<(usize, usize)>,
                TickError,
            >(TickError::Misaligned { expected: predator_indexes.len(), found: gaps.len() }),
            gaps.len() == predator_indexes.len() ==> match first_ragged(
                table_view(gaps@),
                prey_indexes.len() as int,
                0,
            ) {
                Some(row) => interactions == Err::<Vec<(usize, usize)>, TickError>(
                    TickError::Misaligned {
                        expected: prey_indexes.len(),
                        found: gaps[row].len(),
                    },
                ),
                None => interactions is Ok && interactions->Ok_0@ == all_pairs(
                    table_view(gaps@),
                    gaps.len() as int,
                ),
            },
    {
        if gaps.len() != predator_indexes.len() {
            return Err(
                TickError::Misaligned { expected: predator_indexes.len(), found: gaps.len() },
            );
        }
        let ghost table = table_view(gaps@);
        let mut interactions: Vec<(usize, usize)> = Vec::new();
        let mut i: usize = 0;
        while i < gaps.len()
            invariant
                i <= gaps.len(),
                gaps.len() == predator_indexes.len(),
                table == table_view(gaps@),
                first_ragged(table, prey_indexes.len() as int, 0) == first_ragged(
                    table,
                    prey_indexes.len() as int,
                    i as int,
                ),
                interactions@ == all_pairs(table, i as int),
            decreases gaps.len() - i,
        {
            if gaps[i].len() != prey_indexes.len() {
                return Err(
                    TickError::Misaligned { expected: prey_indexes.len(), found: gaps[i].len() },
                );
            }
            let mut row = World::check_pred_interactions(i, &gaps[i]);
            interactions.append(&mut row);
            i += 1;
        }
        Ok(interactions)
    }

    /// The menus of a tick: for every predator of the list, the positions
    /// of the prey that it feeds on, one for every interaction of its own,
    /// in the order of the interactions. Feeding comes before any removal,
    /// so every position is good for the list of agents as it stands.
    pub fn menus(
        &self,
        interactions: &Vec<(usize, usize)>,
        predator_indexes: &Vec<usize>,
        prey_indexes: &Vec<usize>,
    ) -> (served: Result<Vec<Vec<usize>>, TickError>)
        ensures
            match first_meal_fault(
                self.blobs@,
                predator_indexes@,
                prey_indexes@,
                interactions@,
                0,
            ) {
                Some(e) => served == Err::<Vec<Vec<usize>>, TickError>(e),
                None => served is Ok && lists_view(served->Ok_0@) == menus(
                    interactions@,
                    predator_indexes@.len(),
                    prey_indexes@,
                ),
            },
    {
        let mut served: Vec<Vec<usize>> = Vec::new();
        while served.len() < predator_indexes.len()
            invariant
                served.len() <= predator_indexes.len(),
                forall|i: int| 0 <= i < served.len() ==> (#[trigger] served[i])@ == Seq::<
                    usize,
                >::empty(),
            decreases predator_indexes.len() - served.len(),
        {
            served.push(Vec::new());
        }
        let mut k: usize = 0;
        assert(lists_view(served@) =~= menus_upto(
            interactions@,
            predator_indexes@.len(),
            prey_indexes@,
            0,
        ));
        while k < interactions.len()
            invariant
                k <= interactions.len(),
                served.len() == predator_indexes.len(),
                first_meal_fault(self.blobs@, predator_indexes@, prey_indexes@, interactions@, 0)
                    == first_meal_fault(
                    self.blobs@,
                    predator_indexes@,
                    prey_indexes@,
                    interactions@,
                    k as int,
                ),
                lists_view(served@) == menus_upto(
                    interactions@,
                    predator_indexes@.len(),
                    prey_indexes@,
                    k as int,
                ),
            decreases interactions.len() - k,
        {
            let (i, j) = interactions[k];
            match member(&self.blobs, predator_indexes, i, BlobType::Predator) {
                Ok(_) => {},
                Err(e) => { return Err(e); },
            }
            let prey = match member(&self.blobs, prey_indexes, j, BlobType::Prey) {
                Ok(index) => index,
                Err(e) => { return Err(e); },
            };
            let ghost before = lists_view(served@);
            served[i].push(prey);
            k += 1;
            assert(lists_view(served@) =~= menus_upto(
                interactions@,
                predator_indexes@.len(),
                prey_indexes@,
                k as int,
            )) by {
                assert forall|slot: int| 0 <= slot < served.len() implies lists_view(
                    served@,
                )[slot] == menu(interactions@, prey_indexes@, slot, k as int) by {
                    assert(before[slot] == menu(interactions@, prey_indexes@, slot, k - 1));
                }
            }
        }
        Ok(served)
    }

    /// Writes the energies that feeding has left the predators with:
    /// the predator at `predator_indexes[k]` gets `fed[k]`. No other agent
    /// is touched, and a predator that fed on nothing keeps the energy it
    /// has. Where there is not one energy per predator, where the list does
    /// not hold predators of this world, or where a predator that fed on
    /// nothing is handed another energy, nothing is changed and the fault
    /// is reported.
    #[verifier::loop_isolation(false)]
    pub fn feed(
        &mut self,
        interactions: &Vec<(usize, usize)>,
        predator_indexes: &Vec<usize>,
        fed: &Vec<Scalar>,
    ) -> (done: Result<(), TickError>)
        ensures
            fed.len() != predator_indexes.len() ==> done == Err::<(), TickError>(
                TickError::Misaligned { expected: predator_indexes.len(), found: fed.len() },
            ) && *final(self) == *old(self),
            fed.len() == predator_indexes.len() ==> match first_member_fault(
                old(self).blobs@,
                predator_indexes@,
                BlobType::Predator,
                0,
            ) {
                Some(e) => done == Err::<(), TickError>(e) && *final(self) == *old(self),
                None => match first_unearned(
                    old(self).blobs@,
                    predator_indexes@,
                    interactions@,
                    fed@,
                    0,
                ) {
                    Some(slot) => done == Err::<(), TickError>(
                        TickError::Unearned { index: predator_indexes[slot] },
                    ) && *final(self) == *old(self),
                    None => done is Ok && final(self).blobs@ == refuelled(
                        old(self).blobs@,
                        predator_indexes@,
                        fed@,
                        fed.len() as int,
                    ) && final(self).shape == old(self).shape && final(self).constants == old(
                        self,
                    ).constants,
                },
            },
    {
        if fed.len() != predator_indexes.len() {
            return Err(
                TickError::Misaligned { expected: predator_indexes.len(), found: fed.len() },
            );
        }
        let mut k: usize = 0;
        while k < predator_indexes.len()
            invariant
                k <= predator_indexes.len(),
                fed.len() == predator_indexes.len(),
                *self == *old(self),
                first_member_fault(self.blobs@, predator_indexes@, BlobType::Predator, 0)
                    == first_member_fault(
                    self.blobs@,
                    predator_indexes@,
                    BlobType::Predator,
                    k as int,
                ),
                forall|m: int|
                    0 <= m < k ==> (#[trigger] predator_indexes[m]) < self.blobs.len(),
            decreases predator_indexes.len() - k,
        {
            match member(&self.blobs, predator_indexes, k, BlobType::Predator) {
                Ok(_) => {},
                Err(e) => { return Err(e); },
            }
            k += 1;
        }
        let mut fed_on: Vec<bool> = Vec::new();
        while fed_on.len() < predator_indexes.len()
            invariant
                fed_on.len() <= predator_indexes.len(),
                forall|slot: int| 0 <= slot < fed_on.len() ==> !fed_on[slot],
            decreases predator_indexes.len() - fed_on.len(),
        {
            fed_on.push(false);
        }
        let mut k: usize = 0;
        while k < interactions.len()
            invariant
                k <= interactions.len(),
                fed_on.len() == predator_indexes.len(),
                forall|slot: int|
                    0 <= slot < fed_on.len() ==> (fed_on[slot] <==> feeds(
                        interactions@,
                        k as int,
                        slot,
                    )),
            decreases interactions.len() - k,
        {
            let slot = interactions[k].0;
            let ghost before = fed_on@;
            if slot < fed_on.len() {
                fed_on.set(slot, true);
            }
            proof {
                assert forall|s: int| 0 <= s < fed_on.len() implies (fed_on[s] <==> feeds(
                    interactions@,
                    k + 1,
                    s,
                )) by {
                    if feeds(interactions@, k + 1, s) {
                        let m = choose|m: int|
                            0 <= m < k + 1 && m < interactions.len() && (
                            #[trigger] interactions[m]).0 == s;
                        if m < k {
                            assert(feeds(interactions@, k as int, s));
                        }
                    }
                    if before[s] {
                        let m = choose|m: int|
                            0 <= m < k && m < interactions.len() && (#[trigger] interactions[m]).0
                                == s;
                        assert(interactions[m].0 == s);
                    }
                    if s == slot {
                        assert(interactions[k as int].0 == s);
                    }
                }
            }
            k += 1;
        }
        let mut slot: usize = 0;
        while slot < predator_indexes.len()
            invariant
                slot <= predator_indexes.len(),
                fed.len() == predator_indexes.len(),
                fed_on.len() == predator_indexes.len(),
                *self == *old(self),
                forall|m: int|
                    0 <= m < predator_indexes.len() ==> (#[trigger] predator_indexes[m])
                        < self.blobs.len(),
                forall|s: int|
                    0 <= s < fed_on.len() ==> (fed_on[s] <==> feeds(
                        interactions@,
                        interactions.len() as int,
                        s,
                    )),
                first_unearned(self.blobs@, predator_indexes@, interactions@, fed@, 0)
                    == first_unearned(
                    self.blobs@,
                    predator_indexes@,
                    interactions@,
                    fed@,
                    slot as int,
                ),
            decreases predator_indexes.len() - slot,
        {
            if !fed_on[slot] && fed[slot] != self.blobs[predator_indexes[slot]].energy {
                return Err(TickError::Unearned { index: predator_indexes[slot] });
            }
            slot += 1;
        }
        let mut k: usize = 0;
        while k < predator_indexes.len()
            invariant
                k <= predator_indexes.len(),
                fed.len() == predator_indexes.len(),
                self.blobs.len() == old(self).blobs.len(),
                forall|m: int|
                    0 <= m < predator_indexes.len() ==> (#[trigger] predator_indexes[m])
                        < self.blobs.len(),
                self.blobs@ == refuelled(old(self).blobs@, predator_indexes@, fed@, k as int),
                self.shape == old(self).shape,
                self.constants == old(self).constants,
            decreases predator_indexes.len() - k,
        {
            let index = predator_indexes[k];
            let ghost before = self.blobs@;
            self.blobs[index].energy = fed[k];
            assert(self.blobs@ =~= before.update(
                index as int,
                with_energy(before[index as int], fed[k as int]),
            ));
            k += 1;
        }
        Ok(())
    }

    /// Removes every prey that an interaction names, each exactly once
    /// however many predators hit it, and leaves every other agent in its
    /// order. Where an interaction does not name a prey of this world,
    /// nothing is removed and the fault is reported.
    pub fn kills(&mut self, interactions: &Vec<(usize, usize)>, prey_indexes: &Vec<usize>) -> (done:
        Result<(), TickError>)
        ensures
            match first_kill_fault(old(self).blobs@, prey_indexes@, interactions@, 0) {
                Some(e) => done == Err::<(), TickError>(e) && *final(self) == *old(self),
                None => done is Ok && final(self).blobs@ == after_kills(
                    old(self).blobs@,
                    interactions@,
                    prey_indexes@,
                ) && final(self).shape == old(self).shape && final(self).constants == old(
                    self,
                ).constants,
            },
    {
        let mut marks: Vec<bool> = Vec::new();
        while marks.len() < self.blobs.len()
            invariant
                marks.len() <= self.blobs.len(),
                forall|b: int| 0 <= b < marks.len() ==> !marks[b],
            decreases self.blobs.len() - marks.len(),
        {
            marks.push(false);
        }
        let mut k: usize = 0;
        while k < interactions.len()
            invariant
                k <= interactions.len(),
                marks.len() == self.blobs.len(),
                first_kill_fault(self.blobs@, prey_indexes@, interactions@, 0) == first_kill_fault(
                    self.blobs@,
                    prey_indexes@,
                    interactions@,
                    k as int,
                ),
                forall|m: int|
                    0 <= m < k ==> member_fault(
                        self.blobs@,
                        prey_indexes@,
                        (#[trigger] interactions[m]).1,
                        BlobType::Prey,
                    ) is None,
                forall|b: int|
                    0 <= b < marks.len() ==> (marks[b] <==> hit(
                        interactions@,
                        prey_indexes@,
                        k as int,
                        b,
                    )),
            decreases interactions.len() - k,
        {
            let victim = match member(&self.blobs, prey_indexes, interactions[k].1, BlobType::Prey) {
                Ok(index) => index,
                Err(e) => { return Err(e); },
            };
            let ghost before = marks@;
            marks.set(victim, true);
            proof {
                assert forall|b: int| 0 <= b < marks.len() implies (marks[b] <==> hit(
                    interactions@,
                    prey_indexes@,
                    k + 1,
                    b,
                )) by {
                    if hit(interactions@, prey_indexes@, k + 1, b) {
                        let m = choose|m: int|
                            0 <= m < k + 1 && m < interactions.len() && (
                            #[trigger] interactions[m]).1 < prey_indexes.len()
                                && prey_indexes[interactions[m].1 as int] == b;
                        if m < k {
                            assert(hit(interactions@, prey_indexes@, k as int, b));
                        }
                    }
                    if before[b] {
                        let m = choose|m: int|
                            0 <= m < k && m < interactions.len() && (#[trigger] interactions[m]).1
                                < prey_indexes.len() && prey_indexes[interactions[m].1 as int]
                                == b;
                        assert(interactions[m].1 < prey_indexes.len());
                    }
                    if b == victim {
                        assert(interactions[k as int].1 < prey_indexes.len());
                    }
                }
            }
            k += 1;
        }
        proof {
            assert(marked(marks@) =~= eaten(interactions@, prey_indexes@)) by {
                assert forall|b: int|
                    eaten(interactions@, prey_indexes@).contains(b) implies 0 <= b < marks.len() by {
                    let m = choose|m: int|
                        0 <= m < interactions.len() && (#[trigger] interactions[m]).1
                            < prey_indexes.len() && prey_indexes[interactions[m].1 as int] == b;
                    assert(member_fault(
                        self.blobs@,
                        prey_indexes@,
                        interactions[m].1,
                        BlobType::Prey,
                    ) is None);
                }
            }
        }
        remove_marked(&mut self.blobs, &marks);
        Ok(())
    }

    /// What the base-energy phase does to an agent of species `kind`: every
    /// prey gains the configured gain, every predator loses the configured
    /// loss.
    pub fn base_change(&self, kind: BlobType) -> (change: EnergyChange)
        ensures
            change == match kind {
                BlobType::Prey => EnergyChange::Gain(self.constants.prey_base_energy_gain),
                BlobType::Predator => EnergyChange::Loss(self.constants.predator_base_energy_loss),
            },
    {
        match kind {
            BlobType::Prey => EnergyChange::Gain(self.constants.prey_base_energy_gain),
            BlobType::Predator => EnergyChange::Loss(self.constants.predator_base_energy_loss),
        }
    }

    /// Writes the energies that the base-energy phase has left the agents
    /// with: agent `i` gets `levels[i]`. Where there is not one energy per
    /// agent, nothing is changed and the fault is reported.
    pub fn base_energy(&mut self, levels: &Vec<Scalar>) -> (done: Result<(), TickError>)
        ensures
            levels.len() != old(self).blobs.len() ==> done == Err::<(), TickError>(
                TickError::Misaligned { expected: old(self).blobs.len(), found: levels.len() },
            ) && *final(self) == *old(self),
            levels.len() == old(self).blobs.len() ==> done is Ok && final(self).blobs@
                == with_energies(old(self).blobs@, levels@) && final(self).shape == old(
                self,
            ).shape && final(self).constants == old(self).constants,
    {
        if levels.len() != self.blobs.len() {
            return Err(TickError::Misaligned { expected: self.blobs.len(), found: levels.len() });
        }
        let mut i: usize = 0;
        while i < self.blobs.len()
            invariant
                i <= self.blobs.len(),
                levels.len() == self.blobs.len(),
                self.blobs.len() == old(self).blobs.len(),
                self.shape == old(self).shape,
                self.constants == old(self).constants,
                forall|m: int|
                    0 <= m < i ==> #[trigger] self.blobs[m] == with_energy(
                        old(self).blobs[m],
                        levels[m],
                    ),
                forall|m: int| i <= m < self.blobs.len() ==> self.blobs[m] == old(self).blobs[m],
            decreases self.blobs.len() - i,
        {
            self.blobs[i].energy = levels[i];
            i += 1;
        }
        assert(self.blobs@ =~= with_energies(old(self).blobs@, levels@));
        Ok(())
    }

    /// Removes every agent whose energy is below zero. Nothing is handed on
    /// to any other agent. No agent that is left has energy below zero.
    pub fn starved(&mut self)
        ensures
            final(self).blobs@ == after_starvation(old(self).blobs@),
            nourished(final(self).blobs@),
            final(self).shape == old(self).shape,
            final(self).constants == old(self).constants,
    {
        let mut marks: Vec<bool> = Vec::new();
        let mut i: usize = 0;
        while i < self.blobs.len()
            invariant
                i <= self.blobs.len(),
                marks.len() == i,
                forall|b: int| 0 <= b < i ==> marks[b] == self.blobs[b].starving(),
            decreases self.blobs.len() - i,
        {
            marks.push(self.blobs[i].is_starving());
            i += 1;
        }
        proof {
            assert(marks@ =~= starving(self.blobs@));
            lemma_kept_members(self.blobs@, marked(marks@), 0);
        }
        remove_marked(&mut self.blobs, &marks);
    }

    /// The positions of the agents that split at the end of this tick, in
    /// ascending order: those whose energy has reached two.
    pub fn to_reproduce(&self) -> (list: Vec<usize>)
        ensures
            list@ == parents(self.blobs@),
    {
        let mut list: Vec<usize> = Vec::new();
        let mut i: usize = 0;
        while i < self.blobs.len()
            invariant
                i <= self.blobs.len(),
                list@ == chosen(fertile(self.blobs@), i as int),
            decreases self.blobs.len() - i,
        {
            if self.blobs[i].is_fertile() {
                list.push(i);
            }
            i += 1;
        }
        list
    }

    /// Replaces every agent whose energy has reached two by its two
    /// children. `births[k]` holds the numbers for the parent that
    /// `to_reproduce` lists at `k`. The parents go from the top of the list
    /// down, and the children of each are added at the end as it goes; the
    /// other agents keep their order. Where there is not one birth per
    /// parent, nothing is changed and the fault is reported.
    pub fn reproduce_blobs(&mut self, births: Vec<Birth>) -> (done: Result<(), TickError>)
        ensures
            births.len() != parents(old(self).blobs@).len() ==> done == Err::<(), TickError>(
                TickError::Misaligned {
                    expected: parents(old(self).blobs@).len() as usize,
                    found: births.len(),
                },
            ) && *final(self) == *old(self),
            births.len() == parents(old(self).blobs@).len() ==> done is Ok && final(self).blobs@
                == after_reproduction(old(self).blobs@, births@) && final(self).shape == old(
                self,
            ).shape && final(self).constants == old(self).constants,
            nourished(old(self).blobs@) ==> nourished(final(self).blobs@),
    {
        let ghost start = self.blobs@;
        let ghost marks = fertile(start);
        let ghost list = parents(start);
        let ghost all_births = births@;
        let expected = self.to_reproduce().len();
        if births.len() != expected {
            return Err(TickError::Misaligned { expected, found: births.len() });
        }
        let mut births = births;
        let ghost mut gone: Set<int> = Set::empty();
        let mut idx: usize = self.blobs.len();
        proof {
            assert(self.blobs@ =~= start.subrange(0, idx as int) + kept_from(
                start,
                gone,
                idx as int,
            ) + litters(start, list, all_births, births.len() as int));
        }
        while idx > 0
            invariant
                idx <= start.len(),
                start.len() <= usize::MAX,
                marks == fertile(start),
                list == parents(start),
                births.len() == chosen(marks, idx as int).len(),
                births.len() <= all_births.len(),
                all_births.len() == list.len(),
                births@ == all_births.subrange(0, births.len() as int),
                forall|i: int| gone.contains(i) <==> idx <= i < start.len() && marks[i],
                self.blobs@ == start.subrange(0, idx as int) + kept_from(start, gone, idx as int)
                    + litters(start, list, all_births, births.len() as int),
                self.shape == old(self).shape,
                self.constants == old(self).constants,
            decreases idx,
        {
            idx -= 1;
            let ghost rest = kept_from(start, gone, idx as int + 1);
            let ghost born = litters(start, list, all_births, births.len() as int);
            assert(self.blobs@[idx as int] == start[idx as int]);
            if self.blobs[idx].is_fertile() {
                proof {
                    lemma_chosen_prefix(marks, idx as int + 1, start.len() as int);
                    assert(chosen(marks, idx as int + 1) == chosen(marks, idx as int).push(idx));
                    assert(list[births.len() - 1] == list.subrange(
                        0,
                        births.len() as int,
                    )[births.len() - 1]);
                    lemma_remove_below(start, gone, idx as int, idx as int + 1);
                    assert(self.blobs@.remove(idx as int) =~= (start.subrange(0, idx as int + 1)
                        + rest).remove(idx as int) + born);
                    gone = gone.insert(idx as int);
                }
                let blob = self.blobs.remove(idx);
                let birth = births.pop().unwrap();
                let (child1, child2) = blob.reproduce(birth);
                self.blobs.push(child1);
                self.blobs.push(child2);
                proof {
                    assert(birth == all_births[births.len() as int]);
                    assert(self.blobs@ =~= start.subrange(0, idx as int) + kept_from(
                        start,
                        gone,
                        idx as int,
                    ) + (born + seq![child1, child2]));
                }
            } else {
                proof {
                    assert(kept_from(start, gone, idx as int) == seq![start[idx as int]] + rest);
                    assert(start.subrange(0, idx as int + 1) =~= start.subrange(0, idx as int)
                        + seq![start[idx as int]]);
                    assert(self.blobs@ =~= start.subrange(0, idx as int) + kept_from(
                        start,
                        gone,
                        idx as int,
                    ) + born);
                }
            }
        }
        proof {
            lemma_kept_agree(start, gone, marked(marks), 0);
            assert(start.subrange(0, 0) + kept_from(start, gone, 0) =~= kept_from(start, gone, 0));
            if nourished(start) {
                lemma_reproduction_keeps_nourished(start, all_births);
            }
        }
        Ok(())
    }

    /// The head counts after a tick: all agents, the prey among them and
    /// the predators among them.
    pub fn population(&self) -> (counts: (usize, usize, usize))
        ensures
            counts.0 == self.blobs.len(),
            counts.1 == count_marked(of_kind(self.blobs@, BlobType::Prey), self.blobs.len() as int),
            counts.2 == count_marked(
                of_kind(self.blobs@, BlobType::Predator),
                self.blobs.len() as int,
            ),
            counts.1 + counts.2 == counts.0,
    {
        let mut preys: usize = 0;
        let mut predators: usize = 0;
        let mut i: usize = 0;
        while i < self.blobs.len()
            invariant
                i <= self.blobs.len(),
                preys + predators == i,
                preys == count_marked(of_kind(self.blobs@, BlobType::Prey), i as int),
                predators == count_marked(of_kind(self.blobs@, BlobType::Predator), i as int),
            decreases self.blobs.len() - i,
        {
            match self.blobs[i].blob_type {
                BlobType::Prey => {
                    preys += 1;
                },
                BlobType::Predator => {
                    predators += 1;
                },
            }
            i += 1;
        }
        (self.blobs.len(), preys, predators)
    }
}

/// Makes the world of a fresh run: the first `num_prey` seeds grow into
/// prey, the next `num_predators` into predators, each with an energy of
/// one, so that no agent starts below zero. A count below zero counts as
/// none. `None` where the number of seeds is not the number of agents asked
/// for.
#[verifier::loop_isolation(false)]
pub fn make_world(num_prey: i32, num_predators: i32, seeds: Vec<Seed>, constants: Constants) -> (world:
    Option<World>)
    ensures
        world is Some <==> seeds.len() == width(num_prey) + width(num_predators),
        world matches Some(w) ==> w.blobs.len() == seeds.len() && (forall|i: int|
            0 <= i < seeds.len() ==> #[trigger] w.blobs[i] == sprout(
                seeds[i],
                if i < width(num_prey) {
                    BlobType::Prey
                } else {
                    BlobType::Predator
                },
            )) && w.shape == constants.world_shape && w.constants == constants && nourished(
            w.blobs@,
        ),
{
    let preys: usize = if num_prey > 0 {
        num_prey as usize
    } else {
        0
    };
    let predators: usize = if num_predators > 0 {
        num_predators as usize
    } else {
        0
    };
    let wanted = match preys.checked_add(predators) {
        Some(wanted) => wanted,
        None => { return None; },
    };
    if seeds.len() != wanted {
        return None;
    }
    let ghost all = seeds@;
    let mut seeds = seeds;
    let mut stack: Vec<Seed> = Vec::new();
    while seeds.len() > 0
        invariant
            seeds.len() + stack.len() == all.len(),
            seeds@ == all.subrange(0, seeds.len() as int),
            forall|k: int| 0 <= k < stack.len() ==> #[trigger] stack[k] == all[all.len() - 1 - k],
        decreases seeds.len(),
    {
        let seed = seeds.pop().unwrap();
        stack.push(seed);
    }
    let mut blobs: Vec<Blob> = Vec::new();
    while stack.len() > 0
        invariant
            stack.len() + blobs.len() == all.len(),
            forall|k: int| 0 <= k < stack.len() ==> #[trigger] stack[k] == all[all.len() - 1 - k],
            forall|i: int|
                0 <= i < blobs.len() ==> #[trigger] blobs[i] == sprout(
                    all[i],
                    if i < width(num_prey) {
                        BlobType::Prey
                    } else {
                        BlobType::Predator
                    },
                ),
        decreases stack.len(),
    {
        let seed = stack.pop().unwrap();
        let kind = if blobs.len() < preys {
            BlobType::Prey
        } else {
            BlobType::Predator
        };
        blobs.push(Blob::new(seed.brain, seed.position, seed.angle, kind, Scalar::one()));
    }
    Some(World::new(blobs, constants))
}

} // verus!
