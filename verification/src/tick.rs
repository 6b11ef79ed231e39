//! One tick of the world, phase by phase.
//!
//! A tick owns the world from its first phase to its last. Each phase is
//! one call: it takes what the embedding program has worked out for the
//! phase, checks it against the world, writes it down and hands back what
//! the next piece of work needs. The phases can only be gone through in
//! their order, and the lists of predators and of prey that the tick works
//! with are made when it begins and dropped at the first removal.

use crate::blobs::{Birth, Blob, BlobType};
use crate::laws::lemma_pairs_are_hits;
use crate::phases::{Phase, TickError};
use crate::scalar::Scalar;
use crate::utils::{lemma_chosen, placed_by_tag};
use crate::world::{
    after_kills, after_reproduction, after_starvation, all_pairs, first_kill_fault,
    first_meal_fault, first_member_fault, first_ragged, first_unearned, lists_view, moved, nourished, of_kind, parents,
    menus, positions, refuelled, responses_fit, stimuli_fit, table_view, with_energies, Gap,
    Motion, World,
};
use vstd::prelude::*;

verus! {

/// A tick under way.
pub struct Tick {
    world: World,
    phase: Phase,
    predator_indexes: Vec<usize>,
    prey_indexes: Vec<usize>,
    interactions: Vec<(usize, usize)>,
}

/// What a tick under way holds: the world as the phases so far have left
/// it, the phase that is due, the positions of the predators and of the
/// prey as long as they are good, and the interactions once they are known.
pub struct TickView {
    pub world: World,
    pub phase: Phase,
    pub predators: Seq<usize>,
    pub preys: Seq<usize>,
    pub interactions: Seq<(usize, usize)>,
}

impl View for Tick {
    type V = TickView;

    closed spec fn view(&self) -> TickView {
        TickView {
            world: self.world,
            phase: self.phase,
            predators: self.predator_indexes@,
            preys: self.prey_indexes@,
            interactions: self.interactions@,
        }
    }
}

impl TickView {
    /// The same tick with another phase due.
    pub open spec fn at(self, phase: Phase) -> TickView {
        TickView {
            world: self.world,
            phase,
            predators: self.predators,
            preys: self.preys,
            interactions: self.interactions,
        }
    }
}

/// The fault of asking for phase `asked` while phase `due` is due, if it
/// is one.
pub open spec fn turn(due: Phase, asked: Phase) -> Option<TickError> {
    if due == asked {
        None
    } else {
        Some(TickError::OutOfTurn { asked, due })
    }
}

/// No fault is found in lists that are fresh.
proof fn lemma_fresh_lists_never_fault(world: World, kind: BlobType, from: int)
    requires
        0 <= from,
    ensures
        first_member_fault(world.blobs@, positions(world.blobs@, kind), kind, from) is None,
    decreases positions(world.blobs@, kind).len() - from,
{
    let list = positions(world.blobs@, kind);
    if from < list.len() {
        lemma_chosen(of_kind(world.blobs@, kind), world.blobs.len() as int);
        let at = list[from];
        assert(of_kind(world.blobs@, kind)[at as int]);
        lemma_fresh_lists_never_fault(world, kind, from + 1);
    }
}

/// No fault is found in interactions that name entries of a fresh list of
/// prey.
proof fn lemma_fresh_kills_never_fault(
    world: World,
    interactions: Seq<(usize, usize)>,
    from: int,
)
    requires
        0 <= from,
        forall|k: int|
            0 <= k < interactions.len() ==> (#[trigger] interactions[k]).1 < positions(
                world.blobs@,
                BlobType::Prey,
            ).len(),
    ensures
        first_kill_fault(world.blobs@, positions(world.blobs@, BlobType::Prey), interactions, from)
            is None,
    decreases interactions.len() - from,
{
    let list = positions(world.blobs@, BlobType::Prey);
    if from < interactions.len() {
        lemma_chosen(of_kind(world.blobs@, BlobType::Prey), world.blobs.len() as int);
        let at = list[interactions[from].1 as int];
        assert(of_kind(world.blobs@, BlobType::Prey)[at as int]);
        lemma_fresh_kills_never_fault(world, interactions, from + 1);
    }
}

/// Where every row of a table has the width asked for, none is ragged.
proof fn lemma_not_ragged(hits: Seq<Seq<bool>>, width: int, from: int)
    requires
        0 <= from,
        first_ragged(hits, width, from) is None,
    ensures
        forall|i: int| from <= i < hits.len() ==> (#[trigger] hits[i]).len() == width,
    decreases hits.len() - from,
{
    if from < hits.len() {
        lemma_not_ragged(hits, width, from + 1);
    }
}

/// No fault is found in interactions that name entries of fresh lists.
proof fn lemma_fresh_meals_never_fault(
    world: World,
    interactions: Seq<(usize, usize)>,
    from: int,
)
    requires
        0 <= from,
        forall|k: int|
            0 <= k < interactions.len() ==> (#[trigger] interactions[k]).0 < positions(
                world.blobs@,
                BlobType::Predator,
            ).len() && interactions[k].1 < positions(world.blobs@, BlobType::Prey).len(),
    ensures
        first_meal_fault(
            world.blobs@,
            positions(world.blobs@, BlobType::Predator),
            positions(world.blobs@, BlobType::Prey),
            interactions,
            from,
        ) is None,
    decreases interactions.len() - from,
{
    if from < interactions.len() {
        lemma_chosen(of_kind(world.blobs@, BlobType::Prey), world.blobs.len() as int);
        lemma_chosen(of_kind(world.blobs@, BlobType::Predator), world.blobs.len() as int);
        let prey = positions(world.blobs@, BlobType::Prey)[interactions[from].1 as int];
        let predator = positions(world.blobs@, BlobType::Predator)[interactions[from].0 as int];
        assert(of_kind(world.blobs@, BlobType::Prey)[prey as int]);
        assert(of_kind(world.blobs@, BlobType::Predator)[predator as int]);
        lemma_fresh_meals_never_fault(world, interactions, from + 1);
    }
}

/// Feeding changes no species and no count.
proof fn lemma_refuelled_keeps_kinds(
    blobs: Seq<Blob>,
    indexes: Seq<usize>,
    levels: Seq<Scalar>,
    upto: int,
    kind: BlobType,
)
    requires
        0 <= upto <= indexes.len(),
        forall|k: int| 0 <= k < indexes.len() ==> (#[trigger] indexes[k]) < blobs.len(),
    ensures
        refuelled(blobs, indexes, levels, upto).len() == blobs.len(),
        of_kind(refuelled(blobs, indexes, levels, upto), kind) == of_kind(blobs, kind),
    decreases upto,
{
    if upto > 0 {
        lemma_refuelled_keeps_kinds(blobs, indexes, levels, upto - 1, kind);
        assert(of_kind(refuelled(blobs, indexes, levels, upto), kind) =~= of_kind(
            refuelled(blobs, indexes, levels, upto - 1),
            kind,
        ));
    }
}

impl Tick {
    #[verifier::type_invariant]
    spec fn inv(self) -> bool {
        &&& self.phase != Phase::IndexPartition
        &&& self.phase.rank() <= 5 ==> self.predator_indexes@ == positions(
            self.world.blobs@,
            BlobType::Predator,
        ) && self.prey_indexes@ == positions(self.world.blobs@, BlobType::Prey)
        &&& self.phase == Phase::FeedAndKill ==> forall|k: int|
            0 <= k < self.interactions.len() ==> (#[trigger] self.interactions[k]).0
                < self.predator_indexes.len() && self.interactions[k].1 < self.prey_indexes.len()
        &&& self.phase.rank() >= 8 ==> nourished(self.world.blobs@)
    }

    /// Begins a tick on `world`: the predators and the prey are listed
    /// anew, and the stimuli are due.
    pub fn begin(world: World) -> (tick: Tick)
        ensures
            tick@ == (TickView {
                world,
                phase: Phase::StimulusGather,
                predators: positions(world.blobs@, BlobType::Predator),
                preys: positions(world.blobs@, BlobType::Prey),
                interactions: Seq::empty(),
            }),
    {
        let (predator_indexes, prey_indexes) = world.get_indexes();
        Tick {
            world,
            phase: Phase::StimulusGather,
            predator_indexes,
            prey_indexes,
            interactions: Vec::new(),
        }
    }

    /// Takes the stimuli, which come tagged with the position of the agent
    /// each was sensed for, in whatever order the sensing finished, and
    /// hands them back in the order of the agents. The responses are due
    /// next.
    pub fn gather_stimuli(self, sensed: Vec<(usize, Vec<Scalar>)>) -> (next: Result<
        (Tick, Vec<Vec<Scalar>>),
        TickError,
    >)
        ensures
            match turn(self@.phase, Phase::StimulusGather) {
                Some(e) => next == Err::<(Tick, Vec<Vec<Scalar>>), TickError>(e),
                None => if stimuli_fit(self@.world.blobs@, sensed@) {
                    next is Ok && next->Ok_0.0@ == self@.at(Phase::NeuralInference)
                        && placed_by_tag(sensed@, next->Ok_0.1@)
                } else {
                    next == Err::<(Tick, Vec<Vec<Scalar>>), TickError>(TickError::Malformed)
                },
            },
    {
        proof {
            use_type_invariant(&self);
        }
        if self.phase != Phase::StimulusGather {
            return Err(
                TickError::OutOfTurn { asked: Phase::StimulusGather, due: self.phase },
            );
        }
        let stimuli = match self.world.gather_stimuli(sensed) {
            Some(stimuli) => stimuli,
            None => { return Err(TickError::Malformed); },
        };
        let Tick { world, phase: _, predator_indexes, prey_indexes, interactions } = self;
        Ok(
            (
                Tick {
                    world,
                    phase: Phase::NeuralInference,
                    predator_indexes,
                    prey_indexes,
                    interactions,
                },
                stimuli,
            ),
        )
    }

    /// Takes the responses, tagged as the stimuli were, and hands them back
    /// in the order of the agents. The moves are due next.
    pub fn gather_responses(self, thought: Vec<(usize, Vec<Scalar>)>) -> (next: Result<
        (Tick, Vec<Vec<Scalar>>),
        TickError,
    >)
        ensures
            match turn(self@.phase, Phase::NeuralInference) {
                Some(e) => next == Err::<(Tick, Vec<Vec<Scalar>>), TickError>(e),
                None => if responses_fit(self@.world.blobs@, thought@) {
                    next is Ok && next->Ok_0.0@ == self@.at(Phase::Movement) && placed_by_tag(
                        thought@,
                        next->Ok_0.1@,
                    )
                } else {
                    next == Err::<(Tick, Vec<Vec<Scalar>>), TickError>(TickError::Malformed)
                },
            },
    {
        proof {
            use_type_invariant(&self);
        }
        if self.phase != Phase::NeuralInference {
            return Err(
                TickError::OutOfTurn { asked: Phase::NeuralInference, due: self.phase },
            );
        }
        let responses = match self.world.gather_responses(thought) {
            Some(responses) => responses,
            None => { return Err(TickError::Malformed); },
        };
        let Tick { world, phase: _, predator_indexes, prey_indexes, interactions } = self;
        Ok(
            (
                Tick { world, phase: Phase::Movement, predator_indexes, prey_indexes, interactions },
                responses,
            ),
        )
    }

    /// Takes the moves, one per agent, and writes them to the agents. No
    /// agent is added, removed or reordered, so the lists of predators and
    /// of prey stay good. The measurements between predators and prey are
    /// due next.
    pub fn move_blobs(self, moves: &Vec<Motion>) -> (next: Result<Tick, TickError>)
        ensures
            match turn(self@.phase, Phase::Movement) {
                Some(e) => next == Err::<Tick, TickError>(e),
                None => if moves.len() == self@.world.blobs.len() {
                    &&& next is Ok
                    &&& next->Ok_0@.phase == Phase::InteractionDetection
                    &&& next->Ok_0@.predators == self@.predators
                    &&& next->Ok_0@.preys == self@.preys
                    &&& next->Ok_0@.interactions == self@.interactions
                    &&& next->Ok_0@.world.shape == self@.world.shape
                    &&& next->Ok_0@.world.constants == self@.world.constants
                    &&& next->Ok_0@.world.blobs.len() == moves.len()
                    &&& forall|i: int|
                        0 <= i < moves.len() ==> #[trigger] next->Ok_0@.world.blobs[i] == moved(
                            self@.world.blobs[i],
                            moves[i],
                            self@.world.shape,
                        )
                } else {
                    next == Err::<Tick, TickError>(
                        TickError::Misaligned {
                            expected: self@.world.blobs.len(),
                            found: moves.len(),
                        },
                    )
                },
            },
    {
        proof {
            use_type_invariant(&self);
        }
        if self.phase != Phase::Movement {
            return Err(TickError::OutOfTurn { asked: Phase::Movement, due: self.phase });
        }
        let Tick { world, phase: _, predator_indexes, prey_indexes, interactions } = self;
        let ghost before = world;
        let mut world = world;
        match world.move_blobs(moves) {
            Ok(()) => {},
            Err(e) => { return Err(e); },
        }
        proof {
            assert(of_kind(world.blobs@, BlobType::Prey) =~= of_kind(
                before.blobs@,
                BlobType::Prey,
            ));
            assert(of_kind(world.blobs@, BlobType::Predator) =~= of_kind(
                before.blobs@,
                BlobType::Predator,
            ));
        }
        Ok(
            Tick {
                world,
                phase: Phase::InteractionDetection,
                predator_indexes,
                prey_indexes,
                interactions,
            },
        )
    }

    /// Takes what was measured between every predator and every prey,
    /// `gaps[i][j]` between predator `i` and prey `j` of the lists, records
    /// the interactions and hands back the menus: for every predator of
    /// the list, the positions of the prey that it feeds on. A prey that
    /// several predators hit is on the menu of each. The energies of the
    /// fed predators are due next.
    pub fn check_interactions(self, gaps: &Vec<Vec<Gap>>) -> (next: Result<
        (Tick, Vec<Vec<usize>>),
        TickError,
    >)
        ensures
            match turn(self@.phase, Phase::InteractionDetection) {
                Some(e) => next == Err::<(Tick, Vec<Vec<usize>>), TickError>(e),
                None => if gaps.len() != self@.predators.len() {
                    next == Err::<(Tick, Vec<Vec<usize>>), TickError>(
                        TickError::Misaligned {
                            expected: self@.predators.len() as usize,
                            found: gaps.len(),
                        },
                    )
                } else {
                    match first_ragged(table_view(gaps@), self@.preys.len() as int, 0) {
                        Some(row) => next == Err::<(Tick, Vec<Vec<usize>>), TickError>(
                            TickError::Misaligned {
                                expected: self@.preys.len() as usize,
                                found: gaps[row].len(),
                            },
                        ),
                        None => {
                            &&& next is Ok
                            &&& next->Ok_0.0@ == (TickView {
                                world: self@.world,
                                phase: Phase::FeedAndKill,
                                predators: self@.predators,
                                preys: self@.preys,
                                interactions: all_pairs(table_view(gaps@), gaps.len() as int),
                            })
                            &&& lists_view(next->Ok_0.1@) == menus(
                                all_pairs(table_view(gaps@), gaps.len() as int),
                                self@.predators.len(),
                                self@.preys,
                            )
                        },
                    }
                },
            },
    {
        proof {
            use_type_invariant(&self);
        }
        if self.phase != Phase::InteractionDetection {
            return Err(
                TickError::OutOfTurn { asked: Phase::InteractionDetection, due: self.phase },
            );
        }
        let Tick { world, phase: _, predator_indexes, prey_indexes, interactions: _ } = self;
        let interactions = match world.check_interactions(&predator_indexes, &prey_indexes, gaps) {
            Ok(interactions) => interactions,
            Err(e) => { return Err(e); },
        };
        proof {
            let table = table_view(gaps@);
            lemma_not_ragged(table, prey_indexes.len() as int, 0);
            lemma_pairs_are_hits(table, gaps.len() as int);
            lemma_fresh_meals_never_fault(world, interactions@, 0);
        }
        let served = match world.menus(&interactions, &predator_indexes, &prey_indexes) {
            Ok(served) => served,
            Err(e) => { return Err(e); },
        };
        Ok(
            (
                Tick {
                    world,
                    phase: Phase::FeedAndKill,
                    predator_indexes,
                    prey_indexes,
                    interactions,
                },
                served,
            ),
        )
    }

    /// Takes the energies that feeding has left the predators with, one
    /// per predator in the order of the list of predators, writes them, and
    /// then removes every prey that an interaction names: feeding comes
    /// before any removal, and each prey goes exactly once however many
    /// predators hit it. A predator that fed on nothing must keep the
    /// energy it has. The lists of predators and of prey are dropped with
    /// the removal. The energies after the base change are due next.
    pub fn kills(self, fed: &Vec<Scalar>) -> (next: Result<Tick, TickError>)
        ensures
            match turn(self@.phase, Phase::FeedAndKill) {
                Some(e) => next == Err::<Tick, TickError>(e),
                None => if fed.len() != self@.predators.len() {
                    next == Err::<Tick, TickError>(
                        TickError::Misaligned {
                            expected: self@.predators.len() as usize,
                            found: fed.len(),
                        },
                    )
                } else {
                    match first_unearned(
                        self@.world.blobs@,
                        self@.predators,
                        self@.interactions,
                        fed@,
                        0,
                    ) {
                        Some(slot) => next == Err::<Tick, TickError>(
                            TickError::Unearned { index: self@.predators[slot] },
                        ),
                        None => {
                            &&& next is Ok
                            &&& next->Ok_0@.phase == Phase::BaseEnergy
                            &&& next->Ok_0@.predators == Seq::<usize>::empty()
                            &&& next->Ok_0@.preys == Seq::<usize>::empty()
                            &&& next->Ok_0@.interactions == self@.interactions
                            &&& next->Ok_0@.world.shape == self@.world.shape
                            &&& next->Ok_0@.world.constants == self@.world.constants
                            &&& next->Ok_0@.world.blobs@ == after_kills(
                                refuelled(
                                    self@.world.blobs@,
                                    self@.predators,
                                    fed@,
                                    fed.len() as int,
                                ),
                                self@.interactions,
                                self@.preys,
                            )
                        },
                    }
                },
            },
    {
        proof {
            use_type_invariant(&self);
        }
        if self.phase != Phase::FeedAndKill {
            return Err(TickError::OutOfTurn { asked: Phase::FeedAndKill, due: self.phase });
        }
        let Tick { world, phase: _, predator_indexes, prey_indexes, interactions } = self;
        let ghost before = world;
        let mut world = world;
        proof {
            lemma_fresh_lists_never_fault(before, BlobType::Predator, 0);
            lemma_chosen(of_kind(before.blobs@, BlobType::Predator), before.blobs.len() as int);
        }
        match world.feed(&interactions, &predator_indexes, fed) {
            Ok(()) => {},
            Err(e) => { return Err(e); },
        }
        proof {
            lemma_refuelled_keeps_kinds(
                before.blobs@,
                predator_indexes@,
                fed@,
                fed.len() as int,
                BlobType::Prey,
            );
            lemma_fresh_kills_never_fault(world, interactions@, 0);
        }
        match world.kills(&interactions, &prey_indexes) {
            Ok(()) => {},
            Err(e) => { return Err(e); },
        }
        Ok(
            Tick {
                world,
                phase: Phase::BaseEnergy,
                predator_indexes: Vec::new(),
                prey_indexes: Vec::new(),
                interactions,
            },
        )
    }

    /// Takes the energies that the base change has left the agents with,
    /// one per agent, and writes them. Starvation is due next.
    pub fn base_energy(self, levels: &Vec<Scalar>) -> (next: Result<Tick, TickError>)
        ensures
            match turn(self@.phase, Phase::BaseEnergy) {
                Some(e) => next == Err::<Tick, TickError>(e),
                None => if levels.len() == self@.world.blobs.len() {
                    &&& next is Ok
                    &&& next->Ok_0@.phase == Phase::Starvation
                    &&& next->Ok_0@.predators == self@.predators
                    &&& next->Ok_0@.preys == self@.preys
                    &&& next->Ok_0@.interactions == self@.interactions
                    &&& next->Ok_0@.world.shape == self@.world.shape
                    &&& next->Ok_0@.world.constants == self@.world.constants
                    &&& next->Ok_0@.world.blobs@ == with_energies(self@.world.blobs@, levels@)
                } else {
                    next == Err::<Tick, TickError>(
                        TickError::Misaligned {
                            expected: self@.world.blobs.len(),
                            found: levels.len(),
                        },
                    )
                },
            },
    {
        proof {
            use_type_invariant(&self);
        }
        if self.phase != Phase::BaseEnergy {
            return Err(TickError::OutOfTurn { asked: Phase::BaseEnergy, due: self.phase });
        }
        let Tick { world, phase: _, predator_indexes, prey_indexes, interactions } = self;
        let mut world = world;
        match world.base_energy(levels) {
            Ok(()) => {},
            Err(e) => { return Err(e); },
        }
        Ok(Tick { world, phase: Phase::Starvation, predator_indexes, prey_indexes, interactions })
    }

    /// Removes every agent whose energy is below zero and hands back the
    /// positions of the agents that split, in ascending order. No agent
    /// that is left has energy below zero. The births are due next.
    pub fn starved(self) -> (next: Result<(Tick, Vec<usize>), TickError>)
        ensures
            match turn(self@.phase, Phase::Starvation) {
                Some(e) => next == Err::<(Tick, Vec<usize>), TickError>(e),
                None => {
                    &&& next is Ok
                    &&& next->Ok_0.0@.phase == Phase::Reproduction
                    &&& next->Ok_0.0@.predators == self@.predators
                    &&& next->Ok_0.0@.preys == self@.preys
                    &&& next->Ok_0.0@.interactions == self@.interactions
                    &&& next->Ok_0.0@.world.shape == self@.world.shape
                    &&& next->Ok_0.0@.world.constants == self@.world.constants
                    &&& next->Ok_0.0@.world.blobs@ == after_starvation(self@.world.blobs@)
                    &&& nourished(next->Ok_0.0@.world.blobs@)
                    &&& next->Ok_0.1@ == parents(next->Ok_0.0@.world.blobs@)
                },
            },
    {
        proof {
            use_type_invariant(&self);
        }
        if self.phase != Phase::Starvation {
            return Err(TickError::OutOfTurn { asked: Phase::Starvation, due: self.phase });
        }
        let Tick { world, phase: _, predator_indexes, prey_indexes, interactions } = self;
        let mut world = world;
        world.starved();
        let parents = world.to_reproduce();
        Ok(
            (
                Tick {
                    world,
                    phase: Phase::Reproduction,
                    predator_indexes,
                    prey_indexes,
                    interactions,
                },
                parents,
            ),
        )
    }

    /// Takes the births, one per splitting agent in the order handed back
    /// by `starved`, and replaces every such agent by its two children. No
    /// agent has energy below zero after. Only the end of the tick is left.
    pub fn reproduce_blobs(self, births: Vec<Birth>) -> (next: Result<Tick, TickError>)
        ensures
            match turn(self@.phase, Phase::Reproduction) {
                Some(e) => next == Err::<Tick, TickError>(e),
                None => if births.len() == parents(self@.world.blobs@).len() {
                    &&& next is Ok
                    &&& next->Ok_0@.phase == Phase::Hook
                    &&& next->Ok_0@.predators == self@.predators
                    &&& next->Ok_0@.preys == self@.preys
                    &&& next->Ok_0@.interactions == self@.interactions
                    &&& next->Ok_0@.world.shape == self@.world.shape
                    &&& next->Ok_0@.world.constants == self@.world.constants
                    &&& next->Ok_0@.world.blobs@ == after_reproduction(
                        self@.world.blobs@,
                        births@,
                    )
                    &&& nourished(next->Ok_0@.world.blobs@)
                } else {
                    next == Err::<Tick, TickError>(
                        TickError::Misaligned {
                            expected: parents(self@.world.blobs@).len() as usize,
                            found: births.len(),
                        },
                    )
                },
            },
    {
        proof {
            use_type_invariant(&self);
        }
        if self.phase != Phase::Reproduction {
            return Err(TickError::OutOfTurn { asked: Phase::Reproduction, due: self.phase });
        }
        let Tick { world, phase: _, predator_indexes, prey_indexes, interactions } = self;
        let mut world = world;
        match world.reproduce_blobs(births) {
            Ok(()) => {},
            Err(e) => { return Err(e); },
        }
        Ok(Tick { world, phase: Phase::Hook, predator_indexes, prey_indexes, interactions })
    }

    /// Ends the tick and hands the world back. Every agent in it has an
    /// energy of at least zero, so the next tick can take the root of every
    /// energy for a radius.
    pub fn finish(self) -> (world: Result<World, TickError>)
        ensures
            match turn(self@.phase, Phase::Hook) {
                Some(e) => world == Err::<World, TickError>(e),
                None => world == Ok::<World, TickError>(self@.world) && nourished(
                    self@.world.blobs@,
                ),
            },
    {
        proof {
            use_type_invariant(&self);
        }
        if self.phase != Phase::Hook {
            return Err(TickError::OutOfTurn { asked: Phase::Hook, due: self.phase });
        }
        let Tick { world, phase: _, predator_indexes: _, prey_indexes: _, interactions: _ } = self;
        Ok(world)
    }

    /// The world as the phases so far have left it.
    pub fn world(&self) -> (world: &World)
        ensures
            *world == self@.world,
    {
        &self.world
    }

    /// The phase that is due.
    pub fn phase(&self) -> (phase: Phase)
        ensures
            phase == self@.phase,
    {
        self.phase
    }

    /// The positions of the predators, good until the first removal.
    pub fn predator_indexes(&self) -> (indexes: &Vec<usize>)
        ensures
            indexes@ == self@.predators,
            self@.phase.rank() <= 5 ==> indexes@ == positions(self@.world.blobs@, BlobType::Predator),
    {
        proof {
            use_type_invariant(self);
        }
        &self.predator_indexes
    }

    /// The positions of the prey, good until the first removal.
    pub fn prey_indexes(&self) -> (indexes: &Vec<usize>)
        ensures
            indexes@ == self@.preys,
            self@.phase.rank() <= 5 ==> indexes@ == positions(self@.world.blobs@, BlobType::Prey),
    {
        proof {
            use_type_invariant(self);
        }
        &self.prey_indexes
    }

    /// The interactions of the tick, once they are known.
    pub fn interactions(&self) -> (interactions: &Vec<(usize, usize)>)
        ensures
            interactions@ == self@.interactions,
    {
        &self.interactions
    }
}

} // verus!
