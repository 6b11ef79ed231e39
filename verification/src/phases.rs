//! The phases of a tick and the faults that a phase reports.

use vstd::prelude::*;

verus! {

/// The phases of a tick, in the order in which they run. Each phase works
/// on what the phase before it left, and none starts before the one before
/// it is done.
#[derive(Clone, Copy, PartialEq, Eq, Structural, Debug)]
pub enum Phase {
    IndexPartition,
    StimulusGather,
    NeuralInference,
    Movement,
    InteractionDetection,
    FeedAndKill,
    BaseEnergy,
    Starvation,
    Reproduction,
    Hook,
}

impl Phase {
    /// The place of the phase in a tick, counted from zero.
    pub open spec fn rank(self) -> int {
        match self {
            Phase::IndexPartition => 0,
            Phase::StimulusGather => 1,
            Phase::NeuralInference => 2,
            Phase::Movement => 3,
            Phase::InteractionDetection => 4,
            Phase::FeedAndKill => 5,
            Phase::BaseEnergy => 6,
            Phase::Starvation => 7,
            Phase::Reproduction => 8,
            Phase::Hook => 9,
        }
    }
}

/// What a phase reports when what is handed to it does not belong to the
/// world as it stands.
#[derive(Clone, Copy, PartialEq, Eq, Structural, Debug)]
pub enum TickError {
    /// A list with one entry per agent, or per splitting agent, has
    /// `found` entries where `expected` were due.
    Misaligned { expected: usize, found: usize },
    /// `index` points past the end of a list of `len` entries.
    OutOfRange { index: usize, len: usize },
    /// The agent at `index` is not of the species that the list it was
    /// found in holds.
    WrongSpecies { index: usize },
    /// The energy handed in for the predator at `index` is not the one it
    /// had, though it fed on nothing.
    Unearned { index: usize },
    /// The results handed in do not hold exactly one entry of the right
    /// length for every agent.
    Malformed,
    /// Phase `asked` was asked for while phase `due` was due.
    OutOfTurn { asked: Phase, due: Phase },
}

} // verus!
