//! An agent: a brain, where it is and where it looks, its species and its
//! energy.

use crate::brains::Brain;
use crate::scalar::{lemma_half_of_two_or_more, Scalar, TWO_BITS};
use crate::utils::{cap, capped};
use vstd::prelude::*;

verus! {

/// The species of an agent.
#[derive(Clone, Copy, PartialEq, Eq, Structural, Debug)]
pub enum BlobType {
    Prey,
    Predator,
}

/// One agent of the world.
#[derive(Debug)]
pub struct Blob {
    pub brain: Brain,
    pub position: (Scalar, Scalar),
    pub angle: Scalar,
    pub blob_type: BlobType,
    pub energy: Scalar,
}

/// The numbers of one reproduction, worked out from the parent before it
/// splits: the mutated brains of the two children, where each is put down,
/// and the parent's heading turned by a quarter.
#[derive(Debug)]
pub struct Birth {
    pub brains: (Brain, Brain),
    pub positions: ((Scalar, Scalar), (Scalar, Scalar)),
    pub turned: Scalar,
}

/// The species that an agent of species `kind` sees and reacts to.
pub open spec fn other_kind(kind: BlobType) -> BlobType {
    match kind {
        BlobType::Prey => BlobType::Predator,
        BlobType::Predator => BlobType::Prey,
    }
}

/// The first child of a split: put down behind the parent, looking a
/// quarter turn aside, with half the parent's energy.
pub open spec fn first_child(parent: Blob, birth: Birth) -> Blob {
    Blob {
        brain: birth.brains.0,
        position: birth.positions.0,
        angle: birth.turned,
        blob_type: parent.blob_type,
        energy: parent.energy.halved(),
    }
}

/// The second child of a split: put down ahead of the parent, keeping its
/// heading, with half the parent's energy.
pub open spec fn second_child(parent: Blob, birth: Birth) -> Blob {
    Blob {
        brain: birth.brains.1,
        position: birth.positions.1,
        angle: parent.angle,
        blob_type: parent.blob_type,
        energy: parent.energy.halved(),
    }
}

/// A split shares the parent's energy out in full: each child of a parent
/// with energy of two or more gets exactly half, the two halves add up to
/// the parent's energy, and neither child starts below zero.
pub proof fn lemma_split_shares_energy(parent: Blob, birth: Birth)
    requires
        parent.fertile(),
    ensures
        first_child(parent, birth).energy == parent.energy.halved(),
        second_child(parent, birth).energy == parent.energy.halved(),
        parent.energy.halved().doubled() == parent.energy,
        !first_child(parent, birth).starving(),
        !second_child(parent, birth).starving(),
        first_child(parent, birth).blob_type == parent.blob_type,
        second_child(parent, birth).blob_type == parent.blob_type,
{
    lemma_half_of_two_or_more(parent.energy);
}

impl Blob {
    /// Energy below zero: the agent is removed at the end of the tick.
    pub open spec fn starving(&self) -> bool {
        self.energy.negative()
    }

    /// Energy of two or more: the agent splits at the end of the tick.
    pub open spec fn fertile(&self) -> bool {
        (Scalar { bits: TWO_BITS }).at_most(self.energy)
    }

    pub fn new(
        brain: Brain,
        position: (Scalar, Scalar),
        angle: Scalar,
        blob_type: BlobType,
        init_energy: Scalar,
    ) -> (blob: Blob)
        ensures
            blob == (Blob { brain, position, angle, blob_type, energy: init_energy }),
    {
        Blob { brain, position, angle, blob_type, energy: init_energy }
    }

    pub fn is_starving(&self) -> (r: bool)
        ensures
            r == self.starving(),
    {
        self.energy.is_negative()
    }

    pub fn is_fertile(&self) -> (r: bool)
        ensures
            r == self.fertile(),
    {
        Scalar::two().le(&self.energy)
    }

    /// Splits the agent into its two children. Both are of the parent's
    /// species and each gets half the parent's energy. The first is put
    /// down behind the parent and looks a quarter turn aside; the second is
    /// put down ahead and keeps the parent's heading.
    pub fn reproduce(self, birth: Birth) -> (children: (Blob, Blob))
        ensures
            children.0 == first_child(self, birth),
            children.1 == second_child(self, birth),
    {
        let Birth { brains, positions, turned } = birth;
        let energy = self.energy.half();
        let child1 = Blob {
            brain: brains.0,
            position: positions.0,
            angle: turned,
            blob_type: self.blob_type,
            energy,
        };
        let child2 = Blob {
            brain: brains.1,
            position: positions.1,
            angle: self.angle,
            blob_type: self.blob_type,
            energy,
        };
        (child1, child2)
    }

    /// Moves the agent to `target`, each coordinate capped into the world,
    /// and leaves it with `energy`, the energy that the move has left it.
    /// The debit is made whether or not a coordinate was capped.
    pub fn step(&mut self, target: (Scalar, Scalar), shape: &(Scalar, Scalar), energy: Scalar)
        ensures
            final(self).position == (capped(target.0, shape.0), capped(target.1, shape.1)),
            final(self).energy == energy,
            final(self).brain == old(self).brain,
            final(self).angle == old(self).angle,
            final(self).blob_type == old(self).blob_type,
    {
        self.position = (cap(target.0, shape.0), cap(target.1, shape.1));
        self.energy = energy;
    }

    /// Takes the agent out of the simulation for good.
    pub fn die(self) {
    }
}

} // verus!
