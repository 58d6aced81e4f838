//! The atomic state of one cell and the per-cell charge rule.

use vstd::prelude::*;

verus! {

/// Exclusive upper bound of a freshly drawn particle count.
pub const PARTICLE_BOUND: u32 = 118;

/// A number of protons.
#[derive(Clone, Copy, Debug, PartialEq, Eq, Structural)]
pub struct Protons {
    pub count: u32,
}

impl Protons {
    /// Any count is accepted: the range is the generator's business.
    pub fn new(count: u32) -> (r: Protons)
        ensures
            r.count == count,
    {
        Protons { count }
    }
}

/// A number of neutrons.
#[derive(Clone, Copy, Debug, PartialEq, Eq, Structural)]
pub struct Neutrons {
    pub count: u32,
}

impl Neutrons {
    /// Any count is accepted: the range is the generator's business.
    pub fn new(count: u32) -> (r: Neutrons)
        ensures
            r.count == count,
    {
        Neutrons { count }
    }
}

#[derive(Clone, Copy, Debug, PartialEq, Eq, Structural)]
pub struct Nucleus {
    pub protons: Protons,
    pub neutrons: Neutrons,
}

#[derive(Clone, Copy, Debug, PartialEq, Eq, Structural)]
pub struct Atom {
    pub electrons: u32,
    pub nucleus: Nucleus,
}

/// One cell of the grid: its identity, its coordinates, its atomic state and
/// the charge derived from that state.
#[derive(Clone, Copy, Debug, PartialEq, Eq, Structural)]
pub struct Block {
    pub id: u32,
    pub x: u32,
    pub y: u32,
    pub z: u32,
    pub charge: i32,
    pub atom: Atom,
}

/// The three kinds of particle that a cell counts.
#[derive(Clone, Copy, Debug, PartialEq, Eq, Structural)]
pub enum Particle {
    Neutron,
    Proton,
    Electron,
}

/// Sign of the net charge of `protons` against `electrons`.
pub open spec fn charge_rule(protons: int, electrons: int) -> int {
    if protons == electrons {
        0
    } else if protons > electrons {
        1
    } else {
        -1
    }
}

/// A count that the generator may produce.
pub open spec fn fresh_count(n: u32) -> bool {
    n < PARTICLE_BOUND
}

impl Block {
    pub open spec fn protons(self) -> u32 {
        self.atom.nucleus.protons.count
    }

    pub open spec fn neutrons(self) -> u32 {
        self.atom.nucleus.neutrons.count
    }

    pub open spec fn electrons(self) -> u32 {
        self.atom.electrons
    }

    pub open spec fn count_of(self, kind: Particle) -> u32 {
        match kind {
            Particle::Neutron => self.neutrons(),
            Particle::Proton => self.protons(),
            Particle::Electron => self.electrons(),
        }
    }

    /// The charge that the particle counts call for.
    pub open spec fn derived_charge(self) -> int {
        charge_rule(self.protons() as int, self.electrons() as int)
    }

    /// The charge field agrees with the particle counts.
    pub open spec fn charge_consistent(self) -> bool {
        self.charge == self.derived_charge()
    }

    /// This cell with its charge recomputed from its particle counts.
    pub open spec fn recharged(self) -> Block {
        Block { charge: self.derived_charge() as i32, ..self }
    }

    /// `self` is `before` with all three particle counts drawn anew; identity,
    /// coordinates and charge are kept.
    pub open spec fn resampled_from(self, before: Block) -> bool {
        &&& self.id == before.id
        &&& self.x == before.x
        &&& self.y == before.y
        &&& self.z == before.z
        &&& self.charge == before.charge
        &&& fresh_count(self.electrons())
        &&& fresh_count(self.protons())
        &&& fresh_count(self.neutrons())
    }

    /// The count of one kind of particle, widened for summing.
    pub fn particle_count(&self, kind: Particle) -> (r: u64)
        ensures
            r == self.count_of(kind),
    {
        match kind {
            Particle::Neutron => self.atom.nucleus.neutrons.count as u64,
            Particle::Proton => self.atom.nucleus.protons.count as u64,
            Particle::Electron => self.atom.electrons as u64,
        }
    }
}

/// Recomputing the charge of a cell whose particle counts did not change
/// leaves it as it was: the charge rule is idempotent.
pub proof fn lemma_recharge_idempotent(b: Block)
    ensures
        b.recharged().recharged() == b.recharged(),
        b.recharged().charge_consistent(),
{
}

/// The charge rule is total: for every pair of counts exactly one of its three
/// branches applies, and the charge is -1, 0 or 1.
pub proof fn lemma_charge_rule_total(protons: int, electrons: int)
    ensures
        (protons == electrons) as int + (protons > electrons) as int + (protons < electrons) as int
            == 1,
        protons == electrons ==> charge_rule(protons, electrons) == 0,
        protons > electrons ==> charge_rule(protons, electrons) == 1,
        protons < electrons ==> charge_rule(protons, electrons) == -1,
{
}

} // verus!
