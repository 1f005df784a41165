//! The role lattice and the vote weight each role carries.

use vstd::prelude::*;

verus! {

/// Totally ordered role lattice: `Contributor < Member < Admin < Owner`.
/// "Has permission R" means "the member's role is at least R".
#[derive(Clone, Copy, Debug, PartialEq, Eq, Structural)]
pub enum Role {
    Contributor,
    Member,
    Admin,
    Owner,
}

/// Position of a role in the lattice; higher rank dominates lower.
pub open spec fn spec_rank(r: Role) -> int {
    match r {
        Role::Contributor => 0,
        Role::Member => 1,
        Role::Admin => 2,
        Role::Owner => 3,
    }
}

/// Vote weight a role carries; non-members carry weight 0.
pub open spec fn spec_weight(r: Role) -> int {
    match r {
        Role::Contributor => 1,
        Role::Member => 2,
        Role::Admin => 5,
        Role::Owner => 10,
    }
}

/// `a` dominates `b` in the lattice.
pub open spec fn spec_role_ge(a: Role, b: Role) -> bool {
    spec_rank(a) >= spec_rank(b)
}

impl Role {
    /// Lattice position as a machine integer.
    pub fn rank(self) -> (n: u8)
        ensures
            n as int == spec_rank(self),
    {
        match self {
            Role::Contributor => 0,
            Role::Member => 1,
            Role::Admin => 2,
            Role::Owner => 3,
        }
    }

    /// Whether this role dominates `other`.
    pub fn dominates(self, other: Role) -> (b: bool)
        ensures
            b == spec_role_ge(self, other),
    {
        self.rank() >= other.rank()
    }

    /// The vote weight this role carries.
    pub fn vote_weight(self) -> (w: u64)
        ensures
            w as int == spec_weight(self),
            1 <= w <= 10,
    {
        match self {
            Role::Contributor => 1,
            Role::Member => 2,
            Role::Admin => 5,
            Role::Owner => 10,
        }
    }
}

/// Every weight lies between 1 and 10.
pub proof fn lemma_weight_bounds(r: Role)
    ensures
        1 <= spec_weight(r) <= 10,
{
}

/// Role dominance is transitive over the permission predicate: a role that
/// dominates a high requirement dominates every lower one.
pub proof fn lemma_role_dominance(r: Role, hi: Role, lo: Role)
    requires
        spec_role_ge(r, hi),
        spec_role_ge(hi, lo),
    ensures
        spec_role_ge(r, lo),
{
}

} // verus!
