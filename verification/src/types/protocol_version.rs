//! The protocol compatibility versions of a playlist.
use std::cmp::Ordering;
use vstd::prelude::*;

verus! {

/// A protocol compatibility version.
///
/// Versions are ordered by their rank, the number that a playlist writes in
/// its version declaration: `V1` has rank 1 and is the lowest, `V7` has rank 7
/// and is the highest.
#[derive(Debug, Clone, Copy, PartialEq, Eq, Structural, Ord, Hash)]
pub enum ProtocolVersion {
    V1,
    V2,
    V3,
    V4,
    V5,
    V6,
    V7,
}

impl ProtocolVersion {
    /// The rank of the version, from 1 to 7.
    pub open spec fn spec_rank(self) -> nat {
        match self {
            ProtocolVersion::V1 => 1,
            ProtocolVersion::V2 => 2,
            ProtocolVersion::V3 => 3,
            ProtocolVersion::V4 => 4,
            ProtocolVersion::V5 => 5,
            ProtocolVersion::V6 => 6,
            ProtocolVersion::V7 => 7,
        }
    }

    /// The version of the given rank, if there is one.
    pub open spec fn spec_from_rank(rank: nat) -> Option<ProtocolVersion> {
        if rank == 1 {
            Some(ProtocolVersion::V1)
        } else if rank == 2 {
            Some(ProtocolVersion::V2)
        } else if rank == 3 {
            Some(ProtocolVersion::V3)
        } else if rank == 4 {
            Some(ProtocolVersion::V4)
        } else if rank == 5 {
            Some(ProtocolVersion::V5)
        } else if rank == 6 {
            Some(ProtocolVersion::V6)
        } else if rank == 7 {
            Some(ProtocolVersion::V7)
        } else {
            None
        }
    }

    /// The higher of two versions, by rank.
    pub open spec fn spec_higher(self, other: ProtocolVersion) -> ProtocolVersion {
        if self.spec_rank() >= other.spec_rank() {
            self
        } else {
            other
        }
    }

    /// Whether `self` is at least `other`, by rank.
    pub open spec fn spec_at_least(self, other: ProtocolVersion) -> bool {
        self.spec_rank() >= other.spec_rank()
    }

    /// The lowest version there is.
    pub open spec fn spec_lowest() -> ProtocolVersion {
        ProtocolVersion::V1
    }

    /// Returns the rank of the version, from 1 to 7.
    pub fn rank(self) -> (r: u8)
        ensures
            r == self.spec_rank(),
            1 <= r <= 7,
    {
        match self {
            ProtocolVersion::V1 => 1,
            ProtocolVersion::V2 => 2,
            ProtocolVersion::V3 => 3,
            ProtocolVersion::V4 => 4,
            ProtocolVersion::V5 => 5,
            ProtocolVersion::V6 => 6,
            ProtocolVersion::V7 => 7,
        }
    }

    /// Returns the version of the given rank, or `None` where the rank is
    /// not one of 1 to 7.
    pub fn from_rank(rank: u64) -> (r: Option<ProtocolVersion>)
        ensures
            r == Self::spec_from_rank(rank as nat),
            r matches Some(v) ==> v.spec_rank() == rank,
    {
        if rank == 1 {
            Some(ProtocolVersion::V1)
        } else if rank == 2 {
            Some(ProtocolVersion::V2)
        } else if rank == 3 {
            Some(ProtocolVersion::V3)
        } else if rank == 4 {
            Some(ProtocolVersion::V4)
        } else if rank == 5 {
            Some(ProtocolVersion::V5)
        } else if rank == 6 {
            Some(ProtocolVersion::V6)
        } else if rank == 7 {
            Some(ProtocolVersion::V7)
        } else {
            None
        }
    }

    /// Returns the higher of two versions, by rank.
    #[verifier::when_used_as_spec(spec_higher)]
    pub fn higher(self, other: ProtocolVersion) -> (r: ProtocolVersion)
        ensures
            r == self.spec_higher(other),
    {
        if self.rank() >= other.rank() {
            self
        } else {
            other
        }
    }

    /// Returns whether `self` is at least `other`, by rank. The
    /// comparison operators say the same: `a >= b` is `a.at_least(b)`.
    #[verifier::when_used_as_spec(spec_at_least)]
    pub fn at_least(self, other: ProtocolVersion) -> (r: bool)
        ensures
            r == self.spec_at_least(other),
    {
        self >= other
    }

    /// Returns the lowest version there is.
    #[verifier::when_used_as_spec(spec_lowest)]
    pub fn lowest() -> (r: ProtocolVersion)
        ensures
            r == Self::spec_lowest(),
    {
        ProtocolVersion::V1
    }

    /// The rank names the version: `from_rank` undoes `rank`, and two
    /// versions of the same rank are the same version.
    pub proof fn lemma_rank_names_version(a: ProtocolVersion, b: ProtocolVersion)
        ensures
            Self::spec_from_rank(a.spec_rank()) == Some(a),
            a.spec_rank() == b.spec_rank() ==> a == b,
            1 <= a.spec_rank() <= 7,
            a.spec_at_least(Self::spec_lowest()),
    {
    }

    /// The order by rank is total: it is reflexive, antisymmetric and
    /// transitive, and any two versions are comparable.
    pub proof fn lemma_order_is_total(a: ProtocolVersion, b: ProtocolVersion, c: ProtocolVersion)
        ensures
            a.spec_at_least(a),
            a.spec_at_least(b) && b.spec_at_least(a) ==> a == b,
            a.spec_at_least(b) && b.spec_at_least(c) ==> a.spec_at_least(c),
            a.spec_at_least(b) || b.spec_at_least(a),
    {
    }
}

impl PartialOrd for ProtocolVersion {
    /// Compares two versions by their rank.
    fn partial_cmp(&self, other: &ProtocolVersion) -> (r: Option<Ordering>) {
        let a = self.rank();
        let b = other.rank();
        if a < b {
            Some(Ordering::Less)
        } else if a == b {
            Some(Ordering::Equal)
        } else {
            Some(Ordering::Greater)
        }
    }
}

impl vstd::std_specs::cmp::PartialOrdSpecImpl for ProtocolVersion {
    open spec fn obeys_partial_cmp_spec() -> bool {
        true
    }

    /// The order of two versions is the order of their ranks.
    open spec fn partial_cmp_spec(&self, other: &ProtocolVersion) -> Option<Ordering> {
        if self.spec_rank() < other.spec_rank() {
            Some(Ordering::Less)
        } else if self.spec_rank() == other.spec_rank() {
            Some(Ordering::Equal)
        } else {
            Some(Ordering::Greater)
        }
    }
}

} // verus!
