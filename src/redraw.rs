//! What the renderer must repaint after one processing cycle.
use vstd::prelude::*;
use crate::entry::EntryIdentifier;

verus! {

/// A repaint request. Directives are ordered by how much they repaint:
/// `Nothing` below a single peak meter, below the help screen, below `Full`.
#[derive(Clone, Copy, Debug, PartialEq, Eq, Hash, Structural)]
pub enum RedrawType {
    Nothing,
    PeakVolume(EntryIdentifier),
    Help,
    Full,
}

impl RedrawType {
    pub open spec fn rank(self) -> int {
        match self {
            RedrawType::Nothing => 0,
            RedrawType::PeakVolume(_) => 1,
            RedrawType::Help => 2,
            RedrawType::Full => 3,
        }
    }

    /// `self` is subsumed by `other`: repainting `other` also repaints `self`.
    pub open spec fn le(self, other: RedrawType) -> bool {
        self == other || self.rank() < other.rank()
    }

    /// The merge of two directives: the larger one; two meter updates of
    /// different entries, which neither subsumes, become a full repaint.
    pub open spec fn merge(self, other: RedrawType) -> RedrawType {
        if other.le(self) {
            self
        } else if self.le(other) {
            other
        } else {
            RedrawType::Full
        }
    }

    pub fn rank_of(&self) -> (r: u8)
        ensures
            r as int == self.rank(),
    {
        match self {
            RedrawType::Nothing => 0,
            RedrawType::PeakVolume(_) => 1,
            RedrawType::Help => 2,
            RedrawType::Full => 3,
        }
    }

    /// Keeps the larger of the pending directive and `other`.
    pub fn take_bigger(&mut self, other: RedrawType)
        ensures
            *final(self) == old(self).merge(other),
    {
        let a = self.rank_of();
        let b = other.rank_of();
        if *self == other || b < a {
        } else if a < b {
            *self = other;
        } else {
            *self = RedrawType::Full;
        }
    }

    /// Merges this directive into the pending one `into`.
    pub fn apply(self, into: &mut RedrawType)
        ensures
            *final(into) == old(into).merge(self),
    {
        into.take_bigger(self);
    }

    pub fn is_none(&self) -> (r: bool)
        ensures
            r == (*self is Nothing),
    {
        matches!(self, RedrawType::Nothing)
    }
}

/// Merging keeps the greater of two comparable directives, yields an upper
/// bound of both in every case, and `Nothing` is its identity on either side.
pub proof fn lemma_merge_monotone(a: RedrawType, b: RedrawType)
    ensures
        a.le(b) ==> a.merge(b) == b,
        b.le(a) ==> a.merge(b) == a,
        a.le(a.merge(b)),
        b.le(a.merge(b)),
        RedrawType::Nothing.merge(b) == b,
        a.merge(RedrawType::Nothing) == a,
{
}

} // verus!
