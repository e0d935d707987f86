use vstd::prelude::*;

verus! {

/// A logical timestamp of the database. Revision `0` stands for "before any
/// revision"; the first real revision is `1`.
#[derive(Clone, Copy, Debug, PartialEq, Eq, Structural)]
pub struct Revision {
    pub number: u32,
}

impl Revision {
    /// The revision before any revision.
    pub fn start() -> (r: Revision)
        ensures
            r.number == 0,
    {
        Revision { number: 0 }
    }

    /// The first revision of a fresh database.
    pub fn first() -> (r: Revision)
        ensures
            r.number == 1,
    {
        Revision { number: 1 }
    }

    /// The revision that follows this one.
    pub fn next(self) -> (r: Revision)
        requires
            self.number < u32::MAX,
        ensures
            r.number == self.number + 1,
    {
        Revision { number: self.number + 1 }
    }

    /// Is this revision strictly later than `other`?
    pub fn is_after(self, other: Revision) -> (r: bool)
        ensures
            r == (self.number > other.number),
    {
        self.number > other.number
    }

    /// The later of two revisions.
    pub fn max(self, other: Revision) -> (r: Revision)
        ensures
            r.number == if self.number >= other.number { self.number } else { other.number },
    {
        if self.number >= other.number { self } else { other }
    }
}

} // verus!
