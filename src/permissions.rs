use vstd::prelude::*;

verus! {

/// The set holding READ alone.
pub open spec fn spec_read() -> MemoryPermissions {
    MemoryPermissions { r: true, w: false, x: false }
}

/// The set holding WRITE alone.
pub open spec fn spec_write() -> MemoryPermissions {
    MemoryPermissions { r: false, w: true, x: false }
}

/// The set holding EXECUTE alone.
pub open spec fn spec_execute() -> MemoryPermissions {
    MemoryPermissions { r: false, w: false, x: true }
}

/// A set of access rights over guest memory, drawn from {READ, WRITE, EXECUTE}.
#[derive(Clone, Copy, Debug, PartialEq, Eq, Structural)]
pub struct MemoryPermissions {
    pub r: bool,
    pub w: bool,
    pub x: bool,
}

impl MemoryPermissions {
    /// Every right in `other` is also in `self`.
    pub open spec fn spec_contains(self, other: MemoryPermissions) -> bool {
        (other.r ==> self.r) && (other.w ==> self.w) && (other.x ==> self.x)
    }

    pub open spec fn spec_union(self, other: MemoryPermissions) -> MemoryPermissions {
        MemoryPermissions { r: self.r || other.r, w: self.w || other.w, x: self.x || other.x }
    }

    pub open spec fn spec_intersection(self, other: MemoryPermissions) -> MemoryPermissions {
        MemoryPermissions { r: self.r && other.r, w: self.w && other.w, x: self.x && other.x }
    }

    /// The empty set of rights.
    pub fn none() -> (p: MemoryPermissions)
        ensures
            !p.r && !p.w && !p.x,
    {
        MemoryPermissions { r: false, w: false, x: false }
    }

    /// Reading only.
    pub fn read() -> (p: MemoryPermissions)
        ensures
            p == spec_read(),
    {
        MemoryPermissions { r: true, w: false, x: false }
    }

    /// Writing only.
    pub fn write() -> (p: MemoryPermissions)
        ensures
            p == spec_write(),
    {
        MemoryPermissions { r: false, w: true, x: false }
    }

    /// Instruction fetch only.
    pub fn execute() -> (p: MemoryPermissions)
        ensures
            p == spec_execute(),
    {
        MemoryPermissions { r: false, w: false, x: true }
    }

    /// Every right.
    pub fn all() -> (p: MemoryPermissions)
        ensures
            p.r && p.w && p.x,
    {
        MemoryPermissions { r: true, w: true, x: true }
    }

    /// The rights held by either set.
    pub fn union(self, other: MemoryPermissions) -> (p: MemoryPermissions)
        ensures
            p == self.spec_union(other),
    {
        MemoryPermissions { r: self.r || other.r, w: self.w || other.w, x: self.x || other.x }
    }

    /// The rights held by both sets.
    pub fn intersection(self, other: MemoryPermissions) -> (p: MemoryPermissions)
        ensures
            p == self.spec_intersection(other),
    {
        MemoryPermissions { r: self.r && other.r, w: self.w && other.w, x: self.x && other.x }
    }

    /// Whether the two sets share at least one right.
    pub fn intersects(self, other: MemoryPermissions) -> (b: bool)
        ensures
            b == ((self.r && other.r) || (self.w && other.w) || (self.x && other.x)),
    {
        (self.r && other.r) || (self.w && other.w) || (self.x && other.x)
    }

    /// Whether every right of `other` is held by `self`.
    pub fn contains(self, other: MemoryPermissions) -> (b: bool)
        ensures
            b == self.spec_contains(other),
    {
        (!other.r || self.r) && (!other.w || self.w) && (!other.x || self.x)
    }
}

} // verus!
