use vstd::prelude::*;

verus! {

/// A value tagged with the version that wrote it; ordered by version, then by value.
#[derive(Debug, Clone, Copy, PartialEq, Eq, PartialOrd, Ord, Structural)]
pub struct VersionedValue<V, T> {
    pub version: V,
    pub value: T,
}

impl<V, T> VersionedValue<V, T> {
    pub fn new(version: V, value: T) -> (r: Self)
        ensures
            r.version == version,
            r.value == value,
    {
        Self { version, value }
    }

    pub fn version(&self) -> (r: &V)
        ensures
            *r == self.version,
    {
        &self.version
    }

    pub fn value(&self) -> (r: &T)
        ensures
            *r == self.value,
    {
        &self.value
    }
}

} // verus!
