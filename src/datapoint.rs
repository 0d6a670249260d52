use vstd::prelude::*;

verus! {

/// One change point of a step function: `data` holds from `point` until the next pair.
#[derive(Debug, Clone, Copy, PartialEq, Eq)]
pub struct DataPoint<P, T> {
    pub point: P,
    pub data: T,
}

impl<P, T> DataPoint<P, T> {
    pub fn new(point: P, data: T) -> (r: Self)
        ensures
            r.point == point,
            r.data == data,
    {
        Self { point, data }
    }

    pub fn point(&self) -> (r: &P)
        ensures
            *r == self.point,
    {
        &self.point
    }

    pub fn data(&self) -> (r: &T)
        ensures
            *r == self.data,
    {
        &self.data
    }
}

} // verus!
