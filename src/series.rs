use vstd::prelude::*;
use vstd::laws_eq::obeys_concrete_eq;
use crate::datapoint::DataPoint;
use crate::merge::{merge_spec, Merge};
use crate::union::{combine_all, combine_ok, increasing, union_spec, Union, UnionResult};

verus! {

/// A lazily pulled sequence of items; `rest` is what is still to come.
pub trait Series: Sized {
    type Item;

    spec fn rest(&self) -> Seq<Self::Item>;

    spec fn wf(&self) -> bool;

    fn next(&mut self) -> (r: Option<Self::Item>)
        requires
            old(self).wf(),
        ensures
            final(self).wf(),
            match r {
                None => old(self).rest().len() == 0 && final(self).rest() == old(self).rest(),
                Some(x) => old(self).rest().len() > 0 && x == old(self).rest()[0]
                    && final(self).rest() == old(self).rest().drop_first(),
            },
    ;

    /// Pulls every remaining item, in order.
    fn to_vec(self) -> (r: Vec<Self::Item>)
        requires
            self.wf(),
        ensures
            r@ == self.rest(),
    {
        let mut s = self;
        let mut v: Vec<Self::Item> = Vec::new();
        loop
            invariant
                s.wf(),
                v@ + s.rest() == self.rest(),
            ensures
                v@ == self.rest(),
            decreases s.rest().len(),
        {
            let ghost before = s.rest();
            match s.next() {
                Some(x) => {
                    v.push(x);
                    proof {
                        assert(before =~= seq![x] + s.rest());
                    }
                },
                None => {
                    proof {
                        assert(v@ =~= self.rest());
                    }
                    break;
                },
            }
        }
        v
    }
}

/// A series that hands out the items of a vector in order.
pub struct FromIteratorSeries<T> {
    items: Vec<T>,
    index: usize,
}

impl<T: Copy> Series for FromIteratorSeries<T> {
    type Item = T;

    closed spec fn rest(&self) -> Seq<T> {
        self.items@.subrange(self.index as int, self.items@.len() as int)
    }

    closed spec fn wf(&self) -> bool {
        self.index <= self.items@.len()
    }

    fn next(&mut self) -> (r: Option<T>) {
        if self.index < self.items.len() {
            let x = self.items[self.index];
            self.index = self.index + 1;
            assert(self.rest() =~= old(self).rest().drop_first());
            Some(x)
        } else {
            None
        }
    }
}

impl<V: Copy> FromIteratorSeries<DataPoint<i64, V>> {
    /// This series without the repeats of consecutive equal values.
    pub fn merge(self) -> (r: Merge<Self, V>)
        where V: PartialEq
        requires
            self.wf(),
            obeys_concrete_eq::<V>(),
        ensures
            r.wf(),
            r.rest() == merge_spec(self.rest()),
    {
        Merge::new(self)
    }

    /// The union of this series (left) and `other` (right), combined by `f`.
    pub fn union<R, F, T, RV: Copy>(self, other: R, f: F) -> (r: Union<Self, R, F, V, RV>)
        where
            R: Series<Item = DataPoint<i64, RV>>,
            F: Fn(UnionResult<V, RV>) -> T,
        requires
            self.wf(),
            other.wf(),
            increasing(self.rest()),
            increasing(other.rest()),
            combine_ok(f),
        ensures
            r.wf(),
            r.rest() == combine_all(union_spec(self.rest(), other.rest()), f),
    {
        Union::new(self, other, f)
    }
}

/// Adapts the items of a vector into a series, without buffering.
pub fn of_iter<T: Copy>(items: Vec<T>) -> (r: FromIteratorSeries<T>)
    ensures
        r.wf(),
        r.rest() == items@,
{
    let r = FromIteratorSeries { items, index: 0 };
    assert(r.rest() =~= items@);
    r
}

} // verus!
