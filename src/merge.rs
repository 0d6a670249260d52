use vstd::prelude::*;
use vstd::laws_eq::obeys_concrete_eq;
use vstd::std_specs::cmp::PartialEqSpec;
use crate::datapoint::DataPoint;
use crate::series::Series;
use crate::union::{combine_all, combine_ok, increasing, union_spec, Union, UnionResult};

verus! {

/// What a merge hands out from the pair `p` it holds back (if any) and the pairs `s`
/// still to be pulled: the first pair of each run of equal values, with the held-back
/// pair flushed at the end.
pub open spec fn merge_from<V>(p: Option<DataPoint<i64, V>>, s: Seq<DataPoint<i64, V>>) -> Seq<
    DataPoint<i64, V>,
>
    decreases s.len(),
{
    if s.len() == 0 {
        match p {
            Some(x) => seq![x],
            None => Seq::empty(),
        }
    } else {
        match p {
            None => merge_from(Some(s[0]), s.drop_first()),
            Some(x) => if x.data == s[0].data {
                merge_from(Some(if x.point < s[0].point { x } else { s[0] }), s.drop_first())
            } else {
                seq![x] + merge_from(Some(s[0]), s.drop_first())
            },
        }
    }
}

/// The merge of a whole series.
pub open spec fn merge_spec<V>(s: Seq<DataPoint<i64, V>>) -> Seq<DataPoint<i64, V>> {
    merge_from(None, s)
}

/// A series without the repeats of its source: a pair whose value equals the value of
/// the pair held back is absorbed into it.
#[verifier::reject_recursive_types(V)]
pub struct Merge<S, V> where S: Series<Item = DataPoint<i64, V>> {
    iterator: S,
    current: Option<DataPoint<i64, V>>,
    is_done: bool,
}

impl<S, V: Copy + PartialEq> Merge<S, V> where S: Series<Item = DataPoint<i64, V>> {
    pub fn new(iterator: S) -> (r: Self)
        requires
            iterator.wf(),
            obeys_concrete_eq::<V>(),
        ensures
            r.wf(),
            r.rest() == merge_spec(iterator.rest()),
    {
        Self { iterator, current: None, is_done: false }
    }

    /// This series without the repeats of consecutive equal values.
    pub fn merge(self) -> (r: Merge<Self, V>)
        requires
            self.wf(),
        ensures
            r.wf(),
            r.rest() == merge_spec(self.rest()),
    {
        Merge::new(self)
    }

    /// The union of this series (left) and `other` (right), combined by `f`.
    pub fn union<R, F, T, RV: Copy>(self, other: R, f: F) -> (r: Union<Self, R, F, V, RV>)
        where
            R: Series<Item = DataPoint<i64, RV>>,
            F: Fn(UnionResult<V, RV>) -> T,
        requires
            self.wf(),
            other.wf(),
            increasing(self.rest()),
            increasing(other.rest()),
            combine_ok(f),
        ensures
            r.wf(),
            r.rest() == combine_all(union_spec(self.rest(), other.rest()), f),
    {
        Union::new(self, other, f)
    }
}

impl<S, V: Copy + PartialEq> Series for Merge<S, V> where S: Series<Item = DataPoint<i64, V>> {
    type Item = DataPoint<i64, V>;

    closed spec fn rest(&self) -> Seq<DataPoint<i64, V>> {
        if self.is_done {
            Seq::empty()
        } else {
            merge_from(self.current, self.iterator.rest())
        }
    }

    closed spec fn wf(&self) -> bool {
        self.iterator.wf() && obeys_concrete_eq::<V>()
    }

    fn next(&mut self) -> (r: Option<DataPoint<i64, V>>) {
        proof {
            reveal(obeys_concrete_eq);
        }
        loop
            invariant
                self.wf(),
                self.rest() == old(self).rest(),
                forall|x: V, y: V| x.eq_spec(&y) <==> x == y,
                V::obeys_eq_spec(),
            decreases self.iterator.rest().len(),
        {
            if self.is_done {
                return None;
            }
            let ghost before = self.iterator.rest();
            let c = self.iterator.next();
            match self.current {
                None => match c {
                    None => {
                        return None;
                    },
                    Some(c) => {
                        self.current = Some(c);
                    },
                },
                Some(p) => match c {
                    None => {
                        self.is_done = true;
                        proof {
                            assert(self.rest() =~= old(self).rest().drop_first());
                        }
                        return Some(p);
                    },
                    Some(c) => {
                        if p.data == c.data {
                            self.current = Some(
                                if p.point < c.point {
                                    p
                                } else {
                                    c
                                },
                            );
                        } else {
                            self.current = Some(c);
                            proof {
                                assert(self.rest() =~= old(self).rest().drop_first());
                            }
                            return Some(p);
                        }
                    },
                },
            }
        }
    }
}

} // verus!
