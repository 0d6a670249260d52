use vstd::prelude::*;
use crate::cursor::{less_end, lemma_pulled, Cursor, CursorIterator};
use crate::datapoint::DataPoint;
use crate::series::Series;
use crate::merge::{merge_spec, Merge};
use vstd::laws_eq::obeys_concrete_eq;

verus! {

/// What the combine function of a union sees at one output position.
#[derive(Debug, Clone, Copy, PartialEq, Eq)]
pub enum UnionResult<L, R> {
    /// Only the left series has started.
    LeftOnly(L),
    /// Only the right series has started.
    RightOnly(R),
    /// Both series are in effect.
    Both { left: L, right: R },
}

/// Positions strictly increase along `s`.
pub open spec fn increasing<V>(s: Seq<DataPoint<i64, V>>) -> bool {
    forall|i: int, j: int| 0 <= i < j < s.len() ==> s[i].point < s[j].point
}

/// The tag at a position where the left side changes to `x`, the right side holding `r`.
pub open spec fn left_change<L, R>(x: L, r: Option<R>) -> UnionResult<L, R> {
    match r {
        Some(y) => UnionResult::Both { left: x, right: y },
        None => UnionResult::LeftOnly(x),
    }
}

/// The tag at a position where the right side changes to `y`, the left side holding `l`.
pub open spec fn right_change<L, R>(l: Option<L>, y: R) -> UnionResult<L, R> {
    match l {
        Some(x) => UnionResult::Both { left: x, right: y },
        None => UnionResult::RightOnly(y),
    }
}

/// The union of what is left of `a` and `b`, where `la` and `lb` are the values each
/// side currently holds (`None` while a side has not started): one output pair at every
/// position where either side changes, in increasing order.
pub open spec fn union_from<L, R>(
    a: Seq<DataPoint<i64, L>>,
    b: Seq<DataPoint<i64, R>>,
    la: Option<L>,
    lb: Option<R>,
) -> Seq<DataPoint<i64, UnionResult<L, R>>>
    decreases a.len() + b.len(),
{
    if a.len() == 0 && b.len() == 0 {
        Seq::empty()
    } else if b.len() == 0 || (a.len() > 0 && a[0].point < b[0].point) {
        seq![DataPoint { point: a[0].point, data: left_change(a[0].data, lb) }]
            + union_from(a.drop_first(), b, Some(a[0].data), lb)
    } else if a.len() == 0 || b[0].point < a[0].point {
        seq![DataPoint { point: b[0].point, data: right_change(la, b[0].data) }]
            + union_from(a, b.drop_first(), la, Some(b[0].data))
    } else {
        seq![DataPoint { point: a[0].point, data: UnionResult::Both { left: a[0].data, right: b[0].data } }]
            + union_from(a.drop_first(), b.drop_first(), Some(a[0].data), Some(b[0].data))
    }
}

/// The tagged union of two whole series.
pub open spec fn union_spec<L, R>(a: Seq<DataPoint<i64, L>>, b: Seq<DataPoint<i64, R>>) -> Seq<
    DataPoint<i64, UnionResult<L, R>>,
> {
    union_from(a, b, None, None)
}

/// The value that `f` gives for `x`.
pub open spec fn combined<X, T, F: Fn(X) -> T>(f: F, x: X) -> T {
    choose|t: T| f.ensures((x,), t)
}

/// `f` accepts every argument and gives one result for each.
pub open spec fn combine_ok<X, T, F: Fn(X) -> T>(f: F) -> bool {
    &&& forall|x: X| f.requires((x,))
    &&& forall|x: X, t: T, u: T|
        #[trigger] f.ensures((x,), t) && #[trigger] f.ensures((x,), u) ==> t == u
}

/// `s` with `f` applied to every value.
pub open spec fn combine_all<X, T, F: Fn(X) -> T>(s: Seq<DataPoint<i64, X>>, f: F) -> Seq<
    DataPoint<i64, T>,
> {
    s.map_values(|d: DataPoint<i64, X>| DataPoint { point: d.point, data: combined(f, d.data) })
}

proof fn lemma_left_step<L, R>(
    a: Seq<DataPoint<i64, L>>,
    b: Seq<DataPoint<i64, R>>,
    la: Option<L>,
    lb: Option<R>,
)
    requires
        a.len() > 0,
        b.len() == 0 || a[0].point < b[0].point,
    ensures
        union_from(a, b, la, lb).len() > 0,
        union_from(a, b, la, lb)[0] == (DataPoint { point: a[0].point, data: left_change(a[0].data, lb) }),
        union_from(a, b, la, lb).drop_first() == union_from(a.drop_first(), b, Some(a[0].data), lb),
{
    assert(union_from(a, b, la, lb).drop_first() =~= union_from(a.drop_first(), b, Some(a[0].data), lb));
}

proof fn lemma_right_step<L, R>(
    a: Seq<DataPoint<i64, L>>,
    b: Seq<DataPoint<i64, R>>,
    la: Option<L>,
    lb: Option<R>,
)
    requires
        b.len() > 0,
        a.len() == 0 || b[0].point < a[0].point,
    ensures
        union_from(a, b, la, lb).len() > 0,
        union_from(a, b, la, lb)[0] == (DataPoint { point: b[0].point, data: right_change(la, b[0].data) }),
        union_from(a, b, la, lb).drop_first() == union_from(a, b.drop_first(), la, Some(b[0].data)),
{
    assert(union_from(a, b, la, lb).drop_first() =~= union_from(a, b.drop_first(), la, Some(b[0].data)));
}

proof fn lemma_both_step<L, R>(
    a: Seq<DataPoint<i64, L>>,
    b: Seq<DataPoint<i64, R>>,
    la: Option<L>,
    lb: Option<R>,
)
    requires
        a.len() > 0,
        b.len() > 0,
        a[0].point == b[0].point,
    ensures
        union_from(a, b, la, lb).len() > 0,
        union_from(a, b, la, lb)[0] == (DataPoint {
            point: a[0].point,
            data: UnionResult::Both { left: a[0].data, right: b[0].data },
        }),
        union_from(a, b, la, lb).drop_first() == union_from(
            a.drop_first(),
            b.drop_first(),
            Some(a[0].data),
            Some(b[0].data),
        ),
{
    assert(union_from(a, b, la, lb).drop_first() =~= union_from(
        a.drop_first(),
        b.drop_first(),
        Some(a[0].data),
        Some(b[0].data),
    ));
}

/// The relation between the current windows of the two sides.
#[derive(Clone, Copy)]
enum UnionState<L, R> {
    /// Nothing pulled yet, or nothing left.
    Idle,
    /// The right side is empty.
    LeftOnly(Cursor<L>),
    /// The left side is empty.
    RightOnly(Cursor<R>),
    /// The side with the smaller start has started; the other has not.
    Disjointed { left: Cursor<L>, right: Cursor<R> },
    /// Both windows are in effect at the larger of their starts.
    Overlapped { left: Cursor<L>, right: Cursor<R> },
}

/// `w` is the current window of a cursor that still has `p` to show.
pub open spec fn window_ok<V>(w: Cursor<DataPoint<i64, V>>, p: Seq<DataPoint<i64, V>>) -> bool {
    match w {
        Cursor::Single(_) => p.len() == 0,
        Cursor::Pair { fst, snd } => p.len() > 0 && p[0] == snd && fst.point < snd.point,
    }
}

/// The union of two series, combining the values in effect at each breakpoint with `f`.
#[verifier::reject_recursive_types(LV)]
#[verifier::reject_recursive_types(RV)]
pub struct Union<L, R, F, LV, RV> where
    L: Series<Item = DataPoint<i64, LV>>,
    R: Series<Item = DataPoint<i64, RV>>,
 {
    left: CursorIterator<L>,
    right: CursorIterator<R>,
    f: F,
    state: UnionState<DataPoint<i64, LV>, DataPoint<i64, RV>>,
}

impl<L, R, F, LV: Copy, RV: Copy, T> Union<L, R, F, LV, RV> where
    L: Series<Item = DataPoint<i64, LV>>,
    R: Series<Item = DataPoint<i64, RV>>,
    F: Fn(UnionResult<LV, RV>) -> T,
 {
    /// The tagged pairs that are still to come.
    pub closed spec fn tagged_rest(&self) -> Seq<DataPoint<i64, UnionResult<LV, RV>>> {
        let lp = self.left.pending();
        let rp = self.right.pending();
        match self.state {
            UnionState::Idle => union_from(lp, rp, None, None),
            UnionState::LeftOnly(l) => union_from(lp, rp, Some(l.head().data), None),
            UnionState::RightOnly(r) => union_from(lp, rp, None, Some(r.head().data)),
            UnionState::Disjointed { left: l, right: r } => if l.head().point < r.head().point {
                union_from(lp, seq![r.head()] + rp, Some(l.head().data), None)
            } else {
                union_from(seq![l.head()] + lp, rp, None, Some(r.head().data))
            },
            UnionState::Overlapped { left: l, right: r } => union_from(
                lp,
                rp,
                Some(l.head().data),
                Some(r.head().data),
            ),
        }
    }

    /// The combine function.
    pub closed spec fn combiner(&self) -> F {
        self.f
    }

    spec fn state_ok(&self) -> bool {
        let lp = self.left.pending();
        let rp = self.right.pending();
        match self.state {
            UnionState::Idle => true,
            UnionState::LeftOnly(l) => window_ok(l, lp) && rp.len() == 0,
            UnionState::RightOnly(r) => window_ok(r, rp) && lp.len() == 0,
            UnionState::Disjointed { left: l, right: r } => window_ok(l, lp) && window_ok(r, rp)
                && l.head().point != r.head().point,
            UnionState::Overlapped { left: l, right: r } => window_ok(l, lp) && window_ok(r, rp)
                && l.positions().intersects(r.positions()),
        }
    }

    /// The pair that the current state stands for, before `f` is applied.
    spec fn emitted(&self) -> Option<DataPoint<i64, UnionResult<LV, RV>>> {
        match self.state {
            UnionState::Idle => None,
            UnionState::LeftOnly(l) => Some(
                DataPoint { point: l.head().point, data: UnionResult::LeftOnly(l.head().data) },
            ),
            UnionState::RightOnly(r) => Some(
                DataPoint { point: r.head().point, data: UnionResult::RightOnly(r.head().data) },
            ),
            UnionState::Disjointed { left: l, right: r } => if l.head().point < r.head().point {
                Some(DataPoint { point: l.head().point, data: UnionResult::LeftOnly(l.head().data) })
            } else {
                Some(
                    DataPoint {
                        point: r.head().point,
                        data: UnionResult::RightOnly(r.head().data),
                    },
                )
            },
            UnionState::Overlapped { left: l, right: r } => Some(
                DataPoint {
                    point: if l.head().point < r.head().point {
                        r.head().point
                    } else {
                        l.head().point
                    },
                    data: UnionResult::Both { left: l.head().data, right: r.head().data },
                },
            ),
        }
    }

    spec fn inv(&self) -> bool {
        &&& self.left.wf()
        &&& self.right.wf()
        &&& increasing(self.left.pending())
        &&& increasing(self.right.pending())
        &&& combine_ok(self.f)
        &&& self.state_ok()
    }

    /// Starts the union of `left` and `right`; nothing is pulled yet.
    pub fn new(left: L, right: R, f: F) -> (r: Self)
        requires
            left.wf(),
            right.wf(),
            increasing(left.rest()),
            increasing(right.rest()),
            combine_ok(f),
        ensures
            r.wf(),
            r.tagged_rest() == union_spec(left.rest(), right.rest()),
            r.rest() == combine_all(union_spec(left.rest(), right.rest()), f),
            r.combiner() == f,
    {
        let r = Self {
            left: CursorIterator::new(left),
            right: CursorIterator::new(right),
            f,
            state: UnionState::Idle,
        };
        r
    }

    /// This series without the repeats of consecutive equal values.
    pub fn merge(self) -> (r: Merge<Self, T>)
        where T: Copy + PartialEq
        requires
            self.wf(),
            obeys_concrete_eq::<T>(),
        ensures
            r.wf(),
            r.rest() == merge_spec(self.rest()),
    {
        Merge::new(self)
    }

    /// The union of this series (left) and `other` (right), combined by `g`.
    pub fn union<R2, G, U, RV2: Copy>(self, other: R2, g: G) -> (r: Union<Self, R2, G, T, RV2>)
        where
            T: Copy,
            R2: Series<Item = DataPoint<i64, RV2>>,
            G: Fn(UnionResult<T, RV2>) -> U,
        requires
            self.wf(),
            other.wf(),
            increasing(self.rest()),
            increasing(other.rest()),
            combine_ok(g),
        ensures
            r.wf(),
            r.rest() == combine_all(union_spec(self.rest(), other.rest()), g),
    {
        Union::new(self, other, g)
    }

    fn classify(
        left: Cursor<DataPoint<i64, LV>>,
        right: Cursor<DataPoint<i64, RV>>,
    ) -> (r: UnionState<DataPoint<i64, LV>, DataPoint<i64, RV>>)
        ensures
            left.head().point == right.head().point ==> r == (UnionState::Overlapped { left, right }),
            left.head().point != right.head().point ==> r == (UnionState::Disjointed { left, right }),
    {
        if left.fst().point == right.fst().point {
            UnionState::Overlapped { left, right }
        } else {
            UnionState::Disjointed { left, right }
        }
    }

    /// Moves to the state of the next output pair.
    fn advance(&mut self)
        requires
            old(self).inv(),
        ensures
            final(self).inv(),
            final(self).f == old(self).f,
            old(self).tagged_rest().len() == 0 ==> final(self).emitted() is None
                && final(self).tagged_rest() == old(self).tagged_rest(),
            old(self).tagged_rest().len() > 0 ==> final(self).emitted() == Some(
                old(self).tagged_rest()[0],
            ) && final(self).tagged_rest() == old(self).tagged_rest().drop_first(),
    {
        let ghost l0 = self.left;
        let ghost r0 = self.right;
        let ghost lp = self.left.pending();
        let ghost rp = self.right.pending();
        let st = self.state;
        let next_state = match st {
            UnionState::Idle => {
                let l = self.left.next();
                let r = self.right.next();
                proof {
                    if lp.len() > 0 {
                        lemma_pulled(l0, self.left);
                    } else {
                        assert(self.left.pending() =~= lp);
                    }
                    if rp.len() > 0 {
                        lemma_pulled(r0, self.right);
                    } else {
                        assert(self.right.pending() =~= rp);
                    }
                }
                match l {
                    Some(left) => match r {
                        Some(right) => {
                            proof {
                                if left.head().point == right.head().point {
                                    lemma_both_step(lp, rp, None::<LV>, None::<RV>);
                                } else if left.head().point < right.head().point {
                                    lemma_left_step(lp, rp, None::<LV>, None::<RV>);
                                    assert(rp =~= seq![rp[0]] + rp.drop_first());
                                } else {
                                    lemma_right_step(lp, rp, None::<LV>, None::<RV>);
                                    assert(lp =~= seq![lp[0]] + lp.drop_first());
                                }
                            }
                            Self::classify(left, right)
                        },
                        None => {
                            proof {
                                lemma_left_step(lp, rp, None::<LV>, None::<RV>);
                            }
                            UnionState::LeftOnly(left)
                        },
                    },
                    None => match r {
                        Some(right) => {
                            proof {
                                lemma_right_step(lp, rp, None::<LV>, None::<RV>);
                            }
                            UnionState::RightOnly(right)
                        },
                        None => UnionState::Idle,
                    },
                }
            },
            UnionState::LeftOnly(prev) => match self.left.next() {
                Some(left) => {
                    proof {
                        lemma_pulled(l0, self.left);
                        lemma_left_step(lp, rp, Some(prev.head().data), None::<RV>);
                    }
                    UnionState::LeftOnly(left)
                },
                None => UnionState::Idle,
            },
            UnionState::RightOnly(prev) => match self.right.next() {
                Some(right) => {
                    proof {
                        lemma_pulled(r0, self.right);
                        lemma_right_step(lp, rp, None::<LV>, Some(prev.head().data));
                    }
                    UnionState::RightOnly(right)
                },
                None => UnionState::Idle,
            },
            UnionState::Disjointed { left, right } => {
                if left.map().can_overlap(&right.map()) {
                    proof {
                        if left.head().point < right.head().point {
                            lemma_right_step(lp, seq![right.head()] + rp, Some(left.head().data), None::<RV>);
                            assert((seq![right.head()] + rp).drop_first() =~= rp);
                        } else {
                            lemma_left_step(seq![left.head()] + lp, rp, None::<LV>, Some(right.head().data));
                            assert((seq![left.head()] + lp).drop_first() =~= lp);
                        }
                    }
                    UnionState::Overlapped { left, right }
                } else if less_end(&left.map().snd(), &right.map().snd()) {
                    match self.left.next() {
                        Some(l) => {
                            proof {
                                lemma_pulled(l0, self.left);
                                assert(left.head().point < right.head().point);
                                assert(l.head().point <= right.head().point);
                                let b = seq![right.head()] + rp;
                                if l.head().point == right.head().point {
                                    lemma_both_step(lp, b, Some(left.head().data), None::<RV>);
                                    assert(b.drop_first() =~= rp);
                                } else {
                                    lemma_left_step(lp, b, Some(left.head().data), None::<RV>);
                                }
                            }
                            Self::classify(l, right)
                        },
                        None => UnionState::Idle,
                    }
                } else {
                    match self.right.next() {
                        Some(r) => {
                            proof {
                                lemma_pulled(r0, self.right);
                                assert(right.head().point < left.head().point);
                                assert(r.head().point <= left.head().point);
                                let a = seq![left.head()] + lp;
                                if r.head().point == left.head().point {
                                    lemma_both_step(a, rp, None::<LV>, Some(right.head().data));
                                    assert(a.drop_first() =~= lp);
                                } else {
                                    lemma_right_step(a, rp, None::<LV>, Some(right.head().data));
                                }
                            }
                            Self::classify(left, r)
                        },
                        None => UnionState::Idle,
                    }
                }
            },
            UnionState::Overlapped { left, right } => {
                let le = left.map().snd();
                let re = right.map().snd();
                if less_end(&le, &re) {
                    match self.left.next() {
                        Some(l) => {
                            proof {
                                lemma_pulled(l0, self.left);
                                lemma_left_step(lp, rp, Some(left.head().data), Some(right.head().data));
                            }
                            UnionState::Overlapped { left: l, right }
                        },
                        None => UnionState::Idle,
                    }
                } else if less_end(&re, &le) {
                    match self.right.next() {
                        Some(r) => {
                            proof {
                                lemma_pulled(r0, self.right);
                                lemma_right_step(lp, rp, Some(left.head().data), Some(right.head().data));
                            }
                            UnionState::Overlapped { left, right: r }
                        },
                        None => UnionState::Idle,
                    }
                } else {
                    match self.left.next() {
                        Some(l) => {
                            let ghost r1 = self.right;
                            match self.right.next() {
                                Some(r) => {
                                    proof {
                                        lemma_pulled(l0, self.left);
                                        lemma_pulled(r1, self.right);
                                        lemma_both_step(lp, rp, Some(left.head().data), Some(right.head().data));
                                    }
                                    UnionState::Overlapped { left: l, right: r }
                                },
                                None => UnionState::Idle,
                            }
                        },
                        None => UnionState::Idle,
                    }
                }
            },
        };
        self.state = next_state;
    }

    /// The output pair of the current state, with `f` applied.
    fn emit(&self) -> (r: Option<DataPoint<i64, T>>)
        requires
            self.inv(),
        ensures
            self.emitted() is None ==> r is None,
            self.emitted() is Some ==> r is Some && r->0.point == self.emitted()->0.point
                && self.f.ensures((self.emitted()->0.data,), r->0.data),
    {
        match self.state {
            UnionState::Idle => None,
            UnionState::LeftOnly(left) => {
                let left = *left.fst();
                Some(DataPoint::new(left.point, (self.f)(UnionResult::LeftOnly(left.data))))
            },
            UnionState::RightOnly(right) => {
                let right = *right.fst();
                Some(DataPoint::new(right.point, (self.f)(UnionResult::RightOnly(right.data))))
            },
            UnionState::Disjointed { left, right } => {
                let left = *left.fst();
                let right = *right.fst();
                if left.point < right.point {
                    Some(DataPoint::new(left.point, (self.f)(UnionResult::LeftOnly(left.data))))
                } else {
                    Some(DataPoint::new(right.point, (self.f)(UnionResult::RightOnly(right.data))))
                }
            },
            UnionState::Overlapped { left, right } => {
                let left = *left.fst();
                let right = *right.fst();
                let point = if left.point < right.point {
                    right.point
                } else {
                    left.point
                };
                Some(
                    DataPoint::new(
                        point,
                        (self.f)(UnionResult::Both { left: left.data, right: right.data }),
                    ),
                )
            },
        }
    }
}

impl<L, R, F, LV: Copy, RV: Copy, T> Series for Union<L, R, F, LV, RV> where
    L: Series<Item = DataPoint<i64, LV>>,
    R: Series<Item = DataPoint<i64, RV>>,
    F: Fn(UnionResult<LV, RV>) -> T,
 {
    type Item = DataPoint<i64, T>;

    open spec fn rest(&self) -> Seq<DataPoint<i64, T>> {
        combine_all(self.tagged_rest(), self.combiner())
    }

    closed spec fn wf(&self) -> bool {
        self.inv()
    }

    fn next(&mut self) -> (r: Option<DataPoint<i64, T>>) {
        self.advance();
        let r = self.emit();
        proof {
            let old_t = old(self).tagged_rest();
            if old_t.len() > 0 {
                let d = old_t[0];
                let t = r->0.data;
                assert(self.f.ensures((d.data,), t));
                assert(combined(self.f, d.data) == t);
                assert(combine_all(self.tagged_rest(), self.f) =~= combine_all(old_t, self.f).drop_first());
            }
        }
        r
    }
}

} // verus!
