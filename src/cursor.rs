use vstd::prelude::*;
use crate::series::Series;

verus! {

/// A window onto a series: the current item, and the item after it if there is one.
#[derive(Debug, Clone, Copy, PartialEq, Eq)]
pub enum Cursor<T> {
    /// The current item is the last one: its interval is open-ended.
    Single(T),
    /// The current item's interval ends where `snd` begins.
    Pair { fst: T, snd: T },
}

/// The end of an interval: a position, or no end at all.
#[derive(Debug, Clone, Copy, PartialEq, Eq, PartialOrd, Ord)]
pub enum Value<T> {
    Value(T),
    Infinite,
}

pub open spec fn end_lt(a: Value<i64>, b: Value<i64>) -> bool {
    match a {
        Value::Value(x) => match b {
            Value::Value(y) => x < y,
            Value::Infinite => true,
        },
        Value::Infinite => false,
    }
}

/// Is position `x` before the end `e`?
pub open spec fn before_end(x: i64, e: Value<i64>) -> bool {
    end_lt(Value::Value(x), e)
}

/// Strict order on interval ends, with `Infinite` above every position.
pub fn less_end(a: &Value<i64>, b: &Value<i64>) -> (r: bool)
    ensures
        r == end_lt(*a, *b),
{
    match a {
        Value::Value(x) => match b {
            Value::Value(y) => *x < *y,
            Value::Infinite => true,
        },
        Value::Infinite => false,
    }
}

impl<T> Cursor<T> {
    pub open spec fn head(self) -> T {
        match self {
            Cursor::Single(v) => v,
            Cursor::Pair { fst, snd: _ } => fst,
        }
    }

    pub fn fst(&self) -> (r: &T)
        ensures
            *r == self.head(),
    {
        match self {
            Cursor::Single(v) => v,
            Cursor::Pair { fst, snd: _ } => fst,
        }
    }
}

impl Cursor<i64> {
    pub open spec fn end(self) -> Value<i64> {
        match self {
            Cursor::Single(_) => Value::Infinite,
            Cursor::Pair { fst: _, snd } => Value::Value(snd),
        }
    }

    /// Where the current interval ends.
    pub fn snd(&self) -> (r: Value<i64>)
        ensures
            r == self.end(),
    {
        match self {
            Cursor::Single(_) => Value::Infinite,
            Cursor::Pair { fst: _, snd } => Value::Value(*snd),
        }
    }

    pub open spec fn intersects(self, other: Self) -> bool {
        let start = if self.head() < other.head() { other.head() } else { self.head() };
        before_end(start, self.end()) && before_end(start, other.end())
    }

    /// Do the two current intervals share a position?
    pub fn can_overlap(&self, other: &Self) -> (r: bool)
        ensures
            r == self.intersects(*other),
    {
        let a = *self.fst();
        let b = *other.fst();
        let start = if a < b { b } else { a };
        let s = Value::Value(start);
        less_end(&s, &self.snd()) && less_end(&s, &other.snd())
    }
}

impl<V: Copy> Cursor<crate::datapoint::DataPoint<i64, V>> {
    pub open spec fn positions(self) -> Cursor<i64> {
        match self {
            Cursor::Single(v) => Cursor::Single(v.point),
            Cursor::Pair { fst, snd } => Cursor::Pair { fst: fst.point, snd: snd.point },
        }
    }

    /// The same window, holding only the positions.
    pub fn map(&self) -> (r: Cursor<i64>)
        ensures
            r == self.positions(),
    {
        match self {
            Cursor::Single(v) => Cursor::Single(v.point),
            Cursor::Pair { fst, snd } => Cursor::Pair { fst: fst.point, snd: snd.point },
        }
    }
}

/// The windows that a cursor shows over `s`, one per item.
pub open spec fn windows<T>(s: Seq<T>) -> Seq<Cursor<T>> {
    Seq::new(
        s.len(),
        |i: int|
            if i + 1 < s.len() {
                Cursor::Pair { fst: s[i], snd: s[i + 1] }
            } else {
                Cursor::Single(s[i])
            },
    )
}

pub proof fn lemma_windows_drop_first<T>(s: Seq<T>)
    requires
        s.len() > 0,
    ensures
        windows(s.drop_first()) == windows(s).drop_first(),
{
    assert(windows(s.drop_first()) =~= windows(s).drop_first());
}

pub proof fn lemma_windows_injective<T>(a: Seq<T>, b: Seq<T>)
    requires
        windows(a) == windows(b),
    ensures
        a == b,
{
    assert(a.len() == windows(a).len() && b.len() == windows(b).len());
    assert forall|i: int| 0 <= i < a.len() implies a[i] == b[i] by {
        assert(windows(a)[i].head() == a[i]);
        assert(windows(b)[i].head() == b[i]);
    }
    assert(a =~= b);
}

/// What one pull of a cursor does to the items it has still to show.
pub proof fn lemma_pulled<S: Series>(a: CursorIterator<S>, b: CursorIterator<S>)
    where S::Item: Copy
    requires
        a.pending().len() > 0,
        b.rest() == a.rest().drop_first(),
    ensures
        b.pending() == a.pending().drop_first(),
{
    lemma_windows_drop_first(a.pending());
    lemma_windows_injective(b.pending(), a.pending().drop_first());
}

enum CursorState<T> {
    NotPulled,
    Entry { current: T },
    Done,
}

/// Turns a series into the series of its windows.
pub struct CursorIterator<S: Series> {
    iterator: S,
    state: CursorState<S::Item>,
}

impl<S: Series> CursorIterator<S> where S::Item: Copy {
    /// The items of the underlying series that have not yet been the head of a window.
    pub closed spec fn pending(&self) -> Seq<S::Item> {
        match self.state {
            CursorState::NotPulled => self.iterator.rest(),
            CursorState::Entry { current } => seq![current] + self.iterator.rest(),
            CursorState::Done => Seq::empty(),
        }
    }

    pub fn new(iterator: S) -> (r: Self)
        requires
            iterator.wf(),
        ensures
            r.wf(),
            r.pending() == iterator.rest(),
    {
        Self { iterator, state: CursorState::NotPulled }
    }
}

impl<S: Series> Series for CursorIterator<S> where S::Item: Copy {
    type Item = Cursor<S::Item>;

    open spec fn rest(&self) -> Seq<Cursor<S::Item>> {
        windows(self.pending())
    }

    closed spec fn wf(&self) -> bool {
        self.iterator.wf()
    }

    fn next(&mut self) -> (r: Option<Cursor<S::Item>>) {
        proof {
            if self.pending().len() > 0 {
                lemma_windows_drop_first(self.pending());
            }
        }
        match self.state {
            CursorState::Done => None,
            CursorState::NotPulled => match self.iterator.next() {
                Some(current) => match self.iterator.next() {
                    Some(next) => {
                        self.state = CursorState::Entry { current: next };
                        proof {
                            assert(self.pending() =~= old(self).pending().drop_first());
                        }
                        Some(Cursor::Pair { fst: current, snd: next })
                    },
                    None => {
                        self.state = CursorState::Done;
                        proof {
                            assert(self.pending() =~= old(self).pending().drop_first());
                        }
                        Some(Cursor::Single(current))
                    },
                },
                None => {
                    self.state = CursorState::Done;
                    proof {
                        assert(self.pending() =~= old(self).pending());
                    }
                    None
                },
            },
            CursorState::Entry { current } => match self.iterator.next() {
                None => {
                    self.state = CursorState::Done;
                    proof {
                        assert(self.pending() =~= old(self).pending().drop_first());
                    }
                    Some(Cursor::Single(current))
                },
                Some(next) => {
                    self.state = CursorState::Entry { current: next };
                    proof {
                        assert(self.pending() =~= old(self).pending().drop_first());
                    }
                    Some(Cursor::Pair { fst: current, snd: next })
                },
            },
        }
    }
}

} // verus!
