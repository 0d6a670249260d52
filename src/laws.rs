use vstd::prelude::*;
use crate::datapoint::DataPoint;
use crate::merge::{merge_from, merge_spec};
use crate::union::{combine_all, combined, union_from, union_spec, UnionResult};

verus! {

/// Every pair of `a` tagged as left-only.
pub open spec fn left_only_all<L, R>(a: Seq<DataPoint<i64, L>>) -> Seq<DataPoint<i64, UnionResult<L, R>>> {
    a.map_values(|d: DataPoint<i64, L>| DataPoint { point: d.point, data: UnionResult::LeftOnly(d.data) })
}

/// Every pair of `b` tagged as right-only.
pub open spec fn right_only_all<L, R>(b: Seq<DataPoint<i64, R>>) -> Seq<DataPoint<i64, UnionResult<L, R>>> {
    b.map_values(|d: DataPoint<i64, R>| DataPoint { point: d.point, data: UnionResult::RightOnly(d.data) })
}

/// Every pair of `b` tagged as both, with `x` on the left.
pub open spec fn both_all<L, R>(x: L, b: Seq<DataPoint<i64, R>>) -> Seq<DataPoint<i64, UnionResult<L, R>>> {
    b.map_values(|d: DataPoint<i64, R>| DataPoint { point: d.point, data: UnionResult::Both { left: x, right: d.data } })
}

/// The same tag seen from the other side.
pub open spec fn swapped<L, R>(u: UnionResult<L, R>) -> UnionResult<R, L> {
    match u {
        UnionResult::LeftOnly(x) => UnionResult::RightOnly(x),
        UnionResult::RightOnly(y) => UnionResult::LeftOnly(y),
        UnionResult::Both { left, right } => UnionResult::Both { left: right, right: left },
    }
}

pub open spec fn swap_all<L, R>(s: Seq<DataPoint<i64, UnionResult<L, R>>>) -> Seq<DataPoint<i64, UnionResult<R, L>>> {
    s.map_values(|d: DataPoint<i64, UnionResult<L, R>>| DataPoint { point: d.point, data: swapped(d.data) })
}

/// Every position of `a` is before every position of `b`.
pub open spec fn all_before<L, R>(a: Seq<DataPoint<i64, L>>, b: Seq<DataPoint<i64, R>>) -> bool {
    forall|i: int, j: int| 0 <= i < a.len() && 0 <= j < b.len() ==> a[i].point < b[j].point
}

proof fn lemma_left_rest<L, R>(a: Seq<DataPoint<i64, L>>, la: Option<L>)
    ensures
        union_from(a, Seq::<DataPoint<i64, R>>::empty(), la, None) == left_only_all::<L, R>(a),
    decreases a.len(),
{
    if a.len() > 0 {
        lemma_left_rest::<L, R>(a.drop_first(), Some(a[0].data));
        assert(union_from(a, Seq::<DataPoint<i64, R>>::empty(), la, None) =~= left_only_all::<L, R>(a));
    } else {
        assert(left_only_all::<L, R>(a) =~= Seq::empty());
    }
}

proof fn lemma_right_rest<L, R>(b: Seq<DataPoint<i64, R>>, x: L, lb: Option<R>)
    ensures
        union_from(Seq::<DataPoint<i64, L>>::empty(), b, Some(x), lb) == both_all(x, b),
    decreases b.len(),
{
    if b.len() > 0 {
        lemma_right_rest::<L, R>(b.drop_first(), x, Some(b[0].data));
        assert(union_from(Seq::<DataPoint<i64, L>>::empty(), b, Some(x), lb) =~= both_all(x, b));
    } else {
        assert(both_all(x, b) =~= Seq::empty());
    }
}

proof fn lemma_right_alone<L, R>(b: Seq<DataPoint<i64, R>>, lb: Option<R>)
    ensures
        union_from(Seq::<DataPoint<i64, L>>::empty(), b, None, lb) == right_only_all::<L, R>(b),
    decreases b.len(),
{
    if b.len() > 0 {
        lemma_right_alone::<L, R>(b.drop_first(), Some(b[0].data));
        assert(union_from(Seq::<DataPoint<i64, L>>::empty(), b, None, lb) =~= right_only_all::<L, R>(b));
    } else {
        assert(right_only_all::<L, R>(b) =~= Seq::empty());
    }
}

/// A union with an empty right side hands out the left side's pairs, each tagged
/// left-only, at unchanged positions.
pub proof fn lemma_union_empty_right<L, R>(a: Seq<DataPoint<i64, L>>)
    ensures
        union_spec(a, Seq::<DataPoint<i64, R>>::empty()) == left_only_all::<L, R>(a),
{
    lemma_left_rest::<L, R>(a, None);
}

/// A union with an empty left side hands out the right side's pairs, each tagged
/// right-only, at unchanged positions.
pub proof fn lemma_union_empty_left<L, R>(b: Seq<DataPoint<i64, R>>)
    ensures
        union_spec(Seq::<DataPoint<i64, L>>::empty(), b) == right_only_all::<L, R>(b),
{
    lemma_right_alone::<L, R>(b, None);
}

proof fn lemma_ordered_from<L, R>(a: Seq<DataPoint<i64, L>>, b: Seq<DataPoint<i64, R>>, la: Option<L>)
    requires
        a.len() > 0,
        all_before(a, b),
    ensures
        union_from(a, b, la, None) == left_only_all::<L, R>(a) + both_all(a.last().data, b),
    decreases a.len(),
{
    let t = a.drop_first();
    if b.len() > 0 {
        assert(a[0].point < b[0].point);
    }
    assert(union_from(a, b, la, None) == seq![DataPoint { point: a[0].point, data: UnionResult::<L, R>::LeftOnly(a[0].data) }]
        + union_from(t, b, Some(a[0].data), None));
    if t.len() > 0 {
        assert(all_before(t, b)) by {
            assert forall|i: int, j: int| 0 <= i < t.len() && 0 <= j < b.len() implies t[i].point < b[j].point by {
                assert(t[i] == a[i + 1]);
            }
        }
        lemma_ordered_from(t, b, Some(a[0].data));
        assert(t.last() == a.last());
        let x = DataPoint { point: a[0].point, data: UnionResult::<L, R>::LeftOnly(a[0].data) };
        assert(left_only_all::<L, R>(a) =~= seq![x] + left_only_all::<L, R>(t));
        let q = both_all(a.last().data, b);
        assert(seq![x] + (left_only_all::<L, R>(t) + q) =~= (seq![x] + left_only_all::<L, R>(t)) + q);
    } else {
        lemma_right_rest::<L, R>(b, a[0].data, None);
        assert(t =~= Seq::<DataPoint<i64, L>>::empty());
        assert(a.last() == a[0]);
        assert(union_from(a, b, la, None) =~= left_only_all::<L, R>(a) + both_all(a.last().data, b));
    }
}

/// When every position of `a` comes before every position of `b`, the union hands out
/// `a`'s pairs tagged left-only, then `b`'s pairs, each paired with the value that `a`
/// holds from its last position on.
pub proof fn lemma_union_ordered<L, R>(a: Seq<DataPoint<i64, L>>, b: Seq<DataPoint<i64, R>>)
    requires
        a.len() > 0,
        all_before(a, b),
    ensures
        union_spec(a, b) == left_only_all::<L, R>(a) + both_all(a.last().data, b),
{
    lemma_ordered_from(a, b, None);
}

/// When every position of `a` comes before every position of `b` and one of them is
/// empty, the union is `a`'s pairs tagged left-only followed by `b`'s pairs tagged
/// right-only.
pub proof fn lemma_union_disjoint<L, R>(a: Seq<DataPoint<i64, L>>, b: Seq<DataPoint<i64, R>>)
    requires
        all_before(a, b),
        a.len() == 0 || b.len() == 0,
    ensures
        union_spec(a, b) == left_only_all::<L, R>(a) + right_only_all::<L, R>(b),
{
    if a.len() == 0 {
        lemma_union_empty_left::<L, R>(b);
        assert(a == Seq::<DataPoint<i64, L>>::empty());
        assert(left_only_all::<L, R>(a) + right_only_all::<L, R>(b) =~= right_only_all::<L, R>(b));
    } else {
        lemma_union_empty_right::<L, R>(a);
        assert(b == Seq::<DataPoint<i64, R>>::empty());
        assert(left_only_all::<L, R>(a) + right_only_all::<L, R>(b) =~= left_only_all::<L, R>(a));
    }
}

proof fn lemma_swap_from<L, R>(
    a: Seq<DataPoint<i64, L>>,
    b: Seq<DataPoint<i64, R>>,
    la: Option<L>,
    lb: Option<R>,
)
    ensures
        union_from(b, a, lb, la) == swap_all(union_from(a, b, la, lb)),
    decreases a.len() + b.len(),
{
    if a.len() == 0 && b.len() == 0 {
        assert(swap_all(union_from(a, b, la, lb)) =~= Seq::empty());
    } else if b.len() == 0 || (a.len() > 0 && a[0].point < b[0].point) {
        lemma_swap_from(a.drop_first(), b, Some(a[0].data), lb);
        assert(union_from(b, a, lb, la) =~= swap_all(union_from(a, b, la, lb)));
    } else if a.len() == 0 || b[0].point < a[0].point {
        lemma_swap_from(a, b.drop_first(), la, Some(b[0].data));
        assert(union_from(b, a, lb, la) =~= swap_all(union_from(a, b, la, lb)));
    } else {
        lemma_swap_from(a.drop_first(), b.drop_first(), Some(a[0].data), Some(b[0].data));
        assert(union_from(b, a, lb, la) =~= swap_all(union_from(a, b, la, lb)));
    }
}

/// Exchanging the sides of a union exchanges the tags and changes nothing else.
pub proof fn lemma_union_swap<L, R>(a: Seq<DataPoint<i64, L>>, b: Seq<DataPoint<i64, R>>)
    ensures
        union_spec(b, a) == swap_all(union_spec(a, b)),
{
    lemma_swap_from(a, b, None, None);
}

/// A union of `b` and `a` under `g`, where `g` gives on a swapped tag what `f` gives on
/// the tag, hands out the same pairs as the union of `a` and `b` under `f`.
pub proof fn lemma_union_symmetric<L, R, T, F: Fn(UnionResult<L, R>) -> T, G: Fn(UnionResult<R, L>) -> T>(
    a: Seq<DataPoint<i64, L>>,
    b: Seq<DataPoint<i64, R>>,
    f: F,
    g: G,
)
    requires
        forall|u: UnionResult<L, R>| combined(g, swapped(u)) == combined(f, u),
    ensures
        combine_all(union_spec(b, a), g) == combine_all(union_spec(a, b), f),
{
    lemma_union_swap(a, b);
    assert(combine_all(union_spec(b, a), g) =~= combine_all(union_spec(a, b), f));
}

/// No two neighbouring pairs of `t` hold equal values.
pub open spec fn no_repeats<V>(t: Seq<DataPoint<i64, V>>) -> bool {
    forall|i: int| 0 <= i < t.len() - 1 ==> #[trigger] t[i].data != t[i + 1].data
}

proof fn lemma_merge_shape<V>(p: Option<DataPoint<i64, V>>, s: Seq<DataPoint<i64, V>>)
    ensures
        no_repeats(merge_from(p, s)),
        p is Some ==> merge_from(p, s).len() > 0 && merge_from(p, s)[0].data == p->0.data,
        p is None && s.len() > 0 ==> merge_from(p, s).len() > 0 && merge_from(p, s)[0].data
            == s[0].data,
    decreases s.len(),
{
    if s.len() > 0 {
        match p {
            None => {
                lemma_merge_shape(Some(s[0]), s.drop_first());
            },
            Some(x) => {
                if x.data == s[0].data {
                    lemma_merge_shape(
                        Some(if x.point < s[0].point { x } else { s[0] }),
                        s.drop_first(),
                    );
                } else {
                    let m = merge_from(Some(s[0]), s.drop_first());
                    lemma_merge_shape(Some(s[0]), s.drop_first());
                    assert(merge_from(p, s) == seq![x] + m);
                    assert forall|i: int| 0 <= i < merge_from(p, s).len() - 1 implies #[trigger] merge_from(p, s)[i].data
                        != merge_from(p, s)[i + 1].data by {
                        if i > 0 {
                            assert(merge_from(p, s)[i] == m[i - 1]);
                            assert(merge_from(p, s)[i + 1] == m[i]);
                        }
                    }
                }
            },
        }
    }
}

proof fn lemma_merge_keeps<V>(x: DataPoint<i64, V>, t: Seq<DataPoint<i64, V>>)
    requires
        no_repeats(t),
        t.len() == 0 || x.data != t[0].data,
    ensures
        merge_from(Some(x), t) == seq![x] + t,
    decreases t.len(),
{
    if t.len() > 0 {
        let u = t.drop_first();
        assert forall|i: int| 0 <= i < u.len() - 1 implies #[trigger] u[i].data != u[i + 1].data by {
            assert(u[i] == t[i + 1]);
            assert(u[i + 1] == t[i + 2]);
        }
        if u.len() > 0 {
            assert(t[0].data != t[1].data);
        }
        lemma_merge_keeps(t[0], u);
        assert(seq![x] + (seq![t[0]] + u) =~= seq![x] + t);
    }
}

/// Merging a merged series changes nothing.
pub proof fn lemma_merge_idempotent<V>(s: Seq<DataPoint<i64, V>>)
    ensures
        merge_spec(merge_spec(s)) == merge_spec(s),
{
    let m = merge_spec(s);
    lemma_merge_shape(None, s);
    if m.len() > 0 {
        let u = m.drop_first();
        assert forall|i: int| 0 <= i < u.len() - 1 implies #[trigger] u[i].data != u[i + 1].data by {
            assert(u[i] == m[i + 1]);
            assert(u[i + 1] == m[i + 2]);
        }
        if u.len() > 0 {
            assert(m[0].data != m[1].data);
        }
        lemma_merge_keeps(m[0], u);
        assert(seq![m[0]] + u =~= m);
    }
}

proof fn lemma_merge_last_from<V>(p: Option<DataPoint<i64, V>>, s: Seq<DataPoint<i64, V>>)
    requires
        s.len() > 0,
        s.len() >= 2 ==> s[s.len() - 2].data != s.last().data,
        s.len() == 1 && p is Some ==> p->0.data != s[0].data,
    ensures
        merge_from(p, s).len() > 0,
        merge_from(p, s).last() == s.last(),
    decreases s.len(),
{
    let u = s.drop_first();
    if s.len() == 1 {
        assert(u.len() == 0);
        assert(merge_from(Some(s[0]), u) == seq![s[0]]);
        match p {
            None => {},
            Some(x) => {
                assert(merge_from(p, s) == seq![x] + merge_from(Some(s[0]), u));
                assert((seq![x] + seq![s[0]]).last() == s[0]);
            },
        }
    } else {
        assert(u.len() >= 1);
        assert(u.last() == s.last());
        if u.len() >= 2 {
            assert(u[u.len() - 2] == s[s.len() - 2]);
        } else {
            assert(s[0].data != u[0].data);
        }
        match p {
            None => {
                lemma_merge_last_from(Some(s[0]), u);
            },
            Some(x) => {
                if x.data == s[0].data {
                    lemma_merge_last_from(Some(if x.point < s[0].point { x } else { s[0] }), u);
                } else {
                    lemma_merge_last_from(Some(s[0]), u);
                    let m = merge_from(Some(s[0]), u);
                    assert(merge_from(p, s) == seq![x] + m);
                    assert((seq![x] + m).last() == m.last());
                }
            },
        }
    }
}

/// The last pair of a merged series is the last pair of the source, when the source's
/// last value differs from the value before it (or the source has one pair).
pub proof fn lemma_merge_last<V>(s: Seq<DataPoint<i64, V>>)
    requires
        s.len() > 0,
        s.len() == 1 || s[s.len() - 2].data != s.last().data,
    ensures
        merge_spec(s).len() > 0,
        merge_spec(s).last() == s.last(),
{
    lemma_merge_last_from(None, s);
}

} // verus!
