use dataseries::{of_iter, DataPoint, Series, Union, UnionResult};

type Expected = Vec<DataPoint<i64, (Option<i64>, Option<u32>)>>;

fn to_option<L, R>(x: UnionResult<L, R>) -> (Option<L>, Option<R>) {
    match x {
        UnionResult::LeftOnly(left) => (Some(left), None),
        UnionResult::RightOnly(right) => (None, Some(right)),
        UnionResult::Both { left, right } => (Some(left), Some(right)),
    }
}

fn test(
    expected: Expected,
    left: Vec<DataPoint<i64, i64>>,
    right: Vec<DataPoint<i64, u32>>,
) {
    test_ex(expected, left, right, true)
}

fn test_ex(
    expected: Expected,
    left: Vec<DataPoint<i64, i64>>,
    right: Vec<DataPoint<i64, u32>>,
    can_mirror: bool,
) {
    {
        let actual: Vec<_> =
            Union::new(of_iter(left.clone()), of_iter(right.clone()), to_option).to_vec();
        assert_eq!(
            expected.as_slice(),
            actual.as_slice(),
            "\n---- inputs\n1/\n left:{left:?}\nright:{right:?}\n"
        );
    }

    if can_mirror {
        let actual: Vec<_> =
            Union::new(of_iter(right.clone()), of_iter(left.clone()), |x| {
                let (l, r) = to_option(x);
                (r, l)
            })
            .to_vec();
        assert_eq!(
            expected.as_slice(),
            actual.as_slice(),
            "\n---- inputs\n2/\n left:{left:?}\nright:{right:?}\n"
        );
    }
}

#[test]
fn test_empty_empty() {
    test(vec![], vec![], vec![]);
}

#[test]
fn test_single_empty() {
    let left = vec![DataPoint::new(1, 100)];
    let expected = vec![DataPoint::new(1, (Some(100), None))];

    test(expected, left, vec![]);
}

#[test]
fn test_singles_empty() {
    let left = vec![
        DataPoint::new(1, 100),
        DataPoint::new(3, 100),
        DataPoint::new(4, 100),
    ];
    let expected = vec![
        DataPoint::new(1, (Some(100), None)),
        DataPoint::new(3, (Some(100), None)),
        DataPoint::new(4, (Some(100), None)),
    ];

    test(expected, left, vec![]);
}

#[test]
fn test_single_single() {
    let left = vec![DataPoint::new(2, 120)];
    let right = vec![DataPoint::new(1, 100)];
    let expected = vec![
        DataPoint::new(1, (None, Some(100))),
        DataPoint::new(2, (Some(120), Some(100))),
    ];

    test(expected, left, right);
}

#[test]
fn test_single_single_full_overlap() {
    let left = vec![DataPoint::new(1, 120)];
    let right = vec![DataPoint::new(1, 100)];
    let expected = vec![DataPoint::new(1, (Some(120), Some(100)))];

    test(expected, left, right);
}

#[test]
fn test_single_pair() {
    let left = vec![DataPoint::new(10, 130)];
    let right = vec![DataPoint::new(1, 120), DataPoint::new(5, 200)];
    let expected = vec![
        DataPoint::new(1, (None, Some(120))),
        DataPoint::new(5, (None, Some(200))),
        DataPoint::new(10, (Some(130), Some(200))),
    ];

    test(expected, left, right);
}

#[test]
fn test_single_pair_2() {
    let left = vec![DataPoint::new(2, 120)];
    let right = vec![DataPoint::new(1, 100), DataPoint::new(3, 150)];
    let expected = vec![
        DataPoint::new(1, (None, Some(100))),
        DataPoint::new(2, (Some(120), Some(100))),
        DataPoint::new(3, (Some(120), Some(150))),
    ];

    test(expected, left, right);
}

#[test]
fn test_single_multiple_3() {
    let left = vec![DataPoint::new(1, 120)];
    let right = vec![DataPoint::new(2, 100), DataPoint::new(5, 150)];
    let expected = vec![
        DataPoint::new(1, (Some(120), None)),
        DataPoint::new(2, (Some(120), Some(100))),
        DataPoint::new(5, (Some(120), Some(150))),
    ];

    test(expected, left, right);
}

#[test]
fn test_partial_intersection() {
    let left = vec![
        DataPoint::new(1, 130),
        DataPoint::new(3, 120),
        DataPoint::new(10, 95),
    ];

    let right = vec![DataPoint::new(2, 120), DataPoint::new(10, 95)];

    let expected = vec![
        DataPoint::new(1, (Some(130), None)),
        DataPoint::new(2, (Some(130), Some(120))),
        DataPoint::new(3, (Some(120), Some(120))),
        DataPoint::new(10, (Some(95), Some(95))),
    ];

    test(expected, left, right);
}

#[test]
fn test_segmented_full_intersection() {
    let left = vec![
        DataPoint::new(1, 130),
        DataPoint::new(3, 120),
        DataPoint::new(10, 95),
    ];

    let right = vec![DataPoint::new(3, 120), DataPoint::new(10, 95)];

    let expected = vec![
        DataPoint::new(1, (Some(130), None)),
        DataPoint::new(3, (Some(120), Some(120))),
        DataPoint::new(10, (Some(95), Some(95))),
    ];

    test(expected, left, right);
}

#[test]
fn test_pair_pair() {
    let left = vec![DataPoint::new(10, 130), DataPoint::new(12, 140)];
    let right = vec![DataPoint::new(1, 120), DataPoint::new(5, 200)];
    let expected = vec![
        DataPoint::new(1, (None, Some(120))),
        DataPoint::new(5, (None, Some(200))),
        DataPoint::new(10, (Some(130), Some(200))),
        DataPoint::new(12, (Some(140), Some(200))),
    ];

    test(expected, left, right);
}

#[test]
fn test_multiple_first() {
    let left = vec![
        DataPoint::new(1, 130),
        DataPoint::new(2, 140),
        DataPoint::new(5, 150),
        DataPoint::new(20, 160),
    ];
    let right = vec![DataPoint::new(30, 120)];
    let expected = vec![
        DataPoint::new(1, (Some(130), None)),
        DataPoint::new(2, (Some(140), None)),
        DataPoint::new(5, (Some(150), None)),
        DataPoint::new(20, (Some(160), None)),
        DataPoint::new(30, (Some(160), Some(120))),
    ];

    test(expected, left, right);
}

#[test]
fn test_multiple_intersections() {
    let left = vec![DataPoint::new(1, 130), DataPoint::new(20, 160)];
    let right = vec![
        DataPoint::new(3, 120),
        DataPoint::new(5, 110),
        DataPoint::new(6, 100),
        DataPoint::new(10, 90),
        DataPoint::new(15, 190),
        DataPoint::new(19, 180),
    ];
    let expected = vec![
        DataPoint::new(1, (Some(130), None)),
        DataPoint::new(3, (Some(130), Some(120))),
        DataPoint::new(5, (Some(130), Some(110))),
        DataPoint::new(6, (Some(130), Some(100))),
        DataPoint::new(10, (Some(130), Some(90))),
        DataPoint::new(15, (Some(130), Some(190))),
        DataPoint::new(19, (Some(130), Some(180))),
        DataPoint::new(20, (Some(160), Some(180))),
    ];

    test(expected, left, right);
}

#[test]
fn test_multiple_intersections_overlap() {
    let left = vec![DataPoint::new(1, 130), DataPoint::new(20, 160)];
    let right = vec![
        DataPoint::new(3, 120),
        DataPoint::new(5, 110),
        DataPoint::new(6, 100),
        DataPoint::new(10, 90),
        DataPoint::new(15, 190),
        DataPoint::new(20, 180),
    ];
    let expected = vec![
        DataPoint::new(1, (Some(130), None)),
        DataPoint::new(3, (Some(130), Some(120))),
        DataPoint::new(5, (Some(130), Some(110))),
        DataPoint::new(6, (Some(130), Some(100))),
        DataPoint::new(10, (Some(130), Some(90))),
        DataPoint::new(15, (Some(130), Some(190))),
        DataPoint::new(20, (Some(160), Some(180))),
    ];

    test(expected, left, right);
}

#[test]
fn test_multiple_intersections_overlaps() {
    let left = vec![
        DataPoint::new(1, 130),
        DataPoint::new(3, 120),
        DataPoint::new(10, 95),
        DataPoint::new(20, 160),
    ];
    let right = vec![
        DataPoint::new(3, 105),
        DataPoint::new(5, 110),
        DataPoint::new(6, 100),
        DataPoint::new(10, 90),
        DataPoint::new(15, 190),
        DataPoint::new(20, 180),
    ];
    let expected = vec![
        DataPoint::new(1, (Some(130), None)),
        DataPoint::new(3, (Some(120), Some(105))),
        DataPoint::new(5, (Some(120), Some(110))),
        DataPoint::new(6, (Some(120), Some(100))),
        DataPoint::new(10, (Some(95), Some(90))),
        DataPoint::new(15, (Some(95), Some(190))),
        DataPoint::new(20, (Some(160), Some(180))),
    ];

    test(expected, left, right);
}

#[test]
fn test_multiple_no_intersection() {
    let left = vec![
        DataPoint::new(1, 130),
        DataPoint::new(3, 120),
        DataPoint::new(10, 95),
        DataPoint::new(20, 160),
    ];
    let right = vec![DataPoint::new(12, 105), DataPoint::new(15, 110)];
    let expected = vec![
        DataPoint::new(1, (Some(130), None)),
        DataPoint::new(3, (Some(120), None)),
        DataPoint::new(10, (Some(95), None)),
        DataPoint::new(12, (Some(95), Some(105))),
        DataPoint::new(15, (Some(95), Some(110))),
        DataPoint::new(20, (Some(160), Some(110))),
    ];

    test(expected, left, right);
}

#[test]
fn test_full_intersection() {
    let left = vec![
        DataPoint::new(1, 130),
        DataPoint::new(3, 120),
        DataPoint::new(10, 95),
        DataPoint::new(20, 160),
    ];

    let right = vec![
        DataPoint::new(1, 130),
        DataPoint::new(3, 120),
        DataPoint::new(10, 95),
        DataPoint::new(20, 160),
    ];

    let expected = vec![
        DataPoint::new(1, (Some(130), Some(130))),
        DataPoint::new(3, (Some(120), Some(120))),
        DataPoint::new(10, (Some(95), Some(95))),
        DataPoint::new(20, (Some(160), Some(160))),
    ];

    test(expected, left, right);
}

#[test]
fn test_full_intersection2() {
    let left = vec![
        DataPoint::new(-15, 130),
        DataPoint::new(-1, 130),
        DataPoint::new(1, 130),
        DataPoint::new(3, 120),
        DataPoint::new(10, 95),
        DataPoint::new(20, 160),
    ];

    let right = vec![
        DataPoint::new(1, 130),
        DataPoint::new(3, 120),
        DataPoint::new(10, 95),
        DataPoint::new(20, 160),
    ];

    let expected = vec![
        DataPoint::new(-15, (Some(130), None)),
        DataPoint::new(-1, (Some(130), None)),
        DataPoint::new(1, (Some(130), Some(130))),
        DataPoint::new(3, (Some(120), Some(120))),
        DataPoint::new(10, (Some(95), Some(95))),
        DataPoint::new(20, (Some(160), Some(160))),
    ];

    test(expected, left, right);
}

fn tags(x: UnionResult<i64, u32>) -> UnionResult<i64, u32> {
    x
}

#[test]
fn union_disjoint_single_single_scenario() {
    let left = vec![DataPoint::new(2, 120i64)];
    let right = vec![DataPoint::new(1, 100u32)];
    let actual = of_iter(left).union(of_iter(right), to_option).to_vec();
    assert_eq!(
        actual,
        vec![DataPoint::new(1, (None, Some(100))), DataPoint::new(2, (Some(120), Some(100)))]
    );
}

#[test]
fn union_left_before_right_tags() {
    let left = vec![DataPoint::new(1, 7i64), DataPoint::new(2, 8)];
    let right = vec![DataPoint::new(5, 9u32), DataPoint::new(6, 10)];
    let actual = of_iter(left).union(of_iter(right), tags).to_vec();
    assert_eq!(
        actual,
        vec![
            DataPoint::new(1, UnionResult::LeftOnly(7)),
            DataPoint::new(2, UnionResult::LeftOnly(8)),
            DataPoint::new(5, UnionResult::Both { left: 8, right: 9 }),
            DataPoint::new(6, UnionResult::Both { left: 8, right: 10 }),
        ]
    );
}

#[test]
fn union_with_empty_left_is_right_only() {
    let left: Vec<DataPoint<i64, i64>> = vec![];
    let right = vec![DataPoint::new(-3, 1u32), DataPoint::new(4, 2)];
    let actual = of_iter(left).union(of_iter(right), tags).to_vec();
    assert_eq!(
        actual,
        vec![DataPoint::new(-3, UnionResult::RightOnly(1)), DataPoint::new(4, UnionResult::RightOnly(2))]
    );
}

#[test]
fn union_swapped_sides_agree() {
    let a = vec![DataPoint::new(1, 1i64), DataPoint::new(4, 2), DataPoint::new(9, 3)];
    let b = vec![DataPoint::new(2, 10u32), DataPoint::new(4, 20), DataPoint::new(7, 30)];
    let ab = of_iter(a.clone()).union(of_iter(b.clone()), to_option).to_vec();
    let ba = of_iter(b).union(of_iter(a), |x| {
        let (l, r) = to_option(x);
        (r, l)
    })
    .to_vec();
    assert_eq!(ab, ba);
    assert_eq!(
        ab,
        vec![
            DataPoint::new(1, (Some(1), None)),
            DataPoint::new(2, (Some(1), Some(10))),
            DataPoint::new(4, (Some(2), Some(20))),
            DataPoint::new(7, (Some(2), Some(30))),
            DataPoint::new(9, (Some(3), Some(30))),
        ]
    );
}

#[test]
fn union_then_merge() {
    let a = vec![DataPoint::new(1, 1i64), DataPoint::new(5, 1)];
    let b = vec![DataPoint::new(3, 0u32)];
    let actual = of_iter(a)
        .union(of_iter(b), |x: UnionResult<i64, u32>| match x {
            UnionResult::LeftOnly(l) => l,
            UnionResult::RightOnly(r) => r as i64,
            UnionResult::Both { left, right } => left + right as i64,
        })
        .merge()
        .to_vec();
    assert_eq!(actual, vec![DataPoint::new(1, 1)]);
}

#[test]
fn union_extreme_positions() {
    let a = vec![DataPoint::new(i64::MIN, 1i64)];
    let b = vec![DataPoint::new(i64::MAX, 2u32)];
    let actual = of_iter(a).union(of_iter(b), to_option).to_vec();
    assert_eq!(
        actual,
        vec![DataPoint::new(i64::MIN, (Some(1), None)), DataPoint::new(i64::MAX, (Some(1), Some(2)))]
    );
}
