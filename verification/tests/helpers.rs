use std::ops::Range;
use wamex_object::helpers::{cmp_range, RangeComp, RangeExt, ShiftMap, ShiftPoint};

#[test]
fn test_shift_range() {
    let range: Range<usize> = 10..20;
    assert_eq!(range.shift_left(5), 5..15);
    assert_eq!(range.shift_right(5), 15..25);
}

#[test]
fn test_cmp_range() {
    let range1 = 10..20;

    assert_eq!(cmp_range(&range1, &(0..5)), RangeComp::Right);
    assert_eq!(cmp_range(&range1, &(0..10)), RangeComp::Right);
    assert_eq!(cmp_range(&range1, &(0..11)), RangeComp::NonComparable);
    assert_eq!(cmp_range(&range1, &(5..15)), RangeComp::NonComparable);
    assert_eq!(cmp_range(&range1, &(10..11)), RangeComp::Overlap);
    assert_eq!(cmp_range(&range1, &(10..20)), RangeComp::Equal);
    assert_eq!(cmp_range(&range1, &(15..20)), RangeComp::Overlap);
    assert_eq!(cmp_range(&range1, &(19..20)), RangeComp::Overlap);
    assert_eq!(cmp_range(&range1, &(15..25)), RangeComp::NonComparable);
    assert_eq!(cmp_range(&range1, &(20..35)), RangeComp::Left);
    assert_eq!(cmp_range(&range1, &(25..35)), RangeComp::Left);

    assert_eq!(cmp_range(&range1, &(2..40)), RangeComp::Within);
}

#[test]
fn test_cmp_range_from_file() {
    let range = 8916..8917;
    let other = 8916..8916;

    assert_eq!(cmp_range(&range, &other), RangeComp::Overlap);
}

#[test]
fn test_partial_cmp() {
    let range = 10..20;

    assert_eq!(
        cmp_range(&range, &(0..5)).as_partial_ordering(),
        Some(std::cmp::Ordering::Greater)
    );
    assert_eq!(
        cmp_range(&range, &(0..10)).as_partial_ordering(),
        Some(std::cmp::Ordering::Greater)
    );
    assert_eq!(cmp_range(&range, &(0..11)).as_partial_ordering(), None);
    assert_eq!(cmp_range(&range, &(5..15)).as_partial_ordering(), None);
    assert_eq!(
        cmp_range(&range, &(10..22)).as_partial_ordering(),
        Some(std::cmp::Ordering::Greater)
    );
    assert_eq!(
        cmp_range(&range, &(10..11)).as_partial_ordering(),
        Some(std::cmp::Ordering::Less)
    );
    assert_eq!(
        cmp_range(&range, &(15..17)).as_partial_ordering(),
        Some(std::cmp::Ordering::Less)
    );
    assert_eq!(
        cmp_range(&range, &(15..20)).as_partial_ordering(),
        Some(std::cmp::Ordering::Less)
    );
    assert_eq!(
        cmp_range(&range, &(10..20)).as_partial_ordering(),
        Some(std::cmp::Ordering::Equal)
    );

    assert_eq!(
        cmp_range(&range, &(20..21)).as_partial_ordering(),
        Some(std::cmp::Ordering::Less)
    );

    assert_eq!(
        cmp_range(&range, &(35..40)).as_partial_ordering(),
        Some(std::cmp::Ordering::Less)
    );

    let ranges = vec![0..5, 5..15, 6..11, 15..20, 20..35, 35..45];
    let mut res = ranges.clone();
    res.sort_by(|a, b| {
        cmp_range(a, b)
            .as_partial_ordering()
            .expect("Failed to compare ranges")
    });
    assert_eq!(res, ranges);
}

#[test]
fn shift_map() {
    let points = vec![
        ShiftPoint {
            at: 10u32,
            shift: 5,
        },
        ShiftPoint {
            at: 15u32,
            shift: 2,
        },
        ShiftPoint {
            at: 20u32,
            shift: -3,
        },
        ShiftPoint {
            at: 30u32,
            shift: 4,
        },
    ];

    let shift_map = ShiftMap::build(points);

    for any_offset in 0..10 {
        assert_eq!(shift_map.get_shift_raw(any_offset).unwrap(), 0);
    }
    for any_offset in 10..15 {
        assert_eq!(shift_map.get_shift_raw(any_offset).unwrap(), 5);
    }
    for any_offset in 15..20 {
        assert_eq!(shift_map.get_shift_raw(any_offset).unwrap(), 7);
    }
    // removed range
    for any_offset in 20..23 {
        assert!(shift_map.get_shift_raw(any_offset).is_none());
    }
    for any_offset in 23..30 {
        assert_eq!(shift_map.get_shift_raw(any_offset).unwrap(), 4);
    }
    for any_offset in 30..40 {
        assert_eq!(shift_map.get_shift_raw(any_offset).unwrap(), 8);
    }

    let other_map = {
        let mut map = ShiftMap::new();
        map.insert(10u32, 5);
        map.insert(15u32, 2);
        map.remove(20u32, 3);
        map.insert(30u32, 4);
        map
    };

    assert_eq!(shift_map, other_map);
}

#[test]
fn test_shift_map_cursor() {
    let points = vec![
        ShiftPoint {
            at: 10u32,
            shift: 5,
        },
        ShiftPoint {
            at: 15u32,
            shift: 2,
        },
        ShiftPoint {
            at: 20u32,
            shift: -3,
        },
        ShiftPoint {
            at: 30u32,
            shift: 4,
        },
    ];

    let shift_map = ShiftMap::build(points);
    let mut cursor = shift_map.cursor_at(0u32);
    for any_offset in 0..10 {
        assert_eq!(cursor.get_shift_raw(any_offset).unwrap(), 0);
    }
    for any_offset in 10..15 {
        assert_eq!(cursor.get_shift_raw(any_offset).unwrap(), 5);
    }
    for any_offset in 15..20 {
        assert_eq!(cursor.get_shift_raw(any_offset).unwrap(), 7);
    }
    // removed range
    for any_offset in 20..23 {
        assert!(shift_map.get_shift_raw(any_offset).is_none());
    }
    for any_offset in 23..30 {
        assert_eq!(shift_map.get_shift_raw(any_offset).unwrap(), 4);
    }
    for any_offset in 30..40 {
        assert_eq!(cursor.get_shift_raw(any_offset).unwrap(), 8);
    }
}






#[test]
fn shift_map_test_symbol_id_usage() {
    let symbols = (0u32..30).collect::<Vec<_>>();
    let removed = [10, 15, 21]; // arbitrary removed symbols

    let mut shift_map = ShiftMap::new();
    for &sym in &removed {
        shift_map.remove(sym, 1); // remove ony at once
    }

    let mut symbol_map = std::collections::BTreeMap::<u32, u32>::new();
    let mut rebuild_symbols = Vec::new();

    // usage of shiftmap allows remap symbol ids after removals
    for &sym in &symbols {
        let Some(shift) = shift_map.get_shift_raw(sym) else {
            continue; // symbol was removed
        };
        let new_sym = (sym as i32 + shift) as u32;
        rebuild_symbols.push(new_sym);
        symbol_map.insert(sym, new_sym);
    }

    let expected_results = (0u32..27).collect::<Vec<_>>();
    assert_eq!(rebuild_symbols, expected_results);

    let expected_map = {
        let expected_from = (0u32..10)
            .chain(11u32..15)
            .chain(16u32..21)
            .chain(22u32..30)
            .collect::<Vec<_>>();
        expected_from
            .into_iter()
            .zip(expected_results.into_iter())
            .collect()
    };
    assert_eq!(symbol_map, expected_map);
}

#[test]
fn the_order_of_shift_points_does_not_matter() {
    let points = [(30u32, 4), (10, 5), (20, -3), (15, 2)];
    let as_points = |order: &[(u32, i32)]| -> Vec<ShiftPoint<u32>> {
        order.iter().map(|(at, shift)| ShiftPoint { at: *at, shift: *shift }).collect()
    };
    let built = ShiftMap::build(as_points(&points));
    assert_eq!(built.get_shift_raw(30), Some(8));
    for i in 0..points.len() {
        let mut order = points;
        order.rotate_left(i);
        for _ in 0..2 {
            assert_eq!(ShiftMap::build(as_points(&order)), built);
            let mut added = ShiftMap::new();
            for point in as_points(&order) {
                added.add_shift_point(point);
            }
            assert_eq!(added, built);
            order.reverse();
        }
    }
}
