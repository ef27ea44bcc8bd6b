use ip2c::itree::Placement;
use ip2c::{Interval, IntervalError, IntervalTreeMap};

#[test]
fn put_get() {
    let mut map = IntervalTreeMap::new();
    let r = map.insert_scope(100, 200, 'A');
    assert_eq!(r, Ok(()));
    let r = map.query(200);
    assert_eq!(r, Some(&'A'));
    let r = map.query(201);
    assert_eq!(r, None);
    let r = map.insert_scope(200, 300, 'B');
    assert_ne!(r, Ok(()));
    let r = map.insert_scope(201, 300, 'S');
    assert_eq!(r, Ok(()));
    let r = map.query(200);
    assert_eq!(r, Some(&'A'));
    let r = map.query(300);
    assert_eq!(r, Some(&'S'));
    let r = map.insert_scope(450, 330, 'D');
    assert_ne!(r, Ok(()));
    let r = map.insert_scope(150, 230, 'F');
    assert_ne!(r, Ok(()));
    let r = map.insert_scope(500, 600, 'A');
    assert_eq!(r, Ok(()));
    let r = map.query(501);
    assert_eq!(r, Some(&'A'));
}

#[test]
fn remove() {
    let mut map = IntervalTreeMap::new();
    let _ = map.insert(Interval::Scope(10, 20), true);
    let _ = map.insert(Interval::Scope(30, 80), true);
    let _ = map.insert(Interval::Scope(100, 100), true);
    let r = map.remove(&Interval::Scope(15, 50));
    assert_eq!(r, None);
    assert_eq!(map.query(15), Some(&true));
    let r = map.remove(&Interval::Scope(10, 20));
    assert_eq!(r, Some(true));
    assert_eq!(map.query(15), None);
    let r = map.remove(&Interval::Scope(100, 101));
    assert_eq!(r, None);
    assert_eq!(map.query(100), Some(&true));
    let r = map.remove(&Interval::Scope(100, 100));
    assert_eq!(r, Some(true));
    assert_eq!(map.query(100), None);
}

#[test]
fn invalid_interval_is_refused_with_a_suggestion() {
    let mut map: IntervalTreeMap<u32, u8> = IntervalTreeMap::new();
    let r = map.insert(Interval::Scope(5, 3), 1);
    assert_eq!(r, Err(IntervalError::Invalid([Interval::Scope(5, 3), Interval::Scope(3, 5)])));
    let r = map.insert(Interval::Range(5, 3), 1);
    assert_eq!(r, Err(IntervalError::Invalid([Interval::Range(5, 3), Interval::Range(3, 5)])));
    let r = map.insert(Interval::Range(4, 4), 1);
    assert_eq!(r, Err(IntervalError::Invalid([Interval::Range(4, 4), Interval::Scope(4, 4)])));
    assert_eq!(map.len(), 0);
}

#[test]
fn half_open_range_covers_up_to_but_not_its_upper_bound() {
    let mut map: IntervalTreeMap<u32, char> = IntervalTreeMap::new();
    assert_eq!(map.insert(Interval::Range(10, 20), 'r'), Ok(()));
    assert_eq!(map.query(9), None);
    assert_eq!(map.query(10), Some(&'r'));
    assert_eq!(map.query(19), Some(&'r'));
    assert_eq!(map.query(20), None);
    assert_eq!(map.query(21), None);
}

#[test]
fn closed_scope_covers_both_bounds() {
    let mut map: IntervalTreeMap<u32, char> = IntervalTreeMap::new();
    assert_eq!(map.insert(Interval::Scope(10, 20), 's'), Ok(()));
    assert_eq!(map.query(9), None);
    assert_eq!(map.query(10), Some(&'s'));
    assert_eq!(map.query(20), Some(&'s'));
    assert_eq!(map.query(21), None);
    assert_eq!(map.get_key_value(15), Some((&Interval::Scope(10, 20), &'s')));
    assert_eq!(map.get_key_value(21), None);
}

#[test]
fn range_and_scope_that_touch_without_sharing_a_point_both_go_in() {
    let mut map: IntervalTreeMap<u32, u8> = IntervalTreeMap::new();
    assert_eq!(map.insert(Interval::Range(0, 10), 1), Ok(()));
    assert_eq!(map.insert(Interval::Scope(10, 10), 2), Ok(()));
    assert_eq!(map.insert(Interval::Range(11, 12), 3), Ok(()));
    assert_eq!(map.len(), 3);
    assert_eq!(map.query(9), Some(&1));
    assert_eq!(map.query(10), Some(&2));
    assert_eq!(map.query(11), Some(&3));
    assert_eq!(map.query(12), None);
}

#[test]
fn overlapping_intervals_conflict_in_either_order() {
    let a = Interval::Scope(10u32, 20);
    let b = Interval::Range(20u32, 30);
    let mut map: IntervalTreeMap<u32, u8> = IntervalTreeMap::new();
    assert_eq!(map.insert(a, 1), Ok(()));
    assert_eq!(map.insert(b, 2), Err(IntervalError::Conflict([b, a])));
    assert_eq!(map.len(), 1);
    let mut map: IntervalTreeMap<u32, u8> = IntervalTreeMap::new();
    assert_eq!(map.insert(b, 2), Ok(()));
    assert_eq!(map.insert(a, 1), Err(IntervalError::Conflict([a, b])));
    assert_eq!(map.len(), 1);
    assert_eq!(map.query(20), Some(&2));
}

#[test]
fn insert_point_conflicts_with_the_interval_that_covers_it() {
    let mut map: IntervalTreeMap<i64, u8> = IntervalTreeMap::new();
    assert_eq!(map.insert_point(-5, 1), Ok(()));
    assert_eq!(map.insert_scope(0, 4, 2), Ok(()));
    assert_eq!(
        map.insert_point(3, 9),
        Err(IntervalError::Conflict([Interval::Scope(3, 3), Interval::Scope(0, 4)]))
    );
    assert_eq!(map.query(-5), Some(&1));
    assert_eq!(map.query(-4), None);
}

#[test]
fn remove_takes_only_the_exact_interval() {
    let mut map: IntervalTreeMap<u32, &str> = IntervalTreeMap::new();
    let _ = map.insert(Interval::Scope(0, 4), "a");
    let _ = map.insert(Interval::Scope(6, 7), "b");
    assert_eq!(map.remove(&Interval::Scope(2, 9)), None);
    assert_eq!(map.remove(&Interval::Scope(6, 6)), None);
    assert_eq!(map.remove(&Interval::Range(6, 8)), None);
    assert_eq!(map.remove(&Interval::Scope(7, 6)), None);
    assert_eq!(map.len(), 2);
    assert_eq!(map.query(6), Some(&"b"));
    assert_eq!(map.remove(&Interval::Scope(6, 7)), Some("b"));
    assert_eq!(map.query(6), None);
    assert_eq!(map.len(), 1);
}

#[test]
fn content_does_not_depend_on_insertion_order() {
    let batch = [
        (Interval::Scope(50u32, 60), 'c'),
        (Interval::Range(0u32, 10), 'a'),
        (Interval::Scope(10u32, 10), 'b'),
        (Interval::Range(100u32, 200), 'd'),
    ];
    let orders: [[usize; 4]; 4] = [[0, 1, 2, 3], [3, 2, 1, 0], [1, 3, 0, 2], [2, 0, 3, 1]];
    let expected = vec![
        (Interval::Range(0u32, 10), 'a'),
        (Interval::Scope(10u32, 10), 'b'),
        (Interval::Scope(50u32, 60), 'c'),
        (Interval::Range(100u32, 200), 'd'),
    ];
    for order in orders.iter() {
        let mut map: IntervalTreeMap<u32, char> = IntervalTreeMap::new();
        for i in order.iter() {
            assert_eq!(map.insert(batch[*i].0, batch[*i].1), Ok(()));
        }
        assert_eq!(map.tree(), &expected);
    }
}

#[test]
fn compare_orders_by_overlap() {
    let a = Interval::Range(0u8, 10);
    let b = Interval::Scope(10u8, 20);
    let c = Interval::Scope(9u8, 10);
    assert_eq!(a.compare(&b), Placement::Less);
    assert_eq!(b.compare(&a), Placement::Greater);
    assert_eq!(a.compare(&c), Placement::Equal);
    assert_eq!(c.compare(&b), Placement::Equal);
    assert!(a.is_valid());
    assert!(!Interval::Range(3u8, 3).is_valid());
    assert!(Interval::Scope(3u8, 3).is_valid());
    assert_eq!(Interval::point(3u8), Interval::Scope(3, 3));
    assert_eq!(Interval::Scope(5u8, 3).correct(), Interval::Scope(3, 5));
}

#[test]
fn interval_from_a_point_or_a_pair_is_closed() {
    assert_eq!(Interval::from(7u32), Interval::Scope(7, 7));
    assert_eq!(Interval::from((3u32, 9u32)), Interval::Scope(3, 9));
}
