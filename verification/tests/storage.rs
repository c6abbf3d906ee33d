use crow_ecs::{Entity, Join, Joinable, SparseStorage, Storage};

#[test]
fn dense_get_on_empty_storage_is_absent() {
    let s: Storage<u32> = Storage::new();
    assert_eq!(s.get(Entity(0)), None);
    assert_eq!(s.get(Entity(1000)), None);
    assert_eq!(s.get(Entity(usize::MAX)), None);
}

#[test]
fn dense_insert_returns_prior_value() {
    let mut s = Storage::new();
    assert_eq!(s.insert(Entity(3), 10), None);
    assert_eq!(s.insert(Entity(3), 11), Some(10));
    assert_eq!(s.get(Entity(3)), Some(&11));
}

#[test]
fn dense_insert_past_the_end_fills_gap_with_absent_slots() {
    let mut s = Storage::new();
    s.insert(Entity(4), 'x');
    for i in 0..4 {
        assert_eq!(s.get(Entity(i)), None);
    }
    assert_eq!(s.get(Entity(4)), Some(&'x'));
    assert_eq!(s.get(Entity(5)), None);
    assert_eq!((&s).join().len, 5);
}

#[test]
fn dense_insert_below_the_end_keeps_the_length() {
    let mut s = Storage::new();
    s.insert(Entity(6), 1);
    s.insert(Entity(2), 2);
    assert_eq!((&s).join().len, 7);
    assert_eq!(s.get(Entity(2)), Some(&2));
    assert_eq!(s.get(Entity(6)), Some(&1));
}

#[test]
fn dense_remove_leaves_a_gap() {
    let mut s = Storage::new();
    s.insert(Entity(0), 1);
    s.insert(Entity(1), 2);
    s.insert(Entity(2), 3);
    assert_eq!(s.remove(Entity(1)), Some(2));
    assert_eq!(s.remove(Entity(1)), None);
    assert_eq!(s.get(Entity(0)), Some(&1));
    assert_eq!(s.get(Entity(1)), None);
    assert_eq!(s.get(Entity(2)), Some(&3));
    assert_eq!((&s).join().len, 3);
}

#[test]
fn dense_remove_out_of_range_is_absent() {
    let mut s = Storage::new();
    s.insert(Entity(0), 1);
    assert_eq!(s.remove(Entity(7)), None);
    assert_eq!(s.remove(Entity(usize::MAX)), None);
    assert_eq!(s.get(Entity(0)), Some(&1));
    assert_eq!((&s).join().len, 1);
}

#[test]
fn dense_clear_keeps_the_slots() {
    let mut s = Storage::new();
    s.insert(Entity(0), 1);
    s.insert(Entity(9), 2);
    s.clear();
    for i in 0..12 {
        assert_eq!(s.get(Entity(i)), None);
    }
    assert_eq!((&s).join().len, 10);
    assert_eq!((&s).join().collect(), Vec::<&i32>::new());
}

#[test]
fn dense_get_mut_writes_through() {
    let mut s = Storage::new();
    s.insert(Entity(2), 5);
    assert_eq!(s.get_mut(Entity(0)), None);
    assert_eq!(s.get_mut(Entity(3)), None);
    match s.get_mut(Entity(2)) {
        Some(v) => {
            assert_eq!(*v, 5);
            *v = 8;
        }
        None => panic!("identifier 2 holds a value"),
    }
    assert_eq!(s.get(Entity(2)), Some(&8));
    assert_eq!(s.get(Entity(1)), None);
}

#[test]
fn dense_default_is_empty() {
    let s: Storage<u8> = Storage::default();
    assert_eq!(s.get(Entity(0)), None);
    assert_eq!((&s).join().len, 0);
}

#[test]
fn sparse_get_on_empty_storage_is_absent() {
    let s: SparseStorage<u32> = SparseStorage::new();
    assert_eq!(s.get(Entity(0)), None);
    assert_eq!(s.get(Entity(usize::MAX)), None);
}

#[test]
fn sparse_insert_returns_prior_value() {
    let mut s = SparseStorage::new();
    assert_eq!(s.insert(Entity(3), 10), None);
    assert_eq!(s.insert(Entity(3), 11), Some(10));
    assert_eq!(s.get(Entity(3)), Some(&11));
    assert_eq!(s.get(Entity(2)), None);
}

#[test]
fn sparse_remove_returns_the_value() {
    let mut s = SparseStorage::new();
    s.insert(Entity(100), "a");
    s.insert(Entity(7), "b");
    assert_eq!(s.remove(Entity(7)), Some("b"));
    assert_eq!(s.remove(Entity(7)), None);
    assert_eq!(s.remove(Entity(8)), None);
    assert_eq!(s.get(Entity(100)), Some(&"a"));
}

#[test]
fn sparse_clear_removes_everything() {
    let mut s = SparseStorage::new();
    s.insert(Entity(1), 1);
    s.insert(Entity(50), 2);
    s.clear();
    assert_eq!(s.get(Entity(1)), None);
    assert_eq!(s.get(Entity(50)), None);
    assert_eq!((&s).join().len, 0);
}

#[test]
fn sparse_get_mut_writes_through() {
    let mut s = SparseStorage::new();
    s.insert(Entity(2), 5);
    s.insert(Entity(40), 6);
    assert_eq!(s.get_mut(Entity(3)), None);
    match s.get_mut(Entity(40)) {
        Some(v) => {
            assert_eq!(*v, 6);
            *v = 60;
        }
        None => panic!("identifier 40 holds a value"),
    }
    assert_eq!(s.get(Entity(40)), Some(&60));
    assert_eq!(s.get(Entity(2)), Some(&5));
}

#[test]
fn sparse_default_is_empty() {
    let s: SparseStorage<u8> = SparseStorage::default();
    assert_eq!(s.get(Entity(0)), None);
}

#[test]
fn sparse_bound_is_one_past_the_greatest_key() {
    let mut s = SparseStorage::new();
    assert_eq!((&s).join().len, 0);
    s.insert(Entity(0), 1);
    assert_eq!((&s).join().len, 1);
    s.insert(Entity(41), 1);
    assert_eq!((&s).join().len, 42);
    s.insert(Entity(7), 1);
    assert_eq!((&s).join().len, 42);
    s.remove(Entity(41));
    assert_eq!((&s).join().len, 8);
}

#[test]
fn sparse_bound_stops_at_the_largest_number() {
    let mut s = SparseStorage::new();
    s.insert(Entity(usize::MAX), 1);
    assert_eq!((&s).join().len, usize::MAX);
    assert_eq!(s.get(Entity(usize::MAX)), Some(&1));
    assert_eq!((&s).join().collect(), Vec::<&i32>::new());
    s.insert(Entity(5), 2);
    assert_eq!((&s).join().collect(), vec![&2]);
    assert_eq!(s.remove(Entity(usize::MAX)), Some(1));
    assert_eq!((&s).join().len, 6);
}

#[test]
fn sparse_join_yields_the_last_key() {
    let mut s = SparseStorage::new();
    s.insert(Entity(3), 'a');
    s.insert(Entity(9), 'b');
    assert_eq!((&s).join().collect(), vec![&'a', &'b']);
}

#[test]
fn dense_strategy_pulls_by_position() {
    let mut s = Storage::new();
    s.insert(Entity(1), 10);
    s.insert(Entity(3), 30);
    let mut iter = (&s).join().iter;
    assert_eq!(iter.nth(1), Some(&10));
    assert_eq!(iter.next(), None);
    assert_eq!(iter.next(), Some(&30));
    assert_eq!(iter.next(), None);
    assert_eq!(iter.nth(5), None);
}

#[test]
fn sparse_strategy_pulls_by_position() {
    let mut s = SparseStorage::new();
    s.insert(Entity(1), 10);
    s.insert(Entity(3), 30);
    let mut iter = (&s).join().iter;
    assert_eq!(iter.nth(1), Some(&10));
    assert_eq!(iter.next(), None);
    assert_eq!(iter.next(), Some(&30));
    assert_eq!(iter.next(), None);
    assert_eq!(iter.nth(5), None);
}

#[test]
fn dense_pull_of_any_distance_is_absent_past_the_slots() {
    let mut s = Storage::new();
    s.insert(Entity(0), 17);
    s.insert(Entity(4), 3);
    s.insert(Entity(5), 4);
    let mut it = (&s).join().iter;
    assert_eq!(it.nth(1), None);
    assert_eq!(it.nth(2), Some(&3));
    assert_eq!(it.nth(0), Some(&4));
    assert_eq!(it.nth(usize::MAX), None);
    assert_eq!(it.nth(usize::MAX), None);
    assert_eq!(it.next(), None);
    assert_eq!(it.nth(0), None);

    let mut it = (&s).join().iter;
    assert_eq!(it.nth(usize::MAX), None);
    assert_eq!(it.next(), None);
    let mut it = (&s).join().iter;
    assert_eq!(it.nth(6), None);
    assert_eq!(it.next(), None);
    let mut it = (&s).join().iter;
    assert_eq!(it.nth(5), Some(&4));
    assert_eq!(it.next(), None);
}

#[test]
fn dense_exclusive_pull_of_any_distance_is_absent_past_the_slots() {
    let mut s = Storage::new();
    s.insert(Entity(0), 17);
    s.insert(Entity(4), 3);
    s.insert(Entity(5), 4);
    let mut joined = (&mut s).join();
    assert_eq!(joined.iter.nth(1), None);
    assert_eq!(joined.iter.nth(2), Some(&mut 3));
    assert_eq!(joined.iter.nth(0), Some(&mut 4));
    assert_eq!(joined.iter.nth(usize::MAX), None);
    assert_eq!(joined.iter.next(), None);
    let mut joined = (&mut s).join();
    assert_eq!(joined.iter.nth(usize::MAX), None);
    assert_eq!(joined.iter.next(), None);
    assert_eq!(s.get(Entity(0)), Some(&17));
    assert_eq!(s.get(Entity(5)), Some(&4));
}

#[test]
fn negated_dense_pull_of_any_distance_is_present_past_the_slots() {
    let mut s = Storage::new();
    s.insert(Entity(0), 17);
    s.insert(Entity(2), 3);
    let mut it = (!&s).join().iter;
    assert_eq!(it.nth(usize::MAX), Some(()));
    assert_eq!(it.next(), Some(()));
    let mut it = (!&s).join().iter;
    assert_eq!(it.nth(2), None);
    assert_eq!(it.nth(usize::MAX - 3), Some(()));
    assert_eq!(it.nth(usize::MAX), Some(()));
    let empty: Storage<u8> = Storage::new();
    assert_eq!((!&empty).join().iter.nth(usize::MAX), Some(()));
}
