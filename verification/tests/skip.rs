use crow_ecs::{Entities, Entity, Join, Joinable, SparseStorage, Storage};

#[test]
fn dense_skip_is_the_run_of_absent_slots() {
    let mut s = Storage::new();
    s.insert(Entity(2), 1);
    s.insert(Entity(3), 1);
    s.insert(Entity(7), 1);
    let mut iter = (&s).join().iter;
    assert_eq!(iter.may_skip(0), 2);
    assert_eq!(iter.nth(2), Some(&1));
    assert_eq!(iter.may_skip(3), 0);
    assert_eq!(iter.next(), Some(&1));
    assert_eq!(iter.may_skip(4), 3);
    assert_eq!(iter.nth(3), Some(&1));
    assert_eq!(iter.may_skip(8), 0);
}

#[test]
fn dense_skip_over_a_cleared_storage_is_its_length() {
    let mut s = Storage::new();
    s.insert(Entity(5), 1);
    s.clear();
    let mut iter = (&s).join().iter;
    assert_eq!(iter.may_skip(0), 6);
}

#[test]
fn dense_skip_never_passes_a_value() {
    let mut s = Storage::new();
    for id in [1usize, 4, 5, 11, 12, 13, 20] {
        s.insert(Entity(id), id);
    }
    let mut joined = (&s).join();
    let mut pos = 0;
    while pos < 21 {
        let hint = joined.iter.may_skip(pos);
        for p in pos..pos + hint {
            assert_eq!(s.get(Entity(p)), None);
        }
        joined.iter.nth(hint);
        pos += hint + 1;
    }
}

#[test]
fn sparse_skip_is_the_distance_to_the_next_key() {
    let mut s = SparseStorage::new();
    s.insert(Entity(2), 1);
    s.insert(Entity(3), 1);
    s.insert(Entity(70), 1);
    let mut iter = (&s).join().iter;
    assert_eq!(iter.may_skip(0), 2);
    assert_eq!(iter.may_skip(1), 1);
    assert_eq!(iter.may_skip(2), 0);
    assert_eq!(iter.may_skip(3), 0);
    assert_eq!(iter.may_skip(4), 66);
    assert_eq!(iter.may_skip(70), 0);
}

#[test]
fn sparse_skip_without_a_further_key_is_unbounded() {
    let mut s = SparseStorage::new();
    s.insert(Entity(2), 1);
    let mut iter = (&s).join().iter;
    assert_eq!(iter.may_skip(3), usize::MAX);
    let empty: SparseStorage<u8> = SparseStorage::new();
    assert_eq!((&empty).join().iter.may_skip(0), usize::MAX);
}

#[test]
fn sparse_join_ends_on_an_unbounded_skip() {
    let mut a = SparseStorage::new();
    let mut b = Storage::new();
    a.insert(Entity(1), 'a');
    b.insert(Entity(1), 'b');
    b.insert(Entity(9), 'c');
    let mut joined = (&a, &b).join();
    assert_eq!(joined.next(), Some((&'a', &'b')));
    assert_eq!(joined.next(), None);
    assert_eq!(joined.next(), None);
}

#[test]
fn negated_dense_skip_is_the_run_of_present_slots() {
    let mut s = Storage::new();
    s.insert(Entity(0), 1);
    s.insert(Entity(1), 1);
    s.insert(Entity(2), 1);
    s.insert(Entity(5), 1);
    let mut iter = (!&s).join().iter;
    assert_eq!(iter.may_skip(0), 3);
    assert_eq!(iter.nth(3), Some(()));
    assert_eq!(iter.may_skip(4), 0);
    assert_eq!(iter.next(), Some(()));
    assert_eq!(iter.may_skip(5), 1);
    assert_eq!(iter.next(), None);
    assert_eq!(iter.may_skip(6), 0);
    assert_eq!(iter.next(), Some(()));
}

#[test]
fn negated_sparse_skip_is_zero() {
    let mut s = SparseStorage::new();
    s.insert(Entity(0), 1);
    s.insert(Entity(1), 1);
    let mut iter = (!&s).join().iter;
    assert_eq!(iter.may_skip(0), 0);
    assert_eq!(iter.next(), None);
    assert_eq!(iter.may_skip(1), 0);
    assert_eq!(iter.next(), None);
    assert_eq!(iter.may_skip(2), 0);
    assert_eq!(iter.next(), Some(()));
}

#[test]
fn entities_and_maybe_never_skip() {
    let mut s = Storage::new();
    s.insert(Entity(4), 1);
    assert_eq!(Entities.join().iter.may_skip(0), 0);
    assert_eq!((&s).maybe().join().iter.may_skip(0), 0);
}

#[test]
fn tuple_skip_is_the_largest_of_its_members() {
    let mut a = Storage::new();
    let mut b = SparseStorage::new();
    a.insert(Entity(3), 1);
    b.insert(Entity(8), 1);
    b.insert(Entity(9), 1);
    a.insert(Entity(9), 1);
    assert_eq!((&a, &b).join().iter.may_skip(0), 8);
    assert_eq!((&b, &a).join().iter.may_skip(0), 8);
    assert_eq!((&a, Entities).join().iter.may_skip(0), 3);
    assert_eq!((Entities, &a, &b).join().iter.may_skip(0), 8);
    assert_eq!((&a, &b, Entities).join().collect(), vec![(&1, &1, Entity(9))]);
}

#[test]
fn tuple_bound_is_the_smallest_of_its_members() {
    let mut a = Storage::new();
    let mut b = SparseStorage::new();
    a.insert(Entity(3), 1);
    b.insert(Entity(8), 1);
    assert_eq!((&a, &b).join().len, 4);
    assert_eq!((&b, &a).join().len, 4);
    assert_eq!((&b, Entities).join().len, 9);
    assert_eq!((Entities, Entities).join().len, usize::MAX);
    assert_eq!((&a, (&b).maybe()).join().len, 4);
    assert_eq!((!&a, &b).join().len, 9);
    assert_eq!((!&a, !&b).join().len, usize::MAX);
}

#[test]
fn sparse_skip_from_any_position_ahead() {
    let mut s = SparseStorage::<u8>::new();
    s.insert(Entity(1), 17);
    s.insert(Entity(4), 0);
    let mut it = (&s).join().iter;
    assert_eq!(it.may_skip(0), 1);
    assert_eq!(it.may_skip(2), 2);
    assert_eq!(it.may_skip(4), 0);
    assert_eq!(it.next(), Some(&0));
    assert_eq!(it.may_skip(5), usize::MAX);
}

#[test]
fn sparse_skip_leaves_the_strategy_at_the_position_asked() {
    let mut s = SparseStorage::new();
    s.insert(Entity(3), 'a');
    s.insert(Entity(20), 'b');
    let mut it = (&s).join().iter;
    assert_eq!(it.may_skip(10), 10);
    assert_eq!(it.nth(10), Some(&'b'));
    assert_eq!(it.next(), None);
    let mut it = (&s).join().iter;
    assert_eq!(it.may_skip(3), 0);
    assert_eq!(it.next(), Some(&'a'));
}

#[test]
fn sparse_exclusive_skip_from_any_position_ahead() {
    let mut s = SparseStorage::new();
    s.insert(Entity(3), 'a');
    s.insert(Entity(20), 'b');
    s.insert(Entity(21), 'c');
    let mut joined = (&mut s).join();
    assert_eq!(joined.iter.may_skip(0), 3);
    assert_eq!(joined.iter.may_skip(3), 0);
    assert_eq!(joined.iter.next(), Some(&mut 'a'));
    assert_eq!(joined.iter.may_skip(10), 10);
    assert_eq!(joined.iter.nth(10), Some(&mut 'b'));
    assert_eq!(joined.iter.may_skip(21), 0);
    assert_eq!(joined.iter.next(), Some(&mut 'c'));
    assert_eq!(joined.iter.may_skip(22), usize::MAX);
}

#[test]
fn sparse_exclusive_skip_past_an_entry_is_zero() {
    let mut s = SparseStorage::new();
    s.insert(Entity(3), 'a');
    s.insert(Entity(20), 'b');
    let mut joined = (&mut s).join();
    assert_eq!(joined.iter.may_skip(5), 0);
    assert_eq!(joined.iter.next(), None);
    assert_eq!(joined.iter.may_skip(6), 14);
    assert_eq!(joined.iter.nth(14), Some(&mut 'b'));
}

#[test]
fn entities_asked_ahead_hand_out_the_position() {
    let mut it = Entities.join().iter;
    assert_eq!(it.may_skip(7), 0);
    assert_eq!(it.next(), Some(Entity(7)));
    assert_eq!(it.may_skip(8), 0);
    assert_eq!(it.nth(2), Some(Entity(10)));
}

#[test]
fn negated_sparse_asked_ahead_moves_on() {
    let mut s = SparseStorage::new();
    s.insert(Entity(5), 1);
    s.insert(Entity(6), 1);
    let mut it = (!&s).join().iter;
    assert_eq!(it.may_skip(5), 0);
    assert_eq!(it.next(), None);
    assert_eq!(it.next(), None);
    assert_eq!(it.next(), Some(()));
    assert_eq!(it.may_skip(20), 0);
    assert_eq!(it.next(), Some(()));
}

#[test]
fn tuple_of_sparse_and_entities_asked_ahead_stays_in_step() {
    let mut s = SparseStorage::new();
    s.insert(Entity(2), 'a');
    s.insert(Entity(9), 'b');
    let mut it = (&s, Entities).join().iter;
    assert_eq!(it.may_skip(4), 5);
    assert_eq!(it.nth(5), Some((&'b', Entity(9))));
    assert_eq!(it.may_skip(10), usize::MAX);
}
