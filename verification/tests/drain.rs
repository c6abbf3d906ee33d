use crow_ecs::{Entities, Entity, Join, Joinable, SparseStorage, Storage};

#[test]
fn dense_drain_yields_every_value_and_empties_the_storage() {
    let mut s = Storage::new();
    s.insert(Entity(1), 'a');
    s.insert(Entity(4), 'b');
    s.insert(Entity(5), 'c');
    assert_eq!(s.drain().join().collect(), vec!['a', 'b', 'c']);
    for id in 0..8 {
        assert_eq!(s.get(Entity(id)), None);
    }
    assert_eq!((&s).join().len, 6);
}

#[test]
fn dense_drain_let_go_early_empties_the_storage() {
    let mut s = Storage::new();
    s.insert(Entity(1), 'a');
    s.insert(Entity(4), 'b');
    {
        let mut joined = s.drain().join();
        assert_eq!(joined.next(), Some('a'));
    }
    assert_eq!(s.get(Entity(1)), None);
    assert_eq!(s.get(Entity(4)), None);
    {
        s.insert(Entity(2), 'c');
        let _ = s.drain();
    }
    assert_eq!(s.get(Entity(2)), None);
    assert_eq!((&s).join().len, 5);
}

#[test]
fn dense_drain_in_a_tuple_yields_the_matches() {
    let mut s = Storage::new();
    let mut t = Storage::new();
    s.insert(Entity(0), 1);
    s.insert(Entity(2), 3);
    s.insert(Entity(6), 7);
    t.insert(Entity(2), 'x');
    t.insert(Entity(3), 'y');
    assert_eq!((s.drain(), &t, Entities).join().collect(), vec![(3, &'x', Entity(2))]);
    assert_eq!((&s).join().collect(), Vec::<&i32>::new());
    assert_eq!(t.get(Entity(2)), Some(&'x'));
}

#[test]
fn dense_drain_strategy_skips_and_pulls() {
    let mut s = Storage::new();
    s.insert(Entity(2), 1);
    s.insert(Entity(3), 2);
    s.insert(Entity(7), 3);
    let mut drain = s.drain();
    assert_eq!(drain.may_skip(0), 2);
    assert_eq!(drain.nth(2), Some(1));
    assert_eq!(drain.may_skip(3), 0);
    assert_eq!(drain.next(), Some(2));
    assert_eq!(drain.may_skip(4), 3);
    assert_eq!(drain.nth(3), Some(3));
    assert_eq!(drain.may_skip(8), 0);
    assert_eq!(drain.next(), None);
    assert_eq!(drain.may_skip(9), 0);
    assert_eq!(drain.nth(3), None);
}

#[test]
fn dense_drain_removes_what_it_passes_over() {
    let mut s = Storage::new();
    s.insert(Entity(0), 1);
    s.insert(Entity(1), 2);
    s.insert(Entity(2), 3);
    s.insert(Entity(3), 4);
    let mut drain = s.drain();
    assert_eq!(drain.nth(2), Some(3));
    assert_eq!(drain.may_skip(3), 0);
    assert_eq!(drain.next(), Some(4));
    assert_eq!(drain.may_skip(4), 0);
    assert_eq!(drain.next(), None);
}

#[test]
fn dense_drain_asked_ahead_moves_on() {
    let mut s = Storage::new();
    s.insert(Entity(0), 1);
    s.insert(Entity(3), 2);
    s.insert(Entity(6), 3);
    let mut drain = s.drain();
    assert_eq!(drain.may_skip(1), 2);
    assert_eq!(drain.nth(2), Some(2));
    assert_eq!(drain.may_skip(5), 1);
    assert_eq!(drain.may_skip(6), 0);
    assert_eq!(drain.next(), Some(3));
    assert_eq!(drain.may_skip(9), 0);
    assert_eq!(drain.next(), None);
}

#[test]
fn sparse_drain_asked_ahead_moves_on() {
    let mut s = SparseStorage::new();
    s.insert(Entity(0), 1);
    s.insert(Entity(30), 2);
    s.insert(Entity(60), 3);
    let mut drain = s.drain();
    assert_eq!(drain.may_skip(1), 29);
    assert_eq!(drain.nth(29), Some(2));
    assert_eq!(drain.may_skip(50), 10);
    assert_eq!(drain.may_skip(60), 0);
    assert_eq!(drain.next(), Some(3));
    assert_eq!(drain.may_skip(61), usize::MAX);
    assert_eq!(drain.next(), None);
}

#[test]
fn sparse_drain_yields_every_value_and_empties_the_storage() {
    let mut s = SparseStorage::new();
    s.insert(Entity(1), 'a');
    s.insert(Entity(40), 'b');
    s.insert(Entity(41), 'c');
    assert_eq!(s.drain().join().collect(), vec!['a', 'b', 'c']);
    assert_eq!(s.get(Entity(1)), None);
    assert_eq!(s.get(Entity(40)), None);
    assert_eq!(s.get(Entity(41)), None);
    assert_eq!((&s).join().len, 0);
}

#[test]
fn sparse_drain_let_go_early_empties_the_storage() {
    let mut s = SparseStorage::new();
    s.insert(Entity(1), 'a');
    s.insert(Entity(40), 'b');
    {
        let mut joined = s.drain().join();
        assert_eq!(joined.next(), Some('a'));
    }
    assert_eq!(s.get(Entity(1)), None);
    assert_eq!(s.get(Entity(40)), None);
    {
        s.insert(Entity(2), 'c');
        let _ = s.drain();
    }
    assert_eq!(s.get(Entity(2)), None);
}

#[test]
fn sparse_drain_in_a_tuple_yields_the_matches() {
    let mut s = SparseStorage::new();
    let mut t = SparseStorage::new();
    s.insert(Entity(0), 1);
    s.insert(Entity(20), 3);
    s.insert(Entity(60), 7);
    t.insert(Entity(20), 'x');
    t.insert(Entity(30), 'y');
    assert_eq!((s.drain(), &t, Entities).join().collect(), vec![(3, &'x', Entity(20))]);
    assert_eq!((&s).join().collect(), Vec::<&i32>::new());
    assert_eq!(t.get(Entity(20)), Some(&'x'));
}

#[test]
fn sparse_drain_strategy_skips_and_pulls() {
    let mut s = SparseStorage::new();
    s.insert(Entity(2), 1);
    s.insert(Entity(3), 2);
    s.insert(Entity(70), 3);
    let mut drain = s.drain();
    assert_eq!(drain.may_skip(0), 2);
    assert_eq!(drain.nth(2), Some(1));
    assert_eq!(drain.may_skip(3), 0);
    assert_eq!(drain.next(), Some(2));
    assert_eq!(drain.may_skip(4), 66);
    assert_eq!(drain.nth(66), Some(3));
    assert_eq!(drain.may_skip(71), usize::MAX);
    assert_eq!(drain.next(), None);
}

#[test]
fn drains_of_both_kinds_join() {
    let mut s = Storage::new();
    let mut t = SparseStorage::new();
    for id in [1usize, 2, 3, 4] {
        s.insert(Entity(id), id);
    }
    for id in [2usize, 4, 6] {
        t.insert(Entity(id), id * 10);
    }
    assert_eq!((s.drain(), t.drain()).join().collect(), vec![(2, 20), (4, 40)]);
    assert_eq!((&s).join().collect(), Vec::<&usize>::new());
    assert_eq!((&t).join().collect(), Vec::<&usize>::new());
}

#[test]
fn maybe_of_a_drain() {
    let mut s = Storage::new();
    s.insert(Entity(1), 'a');
    let mut joined = s.drain().maybe().join();
    assert_eq!(joined.next(), Some(None));
    assert_eq!(joined.next(), Some(Some('a')));
    assert_eq!(joined.next(), Some(None));
}
