use crow_ecs::{Entities, Entity, Joinable, SparseStorage, Storage};

struct Lcg(u64);

impl Lcg {
    fn next(&mut self) -> u64 {
        self.0 = self.0.wrapping_mul(6364136223846793005).wrapping_add(1442695040888963407);
        self.0 >> 33
    }

    fn below(&mut self, n: u64) -> usize {
        (self.next() % n) as usize
    }
}

fn ids<T>(joined: Vec<(T, Entity)>) -> Vec<usize> {
    joined.into_iter().map(|(_, e)| e.0).collect()
}

fn ids_of_three<T, U>(joined: Vec<(T, Entity, U)>) -> Vec<usize> {
    joined.into_iter().map(|(_, e, _)| e.0).collect()
}

fn ids_of_four<T, U, V>(joined: Vec<(T, U, Entity, V)>) -> Vec<usize> {
    joined.into_iter().map(|(_, _, e, _)| e.0).collect()
}

#[test]
fn join_yields_exactly_the_common_identifiers() {
    let mut rng = Lcg(7);
    for _ in 0..50 {
        let mut a = Storage::new();
        let mut b = SparseStorage::new();
        let mut c = Storage::new();
        for _ in 0..20 {
            a.insert(Entity(rng.below(40)), rng.next());
            b.insert(Entity(rng.below(40)), rng.next());
            c.insert(Entity(rng.below(40)), rng.next());
        }
        a.insert(Entity(13), 1);
        b.insert(Entity(13), 2);
        c.insert(Entity(13), 3);
        let mut expected = Vec::new();
        for id in 0..40 {
            let e = Entity(id);
            if let (Some(x), Some(y), Some(z)) = (a.get(e), b.get(e), c.get(e)) {
                expected.push((x, y, z, e));
            }
        }
        assert!(!expected.is_empty());
        assert_eq!((&a, &b, &c, Entities).join().collect(), expected);
    }
}

#[test]
fn dense_and_sparse_storages_behave_alike() {
    let mut rng = Lcg(42);
    let mut dense: Storage<u64> = Storage::new();
    let mut sparse: SparseStorage<u64> = SparseStorage::new();
    let mut other_dense: Storage<u64> = Storage::new();
    let mut other_sparse: SparseStorage<u64> = SparseStorage::new();
    for step in 0..2000 {
        let id = Entity(rng.below(60));
        match rng.below(10) {
            0..=3 => {
                let v = rng.next();
                assert_eq!(dense.insert(id, v), sparse.insert(id, v));
            }
            4..=5 => assert_eq!(dense.remove(id), sparse.remove(id)),
            6 => {
                let v = rng.next();
                assert_eq!(other_dense.insert(id, v), other_sparse.insert(id, v));
            }
            7 => {
                let new = rng.next();
                let d = dense.get_mut(id).map(|v| std::mem::replace(v, new));
                let s = sparse.get_mut(id).map(|v| std::mem::replace(v, new));
                assert_eq!(d, s);
            }
            8 => assert_eq!(dense.get(id), sparse.get(id)),
            _ => {
                if step % 97 == 0 {
                    dense.clear();
                    sparse.clear();
                }
            }
        }
        if step % 50 == 0 {
            assert_eq!((&dense, Entities).join().collect(), (&sparse, Entities).join().collect());
            assert_eq!(
                (&dense, &other_dense, Entities).join().collect(),
                (&sparse, &other_sparse, Entities).join().collect()
            );
            assert_eq!(
                (&dense, !&other_dense, Entities).join().collect(),
                (&sparse, !&other_sparse, Entities).join().collect()
            );
            assert_eq!(
                (&other_dense, (&dense).maybe()).join().collect(),
                (&other_sparse, (&sparse).maybe()).join().collect()
            );
        }
    }
    assert_eq!(dense.drain().join().collect(), sparse.drain().join().collect());
    assert_eq!((&dense).join().collect(), (&sparse).join().collect());
}

#[test]
fn storage_joined_with_its_negation_yields_nothing() {
    let mut rng = Lcg(3);
    let mut dense = Storage::new();
    let mut sparse = SparseStorage::new();
    for _ in 0..30 {
        let id = Entity(rng.below(50));
        dense.insert(id, 0u8);
        sparse.insert(id, 0u8);
    }
    assert_eq!((&dense, !&dense).join().collect(), vec![]);
    assert_eq!((!&dense, &dense).join().collect(), vec![]);
    assert_eq!((&sparse, !&sparse).join().collect(), vec![]);
    assert_eq!((!&sparse, &sparse).join().collect(), vec![]);
}

#[test]
fn negation_joined_with_itself_is_the_negation() {
    let mut rng = Lcg(5);
    let mut dense = Storage::new();
    let mut sparse = SparseStorage::new();
    let mut range = Storage::new();
    for _ in 0..30 {
        let id = Entity(rng.below(50));
        dense.insert(id, 0u8);
        sparse.insert(id, 0u8);
    }
    for id in 0..60 {
        range.insert(Entity(id), ());
    }
    let once = ids_of_three((!&dense, Entities, &range).join().collect());
    let twice = ids_of_four((!&dense, !&dense, Entities, &range).join().collect());
    assert_eq!(once, twice);
    assert_eq!(once.len() + (&dense).join().collect().len(), 60);
    let once_sparse = ids_of_three((!&sparse, Entities, &range).join().collect());
    let twice_sparse = ids_of_four((!&sparse, !&sparse, Entities, &range).join().collect());
    assert_eq!(once_sparse, twice_sparse);
    assert_eq!(once_sparse, once);
}

#[test]
fn maybe_never_shortens_a_join() {
    let mut rng = Lcg(11);
    for _ in 0..20 {
        let mut a = Storage::new();
        let mut b = SparseStorage::new();
        for _ in 0..15 {
            a.insert(Entity(rng.below(30)), rng.next());
            b.insert(Entity(rng.below(30)), rng.next());
        }
        let alone = (&a, Entities).join();
        let paired = (&a, (&b).maybe(), Entities).join();
        assert_eq!(alone.len, paired.len);
        let alone = ids(alone.collect());
        let paired: Vec<usize> = paired.collect().into_iter().map(|(_, _, e)| e.0).collect();
        assert_eq!(alone, paired);

        let alone = (&b, Entities).join();
        let paired = (&b, (&a).maybe(), Entities).join();
        assert_eq!(alone.len, paired.len);
        let alone = ids(alone.collect());
        let paired: Vec<usize> = paired.collect().into_iter().map(|(_, _, e)| e.0).collect();
        assert_eq!(alone, paired);
    }
}

#[test]
fn drained_storage_is_empty() {
    let mut rng = Lcg(13);
    for round in 0..20 {
        let mut dense = Storage::new();
        let mut sparse = SparseStorage::new();
        let mut present = Vec::new();
        for _ in 0..15 {
            let id = Entity(rng.below(30));
            dense.insert(id, rng.next());
            sparse.insert(id, rng.next());
            present.push(id);
        }
        {
            let mut d = dense.drain().join();
            let mut s = sparse.drain().join();
            for _ in 0..round {
                d.next();
                s.next();
            }
        }
        for id in present {
            assert_eq!(dense.get(id), None);
            assert_eq!(sparse.get(id), None);
        }
    }
}

#[test]
fn joins_of_every_kind_match_a_probe_of_every_identifier() {
    let mut rng = Lcg(99);
    for _ in 0..40 {
        let mut a = Storage::new();
        let mut b = SparseStorage::new();
        let mut c = Storage::new();
        let mut d = SparseStorage::new();
        for _ in 0..rng.below(25) {
            a.insert(Entity(rng.below(35)), rng.next());
        }
        for _ in 0..rng.below(25) {
            b.insert(Entity(rng.below(35)), rng.next());
        }
        for _ in 0..rng.below(25) {
            c.insert(Entity(rng.below(35)), rng.next());
        }
        for _ in 0..rng.below(25) {
            d.insert(Entity(rng.below(35)), rng.next());
        }
        let mut expected = Vec::new();
        for id in 0..40 {
            let e = Entity(id);
            if let (Some(x), Some(y)) = (a.get(e), b.get(e)) {
                if c.get(e).is_none() && d.get(e).is_none() {
                    expected.push((x, y, (), (), c.get(e), d.get(e), e));
                }
            }
        }
        let found: Vec<_> = ((&a, &b, !&c, !&d), ((&c).maybe(), (&d).maybe(), Entities))
            .join()
            .collect()
            .into_iter()
            .map(|((x, y, n, m), (p, q, e))| (x, y, n, m, p, q, e))
            .collect();
        assert_eq!(found, expected);

        let mut expected = Vec::new();
        for id in 0..40 {
            let e = Entity(id);
            if let (Some(x), Some(y)) = (c.get(e), d.get(e)) {
                expected.push((*x, *y, a.get(e).copied(), b.get(e).copied(), e));
            }
        }
        let mut found = Vec::new();
        let mut joined = (&mut c, &mut d, (&a).maybe(), (&b).maybe(), Entities).join();
        while let Some((x, y, p, q, e)) = joined.next() {
            found.push((*x, *y, p.copied(), q.copied(), e));
            *x = 1;
            *y = 2;
        }
        assert_eq!(found, expected);
        for (_, _, _, _, e) in expected {
            assert_eq!(c.get(e), Some(&1));
            assert_eq!(d.get(e), Some(&2));
        }

        let mut expected = Vec::new();
        for id in 0..40 {
            let e = Entity(id);
            if let (Some(x), Some(y)) = (a.get(e), b.get(e)) {
                expected.push((*x, *y, e));
            }
        }
        assert_eq!((a.drain(), b.drain(), Entities).join().collect(), expected);
        assert_eq!((&a, Entities).join().collect(), vec![]);
        assert_eq!((&b, Entities).join().collect(), vec![]);
    }
}
