use lox::lox_core::{InternPool, Interner, StateId, UsizeId};

#[test]
fn intern_pool_gives_each_value_one_id() {
    let mut pool: InternPool<StateId, u64> = InternPool::new();
    let a = pool.get_or_intern(10);
    let b = pool.get_or_intern(20);
    let a2 = pool.get_or_intern(10);
    assert_eq!(a, StateId(0));
    assert_eq!(b, StateId(1));
    assert_eq!(a2, a);
    assert_eq!(pool.len(), 2);
    assert_eq!(*pool.get_left(b), 20);
    assert_eq!(pool.keys(), vec![StateId(0), StateId(1)]);
}

#[test]
fn intern_pool_with_strings() {
    let mut pool: InternPool<StateId, String> = InternPool::new();
    let x = pool.get_or_intern("x".to_string());
    let y = pool.get_or_intern("y".to_string());
    assert_eq!(pool.get_or_intern("x".to_string()), x);
    assert_ne!(x, y);
    assert_eq!(pool.get_left(y), "y");
}

#[test]
fn interner_stores_every_value_anew() {
    let mut interner: Interner<StateId, u64> = Interner::new();
    let a = interner.intern(5);
    let b = interner.intern(5);
    assert_eq!(a, StateId(0));
    assert_eq!(b, StateId(1));
    assert_eq!(interner.len(), 2);
    assert_eq!(interner.get_right(&5), None);
    assert_eq!(*interner.get_left(b), 5);
    assert!(interner.all().is_empty());
}

#[test]
fn state_id_converts_both_ways() {
    assert_eq!(StateId::from_usize(7).into_usize(), 7);
}

#[test]
fn intern_pool_len_counts_distinct_values() {
    let mut pool: InternPool<StateId, u64> = InternPool::new();
    assert_eq!(pool.len(), 0);
    let values = [5u64, 9, 5, 7, 9, 9, 1];
    let ids: Vec<StateId> = values.iter().map(|v| pool.get_or_intern(*v)).collect();
    assert_eq!(pool.len(), 4);
    for (v, id) in values.iter().zip(ids.iter()) {
        assert_eq!(pool.get_left(*id), v);
    }
    assert_eq!(ids[0], ids[2]);
    assert_eq!(ids[1], ids[4]);
    let again = pool.get_or_intern(7);
    assert_eq!(again, ids[3]);
    assert_eq!(pool.len(), 4);
}
