use anylist::{AnyList, AnyListError};

fn list_of(values: &[u32]) -> AnyList {
    let mut list = AnyList::new::<u32>();
    for v in values {
        list.push::<u32>(*v).unwrap();
    }
    list
}

#[test]
fn pushes_keep_order_and_count() {
    let mut list = AnyList::new::<i64>();
    let values: Vec<i64> = (0..50).map(|k| k * 7 - 100).collect();
    for v in &values {
        list.push::<i64>(*v).unwrap();
    }
    assert_eq!(list.len(), 50);
    for (k, v) in values.iter().enumerate() {
        assert_eq!(list.get::<i64>(k).unwrap(), *v);
    }
}

#[test]
fn set_then_get_round_trip() {
    let mut list = list_of(&[10, 20, 30]);
    list.set::<u32>(1, 0xdead_beef).unwrap();
    assert_eq!(list.get::<u32>(1).unwrap(), 0xdead_beef);
    assert_eq!(list.as_slice::<u32>().unwrap(), &[10, 0xdead_beef, 30]);
}

#[test]
fn insert_then_remove_restores() {
    let mut list = list_of(&[4, 5, 6, 7]);
    list.insert::<u32>(2, 99).unwrap();
    assert_eq!(list.as_slice::<u32>().unwrap(), &[4, 5, 99, 6, 7]);
    assert_eq!(list.remove::<u32>(2).unwrap(), 99);
    assert_eq!(list.as_slice::<u32>().unwrap(), &[4, 5, 6, 7]);
}

#[test]
fn remove_then_insert_restores() {
    let mut list = list_of(&[4, 5, 6, 7]);
    let removed = list.remove::<u32>(1).unwrap();
    assert_eq!(removed, 5);
    list.insert::<u32>(1, removed).unwrap();
    assert_eq!(list.as_slice::<u32>().unwrap(), &[4, 5, 6, 7]);
}

#[test]
fn capacity_never_shrinks() {
    let mut list = list_of(&[1, 2, 3, 4, 5, 6]);
    let mut last = list.capacity();
    while list.len() > 0 {
        list.untyped_pop().unwrap();
        assert!(list.capacity() >= last);
        last = list.capacity();
    }
    list.insert::<u32>(0, 1).unwrap();
    assert!(list.capacity() >= last);
    assert_eq!(list.capacity(), 8);
}

#[test]
fn growth_follows_sequence() {
    let mut list = AnyList::new::<u32>();
    assert_eq!(list.capacity(), 1);
    let mut seen = vec![list.capacity()];
    for v in 0..14u32 {
        list.push::<u32>(v).unwrap();
        if *seen.last().unwrap() != list.capacity() {
            seen.push(list.capacity());
        }
        assert!(list.capacity() >= list.len());
    }
    assert_eq!(seen, vec![1, 2, 3, 5, 8, 13, 21]);
}

#[test]
fn growth_only_when_full() {
    let mut list = AnyList::new::<u8>();
    let expected = [1, 2, 3, 5, 5, 8, 8, 8, 13];
    for (k, cap) in expected.iter().enumerate() {
        list.push::<u8>(k as u8).unwrap();
        assert_eq!(list.capacity(), *cap);
    }
}

#[test]
fn boundary_errors() {
    let mut list = list_of(&[1, 2]);
    assert_eq!(list.get::<u32>(list.len()), Err(AnyListError::IndexOutOfBounds));
    assert_eq!(list.insert::<u32>(list.len() + 1, 9), Err(AnyListError::IndexOutOfBounds));
    assert_eq!(list.remove::<u32>(2), Err(AnyListError::IndexOutOfBounds));
    assert_eq!(list.untyped_remove(2), Err(AnyListError::IndexOutOfBounds));
    assert_eq!(list.set::<u32>(2, 0), Err(AnyListError::IndexOutOfBounds));
    assert_eq!(list.as_slice::<u32>().unwrap(), &[1, 2]);

    let mut empty = AnyList::new::<u32>();
    assert_eq!(empty.pop::<u32>(), Err(AnyListError::EmptyPop));
    assert_eq!(empty.untyped_pop(), Err(AnyListError::EmptyPop));
    assert_eq!(empty.len(), 0);
    assert_eq!(empty.capacity(), 1);
}

#[test]
fn insert_at_end_appends() {
    let mut list = list_of(&[1, 2]);
    list.insert::<u32>(2, 3).unwrap();
    assert_eq!(list.as_slice::<u32>().unwrap(), &[1, 2, 3]);
}

#[test]
fn type_mismatch_leaves_list_unchanged() {
    let mut list = list_of(&[1, 2, 3]);
    let cap = list.capacity();
    assert_eq!(list.push::<u64>(4), Err(AnyListError::TypeMismatch));
    assert_eq!(list.push::<u8>(4), Err(AnyListError::TypeMismatch));
    assert_eq!(list.push::<i32>(4), Err(AnyListError::TypeMismatch));
    assert_eq!(list.insert::<u16>(0, 4), Err(AnyListError::TypeMismatch));
    assert_eq!(list.get::<i32>(0), Err(AnyListError::TypeMismatch));
    assert_eq!(list.set::<u64>(0, 4), Err(AnyListError::TypeMismatch));
    assert_eq!(list.pop::<usize>(), Err(AnyListError::TypeMismatch));
    assert_eq!(list.remove::<i64>(0), Err(AnyListError::TypeMismatch));
    assert_eq!(list.as_slice::<u8>(), Err(AnyListError::TypeMismatch));
    assert_eq!(list.as_slice::<u32>().unwrap(), &[1, 2, 3]);
    assert_eq!(list.capacity(), cap);
}

#[test]
fn type_check_comes_before_bounds() {
    let mut empty = AnyList::new::<u32>();
    assert_eq!(empty.pop::<u64>(), Err(AnyListError::TypeMismatch));
    assert_eq!(empty.get::<u64>(5), Err(AnyListError::TypeMismatch));
}

#[test]
fn remove_then_reinsert_scenario() {
    let mut list = AnyList::new::<u32>();
    list.push::<u32>(1).unwrap();
    list.push::<u32>(2).unwrap();
    list.push::<u32>(3).unwrap();
    assert_eq!(list.get::<u32>(0).unwrap(), 1);
    assert_eq!(list.get::<u32>(1).unwrap(), 2);
    assert_eq!(list.get::<u32>(2).unwrap(), 3);
    list.untyped_remove(1).unwrap();
    assert_eq!(list.as_slice::<u32>().unwrap(), &[1, 3]);
    list.insert::<u32>(1, 2).unwrap();
    assert_eq!(list.as_slice::<u32>().unwrap(), &[1, 2, 3]);
}

#[test]
fn mixed_operations_scenario() {
    let mut list = AnyList::new::<u32>();
    list.push::<u32>(1).unwrap();
    list.insert::<u32>(1, 2).unwrap();
    list.push::<u32>(3).unwrap();
    assert_eq!(list.as_slice::<u32>().unwrap(), &[1, 2, 3]);
    list.remove::<u32>(0).unwrap();
    assert_eq!(list.as_slice::<u32>().unwrap(), &[2, 3]);
    assert_eq!(list.pop::<u32>().unwrap(), 3);
    assert_eq!(list.as_slice::<u32>().unwrap(), &[2]);
    list.insert::<u32>(0, 1).unwrap();
    assert_eq!(list.as_slice::<u32>().unwrap(), &[1, 2]);
}

#[test]
fn pop_returns_last() {
    let mut list = list_of(&[7, 8, 9]);
    assert_eq!(list.pop::<u32>().unwrap(), 9);
    assert_eq!(list.pop::<u32>().unwrap(), 8);
    assert_eq!(list.len(), 1);
    assert_eq!(list.capacity(), 3);
}

#[test]
fn every_element_type_round_trips() {
    let mut a = AnyList::new::<u8>();
    a.push::<u8>(0xab).unwrap();
    assert_eq!(a.get::<u8>(0).unwrap(), 0xab);

    let mut b = AnyList::new::<u16>();
    b.push::<u16>(0xbeef).unwrap();
    assert_eq!(b.get::<u16>(0).unwrap(), 0xbeef);

    let mut c = AnyList::new::<u64>();
    c.push::<u64>(u64::MAX - 12345).unwrap();
    assert_eq!(c.get::<u64>(0).unwrap(), u64::MAX - 12345);

    let mut d = AnyList::new::<usize>();
    d.push::<usize>(usize::MAX).unwrap();
    assert_eq!(d.get::<usize>(0).unwrap(), usize::MAX);

    let mut e = AnyList::new::<i32>();
    e.push::<i32>(-5).unwrap();
    e.push::<i32>(i32::MIN).unwrap();
    assert_eq!(e.as_slice::<i32>().unwrap(), &[-5, i32::MIN]);

    let mut f = AnyList::new::<i64>();
    f.push::<i64>(i64::MIN + 1).unwrap();
    assert_eq!(f.pop::<i64>().unwrap(), i64::MIN + 1);
}

#[test]
fn same_size_types_are_told_apart() {
    let mut list = AnyList::new::<i32>();
    list.push::<i32>(-1).unwrap();
    assert_eq!(list.get::<u32>(0), Err(AnyListError::TypeMismatch));
    let mut wide = AnyList::new::<usize>();
    wide.push::<usize>(3).unwrap();
    assert_eq!(wide.get::<u64>(0), Err(AnyListError::TypeMismatch));
    assert_eq!(wide.get::<i64>(0), Err(AnyListError::TypeMismatch));
}
