use broker::concurrent_list::{ChunkReadGuard, ChunkWriteGuard, ConcurrentList};
use broker::util::{Handle, ReverseIterator, StoreRegistry};

#[test]
fn registry_holds_one_store_of_each_kind() {
    let mut registry = StoreRegistry::<String>::new();
    assert!(!registry.contains(1));
    assert!(registry.get_option(1).is_none());
    registry.add(1, "topics".to_string());
    registry.add(2, "logins".to_string());
    assert_eq!(registry.get(1), "topics");
    assert_eq!(registry.get_option(2), Some(&"logins".to_string()));
    assert_eq!(registry.try_add(1, "again".to_string()), Some("again".to_string()));
    assert_eq!(registry.get(1), "topics");
    assert_eq!(registry.try_add(3, "messages".to_string()), None);
    assert_eq!(registry.extract(1), Some("topics".to_string()));
    assert_eq!(registry.extract(1), None);
    assert!(!registry.contains(1));
    assert!(registry.contains(3));
    assert!(StoreRegistry::<u8>::default().get_option(0).is_none());
}

#[test]
fn reverse_iterator_steps_backward() {
    let list = ConcurrentList::from_vec(vec![1u8, 2, 3]);
    let mut cursor = list.reference();
    cursor.drain_forward(&list);
    let mut reversed = ReverseIterator::new(cursor);
    assert_eq!(reversed.inner().index(), 3);
    let mut seen = Vec::new();
    while let Some(guard) = reversed.next(&list) {
        seen.push(*guard.deref());
    }
    assert_eq!(seen, vec![3, 2, 1]);
    reversed.inner_mut().drain_forward(&list);
    assert_eq!(*reversed.next(&list).unwrap().deref(), 3);
    assert_eq!(reversed.into_inner().index(), 2);
    assert_eq!(ReverseIterator::<u8>::default().into_inner(), 0);
}

#[test]
fn handles_share_one_value() {
    let handle = Handle::<Vec<i32>>::new();
    let (mut values, writer) = handle.get_mut();
    values.push(1);
    writer.release_write(values);
    let other = handle.clone();
    let reader = other.get();
    assert_eq!(reader.borrow().len(), 1);
    reader.release_read();
    let (mut values, writer) = other.get_mut();
    values.push(2);
    writer.release_write(values);
    let reader = handle.get();
    assert_eq!(reader.borrow(), &vec![1, 2]);
    reader.release_read();
    let from = Handle::from_value(5u8);
    let reader = from.get();
    assert_eq!(*reader.borrow(), 5);
    reader.release_read();
    assert_eq!(*Handle::<u8>::default().get().borrow(), 0);
}

#[test]
fn guards_show_what_a_slot_holds() {
    let full = Some(3u8);
    let empty: Option<u8> = None;
    let guard = ChunkReadGuard::from_rwlock(&full);
    assert!(guard.is_some());
    assert_eq!(*guard.deref(), 3);
    assert_eq!(guard.deref_option(), &Some(3));
    assert!(!ChunkReadGuard::from_rwlock_read(&empty).is_some());
    let mut slot = Some(4u8);
    {
        let mut guard = ChunkWriteGuard::from_rwlock(&mut slot);
        assert_eq!(guard.deref_option(), &Some(4));
        *guard.deref_option_mut() = Some(5);
        assert_eq!(*guard.deref(), 5);
    }
    assert_eq!(slot, Some(5));
}
