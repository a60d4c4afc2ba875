use broker::concurrent_list::{Appender, Chunk, ChunkIterator, ChunkRef, ConcurrentList};

fn texts(list: &ConcurrentList<String>) -> Vec<String> {
    list.values().into_iter().cloned().collect()
}

fn filled(cap: usize, items: &[&str]) -> ConcurrentList<String> {
    let mut list = ConcurrentList::new(cap);
    let mut cursor = list.reference();
    for item in items {
        cursor.push(&mut list, item.to_string());
    }
    list
}

#[test]
fn new_list_is_empty() {
    let list = ConcurrentList::<String>::new(4);
    assert_eq!(list.len(), 0);
    assert_eq!(list.nodes_count(), 1);
    let cursor = list.reference();
    assert_eq!(cursor.index(), 0);
    assert!(cursor.get(&list).is_none());
    assert!(texts(&list).is_empty());
}

#[test]
fn zero_chunk_size_is_rejected() {
    assert!(ConcurrentList::<u8>::try_new(0).is_none());
    assert!(ConcurrentList::<u8>::try_new(1).is_some());
}

#[test]
fn push_assigns_consecutive_indices() {
    let mut list = ConcurrentList::new(2);
    let mut cursor = list.reference();
    for expected in 0..5usize {
        let index = cursor.push(&mut list, format!("v{expected}"));
        assert_eq!(index, expected);
    }
    assert_eq!(list.len(), 5);
    assert_eq!(list.nodes_count(), 3);
    assert_eq!(texts(&list), vec!["v0", "v1", "v2", "v3", "v4"]);
}

#[test]
fn try_push_appends_when_there_is_room() {
    let mut list = ConcurrentList::new(3);
    let mut cursor = list.reference();
    assert_eq!(cursor.try_push(&mut list, 7u32), Ok(0));
    assert_eq!(cursor.try_push(&mut list, 8u32), Ok(1));
    assert_eq!(list.len(), 2);
}

#[test]
fn chunk_start_indices_follow_capacity() {
    let list = filled(3, &["a", "b", "c", "d", "e", "f", "g"]);
    assert_eq!(list.nodes_count(), 3);
    assert_eq!(list.node(0).node_start_index(), 0);
    assert_eq!(list.node(1).node_start_index(), 3);
    assert_eq!(list.node(2).node_start_index(), 6);
    assert_eq!(list.node(0).node_len(), 3);
    assert_eq!(list.node(2).node_len(), 1);
    assert_eq!(list.node(1).node_capacity(), 3);
    assert_eq!(list.node(0).next_node(), Some(1));
    assert_eq!(list.node(1).prev_node(), Some(0));
    assert_eq!(list.node(2).next_node(), None);
    assert_eq!(list.node(0).prev_node(), None);
}

#[test]
fn forward_iteration_yields_in_order() {
    let list = filled(2, &["a", "b", "c"]);
    let mut cursor = list.reference();
    let mut seen = Vec::new();
    while let Some(guard) = cursor.next(&list) {
        seen.push(guard.deref().clone());
    }
    assert_eq!(seen, vec!["a", "b", "c"]);
    assert_eq!(cursor.index(), 2);
    assert!(cursor.next(&list).is_none());
    assert_eq!(cursor.index(), 2);
}

#[test]
fn tailing_resumes_after_the_end() {
    let mut list = ConcurrentList::new(2);
    let mut tailer = list.reference();
    tailer.drain_forward(&list);
    assert!(tailer.next(&list).is_none());
    let mut writer = list.reference();
    writer.push(&mut list, "m1".to_string());
    writer.push(&mut list, "m2".to_string());
    assert_eq!(tailer.next(&list).unwrap().deref(), "m1");
    assert_eq!(tailer.next(&list).unwrap().deref(), "m2");
    assert!(tailer.next(&list).is_none());
    writer.push(&mut list, "m3".to_string());
    assert_eq!(tailer.next(&list).unwrap().deref(), "m3");
    assert!(tailer.next(&list).is_none());
}

#[test]
fn tailing_from_a_full_chunk_crosses_into_the_next() {
    let mut list = filled(2, &["a", "b"]);
    let mut tailer = list.reference();
    tailer.drain_forward(&list);
    assert_eq!(tailer.index(), 2);
    assert!(tailer.next(&list).is_none());
    let mut writer = list.reference();
    assert_eq!(writer.push(&mut list, "c".to_string()), 2);
    assert_eq!(list.nodes_count(), 2);
    assert_eq!(tailer.next(&list).unwrap().deref(), "c");
    assert_eq!(tailer.index(), 2);
    assert_eq!(writer.push(&mut list, "d".to_string()), 3);
    assert_eq!(tailer.next(&list).unwrap().deref(), "d");
}

#[test]
fn backward_iteration_from_the_frontier() {
    let list = filled(2, &["a", "b", "c"]);
    let mut cursor = list.reference();
    cursor.drain_forward(&list);
    let mut seen = Vec::new();
    while let Some(guard) = cursor.next_back(&list) {
        seen.push(guard.deref().clone());
    }
    assert_eq!(seen, vec!["c", "b", "a"]);
    assert_eq!(cursor.index(), 0);
    assert!(cursor.next_back(&list).is_none());
}

#[test]
fn drain_backwards_rewinds_to_the_first_slot() {
    let list = filled(2, &["a", "b", "c"]);
    let mut cursor = list.reference();
    cursor.drain_forward(&list);
    cursor.drain_backwards(&list);
    assert_eq!(cursor.index(), 0);
    assert_eq!(cursor.chunk(), 0);
    assert_eq!(cursor.next(&list).unwrap().deref(), "a");
}

#[test]
fn owed_flag_decides_whether_the_current_slot_is_yielded() {
    let list = filled(4, &["a", "b"]);
    let mut cursor = list.reference();
    cursor.return_current_elem_on_iteration(false);
    assert_eq!(cursor.next(&list).unwrap().deref(), "b");
    let mut cursor = list.reference();
    cursor.return_current_elem_on_iteration(true);
    assert_eq!(cursor.next(&list).unwrap().deref(), "a");
}

#[test]
fn stepping_moves_one_slot() {
    let list = filled(2, &["a", "b", "c"]);
    let mut cursor = list.reference();
    assert_eq!(cursor.go_prev(&list), Err(()));
    assert_eq!(cursor.go_next(&list), Ok(()));
    assert_eq!(cursor.index(), 1);
    assert_eq!(cursor.go_next(&list), Ok(()));
    assert_eq!((cursor.chunk(), cursor.index()), (1, 2));
    assert_eq!(cursor.go_next(&list), Err(()));
    assert_eq!(cursor.index(), 2);
    assert_eq!(cursor.go_prev(&list), Ok(()));
    assert_eq!((cursor.chunk(), cursor.index()), (0, 1));
    assert_eq!(cursor.get(&list).unwrap().deref(), "b");
}

#[test]
fn walking_between_chunks() {
    let list = filled(2, &["a", "b", "c", "d", "e"]);
    let mut cursor = list.reference();
    assert_eq!(cursor.go_prev_node(&list), Err(()));
    assert_eq!(cursor.go_next_node(&list), Ok(()));
    assert_eq!((cursor.chunk(), cursor.index()), (1, 2));
    cursor.go_to_front_node(&list);
    assert_eq!((cursor.chunk(), cursor.index()), (2, 4));
    assert_eq!(cursor.go_next_node(&list), Err(()));
    cursor.go_to_back_node(&list);
    assert_eq!((cursor.chunk(), cursor.index()), (0, 0));
    assert_eq!(cursor.go_to_node_with_index(&list, 3), Ok(()));
    assert_eq!(cursor.chunk(), 1);
    assert_eq!(cursor.go_to_node_with_index(&list, 5), Ok(()));
    assert_eq!(cursor.chunk(), 2);
    assert_eq!(cursor.go_to_node_with_index(&list, 6), Err(()));
    assert_eq!(cursor.chunk(), 2);
    assert_eq!(cursor.go_to_node_with_index(&list, 0), Ok(()));
    assert_eq!(cursor.chunk(), 0);
    cursor.set_chunk(&list, 1);
    assert_eq!((cursor.chunk(), cursor.index()), (1, 2));
}

#[test]
fn new_at_accepts_reserved_slots_and_chunk_starts() {
    let list = filled(2, &["a", "b", "c"]);
    assert_eq!(ChunkRef::new_at(&list, 0, 2).unwrap().index(), 2);
    assert_eq!(ChunkRef::new_at(&list, 0, 2).unwrap().chunk(), 1);
    assert_eq!(ChunkRef::new_at(&list, 1, 0).unwrap().index(), 2);
    assert!(ChunkRef::new_at(&list, 0, 3).is_none());
    assert!(ChunkRef::new_at(&list, 1, 1).is_none());
    assert!(ChunkRef::new_at(&list, 0, 4).is_none());
    let empty = ConcurrentList::<String>::new(2);
    assert!(ChunkRef::new_at(&empty, 0, 0).is_some());
    assert!(ChunkRef::new_at(&empty, 0, 1).is_none());
}

#[test]
fn remove_leaves_a_tombstone() {
    let mut list = filled(2, &["a", "b", "c"]);
    let mut cursor = list.reference();
    assert_eq!(cursor.remove_at(&mut list, 1), Some("b".to_string()));
    assert_eq!(list.len(), 3);
    assert_eq!(texts(&list), vec!["a", "c"]);
    let mut reader = list.reference();
    assert!(reader.next(&list).unwrap().is_some());
    let tombstone = reader.next(&list).unwrap();
    assert!(!tombstone.is_some());
    assert!(tombstone.deref_option().is_none());
    assert_eq!(reader.next(&list).unwrap().deref(), "c");
}

#[test]
fn removing_twice_changes_nothing_more() {
    let mut list = filled(2, &["a", "b", "c"]);
    let mut cursor = list.reference();
    assert_eq!(cursor.remove_at(&mut list, 2), Some("c".to_string()));
    let after_first = texts(&list);
    assert_eq!(cursor.remove_at(&mut list, 2), None);
    assert_eq!(texts(&list), after_first);
    assert_eq!(list.len(), 3);
    assert_eq!(list.nodes_count(), 2);
}

#[test]
fn removing_an_unreserved_slot_yields_nothing() {
    let mut list = filled(2, &["a", "b", "c"]);
    let mut cursor = list.reference();
    assert_eq!(cursor.remove_at(&mut list, 3), None);
    assert_eq!(cursor.remove_at(&mut list, 100), None);
    assert_eq!(texts(&list), vec!["a", "b", "c"]);
}

#[test]
fn push_after_remove_keeps_indices() {
    let mut list = filled(2, &["a", "b"]);
    let mut cursor = list.reference();
    cursor.remove_at(&mut list, 0);
    assert_eq!(cursor.push(&mut list, "c".to_string()), 2);
    assert_eq!(texts(&list), vec!["b", "c"]);
}

#[test]
fn write_guard_replaces_a_slot() {
    let mut list = filled(2, &["a", "b", "c"]);
    let mut cursor = list.reference();
    cursor.go_next(&list).unwrap();
    {
        let mut guard = cursor.get_mut(&mut list).unwrap();
        assert_eq!(guard.deref(), "b");
        *guard.deref_option_mut() = Some("B".to_string());
    }
    assert_eq!(texts(&list), vec!["a", "B", "c"]);
    {
        let mut guard = cursor.get_mut(&mut list).unwrap();
        assert_eq!(guard.take(), Some("B".to_string()));
        assert!(guard.deref_option().is_none());
    }
    assert_eq!(texts(&list), vec!["a", "c"]);
}

#[test]
fn from_vec_keeps_order() {
    let items: Vec<u32> = (0..600).collect();
    let list = ConcurrentList::from_vec(items.clone());
    assert_eq!(list.len(), 600);
    assert_eq!(list.nodes_count(), 3);
    let values: Vec<u32> = list.values().into_iter().copied().collect();
    assert_eq!(values, items);
}

#[test]
fn chunk_reads_only_reserved_slots() {
    let mut nodes = vec![Chunk::<u8>::new(None, 2)];
    assert!(nodes[0].at(0).is_none());
    assert_eq!(Chunk::push(&mut nodes, 0, 5), 0);
    assert_eq!(nodes[0].at(0).unwrap().deref_option(), &Some(5));
    assert!(nodes[0].at(1).is_none());
    assert!(nodes[0].at_mut(1).is_none());
    assert_eq!(nodes[0].remove_at(1), None);
    assert_eq!(nodes[0].remove_at(0), Some(5));
    assert_eq!(nodes[0].remove_at(0), None);
    assert_eq!(nodes[0].node_len(), 1);
}

#[test]
fn chunk_counts_walk_the_chain() {
    let mut nodes = vec![Chunk::<u8>::new(None, 2)];
    for value in 0..5u8 {
        Chunk::push(&mut nodes, 0, value);
    }
    assert_eq!(nodes.len(), 3);
    assert_eq!(Chunk::front_elems_count(&nodes, 0), 5);
    assert_eq!(Chunk::front_elems_count(&nodes, 1), 3);
    assert_eq!(Chunk::back_elems_count(&nodes, 2), 4);
    assert_eq!(Chunk::back_elems_count(&nodes, 0), 0);
    assert_eq!(Chunk::front_nodes_count(&nodes, 1), 2);
    assert_eq!(Chunk::back_nodes_count(&nodes, 2), 2);
    assert_eq!(nodes[2].node_id(), 2);
}

fn run_to_end(nodes: &mut Vec<Chunk<u32>>, mut appender: Appender<u32>) -> usize {
    loop {
        appender = Chunk::push_step(nodes, appender);
        if let Appender::Done { index } = appender {
            return index;
        }
    }
}

#[test]
fn two_appends_racing_for_one_slot() {
    let mut nodes = vec![Chunk::<u32>::new(None, 4)];
    let a = Chunk::push_step(&mut nodes, Appender::Start { chunk: 0, val: 10 });
    let b = Chunk::push_step(&mut nodes, Appender::Start { chunk: 0, val: 20 });
    assert!(matches!(a, Appender::Observed { chunk: 0, len: 0, val: 10 }));
    assert!(matches!(b, Appender::Observed { chunk: 0, len: 0, val: 20 }));
    let a = Chunk::push_step(&mut nodes, a);
    assert!(matches!(a, Appender::Reserved { chunk: 0, slot: 0, val: 10 }));
    // The slot is taken: the second append has to read the length again.
    let b = Chunk::push_step(&mut nodes, b);
    assert!(matches!(b, Appender::Start { chunk: 0, val: 20 }));
    // A reserved slot that is not written yet reads as empty.
    assert_eq!(nodes[0].at(0).unwrap().deref_option(), &None);
    let index_b = run_to_end(&mut nodes, b);
    let index_a = run_to_end(&mut nodes, a);
    assert_eq!((index_a, index_b), (0, 1));
    assert_eq!(nodes[0].at(0).unwrap().deref_option(), &Some(10));
    assert_eq!(nodes[0].at(1).unwrap().deref_option(), &Some(20));
}

#[test]
fn two_appends_racing_to_install_a_chunk() {
    let mut nodes = vec![Chunk::<u32>::new(None, 1)];
    Chunk::push(&mut nodes, 0, 1);
    let mut a = Appender::Start { chunk: 0, val: 10 };
    let mut b = Appender::Start { chunk: 0, val: 20 };
    for _ in 0..2 {
        a = Chunk::push_step(&mut nodes, a);
        b = Chunk::push_step(&mut nodes, b);
    }
    assert!(matches!(a, Appender::Install { chunk: 0, val: 10 }));
    assert!(matches!(b, Appender::Install { chunk: 0, val: 20 }));
    let a = Chunk::push_step(&mut nodes, a);
    assert!(matches!(a, Appender::Start { chunk: 1, val: 10 }));
    assert_eq!(nodes.len(), 2);
    // The other append finds a successor installed and drops its own.
    let b = Chunk::push_step(&mut nodes, b);
    assert!(matches!(b, Appender::Start { chunk: 0, val: 20 }));
    assert_eq!(nodes.len(), 2);
    let index_a = run_to_end(&mut nodes, a);
    let index_b = run_to_end(&mut nodes, b);
    assert_eq!((index_a, index_b), (1, 2));
    assert_eq!(nodes.len(), 3);
}

#[test]
fn interleaved_appends_lose_nothing() {
    let writers = 4u32;
    let each = 5u32;
    let mut nodes = vec![Chunk::<u32>::new(None, 3)];
    let mut indices = Vec::new();
    for round in 0..each {
        let mut appenders: Vec<Option<Appender<u32>>> = (0..writers)
            .map(|w| Some(Appender::Start { chunk: 0, val: w * 100 + round }))
            .collect();
        let mut running = writers;
        let mut turn = 0usize;
        while running > 0 {
            // Writers take turns in an uneven order, one step at a time.
            let who = (turn * 3 + turn / 2) % writers as usize;
            turn += 1;
            if let Some(appender) = appenders[who].take() {
                match Chunk::push_step(&mut nodes, appender) {
                    Appender::Done { index } => {
                        indices.push(index);
                        running -= 1;
                    }
                    next => appenders[who] = Some(next),
                }
            }
        }
    }
    let total = (writers * each) as usize;
    assert_eq!(Chunk::front_elems_count(&nodes, 0), total);
    let mut sorted = indices.clone();
    sorted.sort();
    assert_eq!(sorted, (0..total).collect::<Vec<_>>());
    let mut values = Vec::new();
    for node in &nodes {
        for slot in 0..node.node_len() {
            values.push(node.at(slot).unwrap().deref_option().unwrap());
        }
    }
    values.sort();
    let mut expected: Vec<u32> =
        (0..writers).flat_map(|w| (0..each).map(move |r| w * 100 + r)).collect();
    expected.sort();
    assert_eq!(values, expected);
}

#[test]
fn value_walk_passes_over_tombstones() {
    let mut list = filled(2, &["a", "b", "c", "d"]);
    let mut cursor = list.reference();
    cursor.remove_at(&mut list, 0);
    cursor.remove_at(&mut list, 2);
    let mut walk = ChunkIterator::over(&list);
    assert_eq!(walk.next(&list).unwrap().deref(), "b");
    assert_eq!(walk.next(&list).unwrap().deref(), "d");
    assert!(walk.next(&list).is_none());
    cursor.push(&mut list, "e".to_string());
    assert_eq!(walk.next(&list).unwrap().deref(), "e");
    let mut late = ChunkIterator::new(ChunkRef::new_at(&list, 1, 0).unwrap());
    assert_eq!(late.next(&list).unwrap().deref(), "d");
}
