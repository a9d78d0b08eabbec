use rc_arena::store::ChunkStore;

#[test]
fn chunk_store_growth_addresses() {
    let mut s: ChunkStore<u32> = ChunkStore::new(2);
    assert_eq!(s.count(), 0);
    assert!(s.has_room());
    assert_eq!(s.allocate(10), (0, 0));
    assert_eq!(s.allocate(11), (0, 1));
    assert_eq!(s.allocate(12), (1, 0));
    assert_eq!(s.allocate(13), (1, 1));
    assert_eq!(s.allocate(14), (1, 2));
    assert_eq!(s.count(), 5);
    assert_eq!(*s.get_index(0), 10);
    assert_eq!(*s.get_index(1), 11);
    assert_eq!(*s.get_index(2), 12);
    assert_eq!(*s.get_index(4), 14);
    assert!(s.has_room());
}

#[test]
fn chunk_store_keeps_order_across_growth() {
    let mut s: ChunkStore<u64> = ChunkStore::new(1);
    for k in 0..20u64 {
        s.allocate(k);
    }
    assert_eq!(s.count(), 20);
    for k in 0..20u64 {
        assert_eq!(*s.get_index(k as usize), k);
    }
}
