use rc_arena::Arena;
use rc_arena::ArenaError;

use std::sync::mpsc::channel;
use std::sync::mpsc::Sender;
use std::sync::mpsc::TryRecvError;

struct Foo {
    tx: Sender<()>,
}

impl Drop for Foo {
    fn drop(&mut self) {
        self.tx.send(()).unwrap();
    }
}

#[test]
fn basic_usecase() {
    let arena: Arena<usize> = Arena::new();
    let test1 = arena.allocate(1).unwrap();
    let test2 = arena.allocate(2).unwrap();

    let test = test1.clone();
    assert_eq!(*test, 1);

    drop(test1);

    assert_eq!(*test, 1);

    drop(test);

    assert_eq!(arena.len(), 2);

    drop(arena);

    assert_eq!(*test2, 2);

    drop(test2);
}

#[test]
fn drops_at_once() {
    let (tx, rx) = channel();

    let arena = Arena::new();
    let test1 = arena.allocate(Foo { tx: tx.clone() }).unwrap();
    let test2 = arena.allocate(Foo { tx: tx.clone() }).unwrap();

    let test3 = test1.clone();

    drop(tx);
    assert_eq!(rx.try_recv().err().unwrap(), TryRecvError::Empty);
    drop(arena);
    assert_eq!(rx.try_recv().err().unwrap(), TryRecvError::Empty);
    drop(test1);
    assert_eq!(rx.try_recv().err().unwrap(), TryRecvError::Empty);
    drop(test2);
    assert_eq!(rx.try_recv().err().unwrap(), TryRecvError::Empty);
    drop(test3);

    assert_eq!(rx.recv().unwrap(), ());
    assert_eq!(rx.recv().unwrap(), ());
    assert_eq!(rx.try_recv().err().unwrap(), TryRecvError::Disconnected);
}

#[test]
fn iterates() {
    let arena: Arena<usize> = Arena::with_capacity(2);
    arena.allocate(1).unwrap();
    arena.allocate(2).unwrap();
    arena.allocate(3).unwrap();
    arena.allocate(4).unwrap();
    arena.allocate(5).unwrap();

    let mut expected: usize = 1;

    arena.each(|t| {
        assert_eq!(**t, expected);
        expected += 1;
    });

    assert_eq!(expected, 6);
    assert_eq!(arena.len(), 5);
}

#[test]
fn formatting() {
    let arena: Arena<usize> = Arena::with_capacity(5);
    let test1 = arena.allocate(1).unwrap();
    let test2 = arena.allocate(2).unwrap();
    arena.allocate(3).unwrap();
    arena.allocate(4).unwrap();
    arena.allocate(5).unwrap();

    assert_eq!("1", &*format!("{}", *test1));
    assert_eq!("2", &*format!("{}", *test2));
    assert_eq!("1", &*format!("{:?}", *test1));
}

#[test]
fn count_matches_allocations() {
    let arena: Arena<u32> = Arena::with_capacity(3);
    assert_eq!(arena.len(), 0);
    for k in 0..10u32 {
        arena.allocate(k).unwrap();
        assert_eq!(arena.len(), (k + 1) as usize);
    }
}

#[test]
fn addresses_survive_growth() {
    let arena: Arena<u64> = Arena::with_capacity(1);
    let first = arena.allocate(10).unwrap();
    assert_eq!(*first, 10);
    for k in 0..10u64 {
        arena.allocate(100 + k).unwrap();
    }
    assert_eq!(*first, 10);
    assert_eq!(arena.len(), 11);
}

#[test]
fn value_round_trip() {
    let arena: Arena<String> = Arena::new();
    let h = arena.allocate(String::from("stored")).unwrap();
    assert_eq!(*h, "stored");
    arena.allocate(String::from("other")).unwrap();
    assert_eq!(*h, "stored");
}

#[test]
fn equality_is_by_value() {
    let arena: Arena<i32> = Arena::new();
    let a = arena.allocate(5).unwrap();
    let b = arena.allocate(5).unwrap();
    let c = arena.allocate(6).unwrap();
    assert!(a == b);
    assert!(a != c);
    assert!(a == a.clone());

    let other: Arena<i32> = Arena::new();
    let d = other.allocate(5).unwrap();
    assert!(a == d);
}

#[test]
fn formatting_matches_value() {
    let arena: Arena<u16> = Arena::new();
    let h = arena.allocate(42).unwrap();
    assert_eq!(format!("{}", *h), format!("{}", 42));
    assert_eq!(format!("{:?}", *h), format!("{:?}", 42));
}

#[test]
fn iteration_is_restartable() {
    let arena: Arena<usize> = Arena::with_capacity(2);
    for k in 1..=5usize {
        arena.allocate(k).unwrap();
    }
    let mut seen_first = Vec::new();
    arena.each(|t| seen_first.push(**t));
    let mut seen_second = Vec::new();
    arena.each(|t| seen_second.push(**t));
    assert_eq!(seen_first, vec![1, 2, 3, 4, 5]);
    assert_eq!(seen_second, vec![1, 2, 3, 4, 5]);
}

#[test]
fn cloned_arena_shares_storage() {
    let arena: Arena<u8> = Arena::with_capacity(2);
    let twin = arena.clone();
    arena.allocate(1).unwrap();
    twin.allocate(2).unwrap();
    assert_eq!(arena.len(), 2);
    assert_eq!(twin.len(), 2);
    let mut seen = Vec::new();
    arena.each(|t| seen.push(**t));
    assert_eq!(seen, vec![1, 2]);
}

#[test]
fn handles_outlive_arena_during_each() {
    let arena: Arena<u32> = Arena::with_capacity(2);
    let mut kept = Vec::new();
    for k in 0..4u32 {
        kept.push(arena.allocate(k).unwrap());
    }
    drop(arena);
    for (k, h) in kept.iter().enumerate() {
        assert_eq!(**h, k as u32);
    }
}

#[test]
fn error_type_is_comparable() {
    assert_eq!(ArenaError::CapacityOverflow, ArenaError::CapacityOverflow);
    assert_eq!(
        format!("{:?}", ArenaError::CapacityOverflow),
        "CapacityOverflow"
    );
}
