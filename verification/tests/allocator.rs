use arena_sieve::arena::Arena;
use arena_sieve::arena::ArenaBackend;
use arena_sieve::bridge::AllocStep;
use arena_sieve::bridge::AllocatorBackend;
use arena_sieve::bridge::AllocatorBridge;
use arena_sieve::bridge::interpret_external;
use arena_sieve::rust_main;

#[test]
fn arena_is_zeroed_at_start() {
    let a = Arena::new(16);
    let b = ArenaBackend::new(a);
    for addr in 0..16 {
        assert_eq!(b.load(addr), 0);
    }
}

#[test]
fn claiming_respects_capacity() {
    // Success only while the claimed bytes fit the arena; a request past
    // the capacity fails and changes nothing.
    let mut b = ArenaBackend::new(Arena::new(100));
    assert_eq!(b.allocate(60, 4), Some(0));
    assert_eq!(b.claimed, 60);
    assert_eq!(b.allocate(50, 4), None);
    assert_eq!(b.claimed, 60);
    assert_eq!(b.allocate(40, 4), Some(60));
    assert_eq!(b.claimed, 100);
    assert_eq!(b.allocate(1, 1), None);
    assert_eq!(b.claimed, 100);
}

#[test]
fn claiming_respects_alignment() {
    let mut b = ArenaBackend::new(Arena::new(64));
    assert_eq!(b.allocate(5, 4), Some(0));
    // The high-water mark is at 5; the next 4-aligned offset is 8.
    assert_eq!(b.allocate(1, 4), Some(8));
    assert_eq!(b.claimed, 9);
    // An alignment that is not a power of two is rejected.
    assert_eq!(b.allocate(1, 3), None);
    assert_eq!(b.allocate(1, 0), None);
    assert_eq!(b.claimed, 9);
}

#[test]
fn deallocate_is_a_safe_no_op() {
    let mut b = ArenaBackend::new(Arena::new(32));
    assert_eq!(b.allocate(8, 1), Some(0));
    b.deallocate(0, 8, 1);
    b.deallocate(12345, 8, 1);
    assert_eq!(b.claimed, 8);
}

#[test]
fn store_load_roundtrip() {
    let mut b = ArenaBackend::new(Arena::new(8));
    b.store(3, 0xAB);
    assert_eq!(b.load(3), 0xAB);
    assert_eq!(b.load(2), 0);
}

#[test]
fn reallocation_preserves_content() {
    let mut b = ArenaBackend::new(Arena::new(64));
    let addr = b.allocate(4, 1).unwrap();
    for k in 0..4 {
        b.store(addr + k, (10 * (k as u8)) + 7);
    }
    let naddr = b.reallocate(addr, 4, 1, 8).unwrap();
    assert_eq!(naddr, 4);
    // The leading old_size bytes moved with the block...
    for k in 0..4 {
        assert_eq!(b.load(naddr + k), (10 * (k as u8)) + 7);
    }
    // ...and the old block itself is untouched.
    for k in 0..4 {
        assert_eq!(b.load(addr + k), (10 * (k as u8)) + 7);
    }
    assert_eq!(b.claimed, 12);
}

#[test]
fn reallocation_failure_leaves_everything_unchanged() {
    let mut b = ArenaBackend::new(Arena::new(8));
    let addr = b.allocate(4, 1).unwrap();
    b.store(addr, 99);
    // Regrowing to 8 bytes needs 4 + 8 = 12 bytes of arena: refused.
    assert_eq!(b.reallocate(addr, 4, 1, 8), None);
    assert_eq!(b.claimed, 4);
    assert_eq!(b.load(addr), 99);
}

#[test]
fn shrinking_reallocation_copies_the_prefix() {
    let mut b = ArenaBackend::new(Arena::new(64));
    let addr = b.allocate(6, 1).unwrap();
    for k in 0..6 {
        b.store(addr + k, k as u8 + 1);
    }
    let naddr = b.reallocate(addr, 6, 1, 2).unwrap();
    assert_eq!(b.load(naddr), 1);
    assert_eq!(b.load(naddr + 1), 2);
}

#[test]
fn bridge_over_claiming_backend() {
    let backend = AllocatorBackend::ArenaClaiming(ArenaBackend::new(Arena::new(32)));
    let mut bridge = AllocatorBridge::new(backend);
    match bridge.allocate(8, 4) {
        AllocStep::Done(Some(addr)) => assert_eq!(addr, 0),
        _ => panic!("the claiming backend must answer the request itself"),
    }
    assert!(!bridge.deallocate(0, 8, 4));
    match bridge.reallocate(0, 8, 4, 16) {
        AllocStep::Done(Some(naddr)) => assert_eq!(naddr, 8),
        _ => panic!("the regrow fits the arena and must succeed"),
    }
    match bridge.allocate(32, 4) {
        AllocStep::Done(None) => {},
        _ => panic!("a request past the capacity must fail"),
    }
}

#[test]
fn bridge_over_delegating_backend() {
    let mut bridge = AllocatorBridge::new(AllocatorBackend::SyscallDelegating);
    match bridge.allocate(24, 8) {
        AllocStep::Forward(l) => {
            assert_eq!(l.size, 24);
            assert_eq!(l.align, 8);
        },
        _ => panic!("a valid request must be forwarded to the external triad"),
    }
    match bridge.allocate(24, 5) {
        AllocStep::Done(None) => {},
        _ => panic!("an alignment that is not a power of two must fail"),
    }
    assert!(bridge.deallocate(64, 24, 8));
    match bridge.reallocate(64, 24, 8, 48) {
        AllocStep::Forward(l) => {
            assert_eq!(l.size, 48);
            assert_eq!(l.align, 8);
        },
        _ => panic!("a valid regrow must be forwarded to the external triad"),
    }
}

#[test]
fn external_null_is_failure() {
    assert_eq!(interpret_external(0), None);
    assert_eq!(interpret_external(0x4000), Some(0x4000));
}

#[test]
fn runtime_entry_values() {
    assert_eq!(rust_main(), vec![1, 2]);
}
