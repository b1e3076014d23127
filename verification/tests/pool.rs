use rgtree::{Handle, Pool, PoolError};

#[test]
fn spawn_and_borrow_round_trip() {
    let mut pool: Pool<u32> = Pool::new();
    let a = pool.spawn(10);
    let b = pool.spawn(20);
    assert_ne!(a, b);
    assert_eq!(*pool.borrow(a).unwrap(), 10);
    assert_eq!(*pool.borrow(b).unwrap(), 20);
    assert_eq!(pool.len(), 2);
}

#[test]
fn stale_handle_never_resolves_after_reuse() {
    let mut pool: Pool<&str> = Pool::new();
    let first = pool.spawn("first");
    let kept = first;
    assert_eq!(pool.free(first).unwrap(), "first");

    // The freed index is reused under an incremented generation.
    let second = pool.spawn("second");
    assert_eq!(second.index, kept.index);
    assert_eq!(second.generation, kept.generation + 1);

    // The old handle must fail, never resolve to the new occupant.
    assert_eq!(pool.borrow(kept).unwrap_err(), PoolError::StaleHandle);
    assert_eq!(*pool.borrow(second).unwrap(), "second");
}

#[test]
fn freed_slot_is_vacant_until_reused() {
    let mut pool: Pool<u8> = Pool::new();
    let h = pool.spawn(7);
    pool.free(h).unwrap();
    assert_eq!(pool.borrow(h).unwrap_err(), PoolError::StaleHandle);
    assert_eq!(pool.free(h).unwrap_err(), PoolError::StaleHandle);
}

#[test]
fn out_of_bounds_handles_are_reported() {
    let pool: Pool<u8> = Pool::new();
    let bogus = Handle {
        index: 5,
        generation: 1,
    };
    assert_eq!(pool.borrow(bogus).unwrap_err(), PoolError::OutOfBounds);
}

#[test]
fn the_sentinel_never_resolves() {
    let mut pool: Pool<u8> = Pool::new();
    pool.spawn(1);
    let none = Handle::none();
    assert!(none.is_none());
    assert!(pool.borrow(none).is_err());
}

#[test]
fn borrow_mut_updates_in_place() {
    let mut pool: Pool<u32> = Pool::new();
    let h = pool.spawn(1);
    if pool.is_valid(h) {
        *pool.borrow_mut(h) = 99;
    }
    assert_eq!(*pool.borrow(h).unwrap(), 99);
}
