use finne::pool::Pool;

fn zero() -> u32 {
    0
}

#[test]
fn new_pool_has_capacity_free_slots() {
    let pool = Pool::new(3, zero);
    assert_eq!(pool.len(), 3);
    assert!(pool.has_free());
    let empty = Pool::new(0, zero);
    assert_eq!(empty.len(), 0);
    assert!(!empty.has_free());
}

#[test]
fn pulls_without_release_take_distinct_slots() {
    let mut pool = Pool::new(4, zero);
    let mut leases = Vec::new();
    for _ in 0..10 {
        leases.push(pool.pull());
    }
    let slots: Vec<usize> = leases.iter().map(|l| l.slot()).collect();
    assert_eq!(slots, vec![0, 1, 2, 3, 4, 5, 6, 7, 8, 9]);
    assert_eq!(pool.len(), 10);
    assert!(!pool.has_free());
}

#[test]
fn released_slot_is_taken_again_and_the_pool_does_not_grow() {
    let mut pool = Pool::new(2, zero);
    let a = pool.pull();
    let b = pool.pull();
    assert_eq!((a.slot(), b.slot()), (0, 1));
    assert!(!pool.has_free());
    assert!(pool.release(a).is_ok());
    assert!(pool.has_free());
    let c = pool.pull();
    assert_eq!(c.slot(), 0);
    assert_eq!(pool.len(), 2);
    assert_eq!(b.slot(), 1);
}

#[test]
fn pool_grows_only_when_no_slot_is_free() {
    let mut pool = Pool::new(1, zero);
    let a = pool.pull();
    assert_eq!(pool.len(), 1);
    let b = pool.pull();
    assert_eq!(b.slot(), 1);
    assert_eq!(pool.len(), 2);
    assert!(pool.release(a).is_ok());
    assert!(pool.release(b).is_ok());
    let _c = pool.pull();
    let _d = pool.pull();
    assert_eq!(pool.len(), 2);
}

#[test]
fn search_starts_behind_the_slot_taken_last_and_wraps() {
    let mut pool = Pool::new(4, zero);
    let a = pool.pull();
    let b = pool.pull();
    let c = pool.pull();
    assert_eq!((a.slot(), b.slot(), c.slot()), (0, 1, 2));
    assert!(pool.release(a).is_ok());
    let d = pool.pull();
    assert_eq!(d.slot(), 3);
    let e = pool.pull();
    assert_eq!(e.slot(), 0);
    assert!(pool.release(b).is_ok());
    assert!(pool.release(c).is_ok());
    let f = pool.pull();
    assert_eq!(f.slot(), 1);
    let g = pool.pull();
    assert_eq!(g.slot(), 2);
    assert_eq!(pool.len(), 4);
    assert_eq!((d.slot(), e.slot()), (3, 0));
}

#[test]
fn released_object_comes_back_as_it_was_left() {
    let mut pool = Pool::new(1, zero);
    let mut lease = pool.pull();
    assert_eq!(*lease.deref(), 0);
    *lease.deref_mut() = 7;
    assert_eq!(*lease.deref(), 7);
    assert!(pool.release(lease).is_ok());
    let again = pool.pull();
    assert_eq!(again.slot(), 0);
    assert_eq!(*again.deref(), 7);
}

#[test]
fn new_objects_come_from_the_init_function() {
    let mut pool = Pool::new(0, || 41u32 + 1);
    let lease = pool.pull();
    assert_eq!(*lease.deref(), 42);
}

#[test]
fn lease_of_another_pool_is_handed_back() {
    let mut small = Pool::new(1, zero);
    let mut large = Pool::new(3, zero);
    let _a = large.pull();
    let _b = large.pull();
    let c = large.pull();
    assert_eq!(c.slot(), 2);
    let refused = small.release(c);
    assert!(refused.is_err());
    let c = refused.err().unwrap();
    assert_eq!(c.slot(), 2);
    assert_eq!(small.len(), 1);
    assert!(small.has_free());
    let mut other = Pool::new(1, zero);
    let lease = other.pull();
    assert!(small.release(lease).is_err());
}
