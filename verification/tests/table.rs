use finne::buffers::RequestBuffers;
use finne::connection::{ConnectionData, ReadAction, ReadEvent};
use finne::pool::Pool;
use finne::table::{ConnectionTable, MANAGER, MAX_KEYS, MAX_TOKEN, SERVER};

fn zero_buffers() -> RequestBuffers {
    RequestBuffers::new()
}

#[test]
fn reserved_tokens() {
    assert_eq!(SERVER, 0);
    assert_eq!(MANAGER, 1);
    assert_eq!(MAX_TOKEN, 2);
    assert_eq!(MAX_KEYS, 1 << 20);
}

#[test]
fn keys_are_handed_out_in_order_and_used_again() {
    let mut pool = Pool::new(0, zero_buffers);
    let mut table = ConnectionTable::new();
    assert_eq!(table.vacant_key(), 0);
    assert!(!table.contains(0));
    for key in 0..3 {
        assert_eq!(table.vacant_key(), key);
        let conn = ConnectionData::new(key + MAX_TOKEN, pool.pull(), false, 64);
        assert_eq!(table.insert(conn).ok(), Some(key));
        assert!(table.contains(key));
    }
    assert_eq!(table.get(1).map(|c| c.token()), Some(3));
    let removed = table.remove(1);
    assert_eq!(removed.map(|c| c.token()), Some(3));
    assert!(!table.contains(1));
    assert!(table.contains(0) && table.contains(2));
    assert!(table.get(1).is_none());
    assert!(table.remove(1).is_none());
    assert_eq!(table.vacant_key(), 1);
    let conn = ConnectionData::new(1 + MAX_TOKEN, pool.pull(), false, 64);
    assert_eq!(table.insert(conn).ok(), Some(1));
    assert_eq!(table.vacant_key(), 3);
}

#[test]
fn change_through_get_mut_stays_in_the_table() {
    let mut pool = Pool::new(0, zero_buffers);
    let mut table = ConnectionTable::new();
    let conn = ConnectionData::new(MAX_TOKEN, pool.pull(), false, 64);
    assert_eq!(table.insert(conn).ok(), Some(0));
    assert!(table.get_mut(7).is_none());
    let action = table.get_mut(0).unwrap().receive_request(ReadEvent::Data(b"GET /"));
    assert_eq!(action, ReadAction::ReadAgain);
    assert_eq!(table.get(0).unwrap().request(), b"GET /");
}
