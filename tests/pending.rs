use dht_rpc::{Key, PendingCalls};
use std::sync::mpsc;

fn token(n: u8) -> Key {
    Key::new(vec![n, n, n])
}

#[test]
fn register_then_claim() {
    let mut t: PendingCalls<u32> = PendingCalls::new();
    assert!(!t.contains(&token(1)));
    assert_eq!(t.register(token(1), 10), Ok(()));
    assert_eq!(t.register(token(2), 20), Ok(()));
    assert!(t.contains(&token(1)));
    assert!(t.contains(&token(2)));
    assert_eq!(t.claim(&token(1)), Some(10));
    assert!(!t.contains(&token(1)));
    assert!(t.contains(&token(2)));
    assert_eq!(t.claim(&token(2)), Some(20));
    assert!(!t.contains(&token(2)));
}

#[test]
fn register_refuses_pending_token() {
    let mut t: PendingCalls<u32> = PendingCalls::new();
    assert_eq!(t.register(token(1), 10), Ok(()));
    assert_eq!(t.register(token(1), 11), Err(11));
    assert_eq!(t.claim(&token(1)), Some(10));
    assert_eq!(t.register(token(1), 12), Ok(()));
    assert_eq!(t.claim(&token(1)), Some(12));
}

#[test]
fn claim_is_handed_out_once() {
    let mut t: PendingCalls<u32> = PendingCalls::new();
    t.register(token(5), 50).unwrap();
    // the reply wins, the timeout and a duplicate reply find nothing
    assert_eq!(t.claim(&token(5)), Some(50));
    assert_eq!(t.claim(&token(5)), None);
    assert_eq!(t.claim(&token(5)), None);
}

#[test]
fn unsolicited_claim_changes_nothing() {
    let mut t: PendingCalls<u32> = PendingCalls::new();
    t.register(token(1), 10).unwrap();
    assert_eq!(t.claim(&token(9)), None);
    assert!(t.contains(&token(1)));
    assert!(!t.contains(&token(9)));
    assert_eq!(t.claim(&token(1)), Some(10));
}

#[test]
fn timeout_resolves_to_none_and_clears_entry() {
    let mut t: PendingCalls<mpsc::Sender<Option<u32>>> = PendingCalls::new();
    let (tx, rx) = mpsc::channel();
    t.register(token(3), tx).unwrap();
    // no reply came: the timeout claims the slot and delivers None
    let slot = t.claim(&token(3)).expect("still waiting");
    slot.send(None).unwrap();
    drop(slot);
    assert!(!t.contains(&token(3)));
    assert_eq!(rx.recv().unwrap(), None);
    // a late reply finds nothing to deliver to
    assert!(t.claim(&token(3)).is_none());
    assert!(rx.recv().is_err());
}

#[test]
fn tokens_differing_in_last_byte_are_distinct() {
    let mut t: PendingCalls<u8> = PendingCalls::new();
    t.register(Key::new(vec![1, 2, 3]), 1).unwrap();
    t.register(Key::new(vec![1, 2, 4]), 2).unwrap();
    t.register(Key::new(vec![1, 2]), 3).unwrap();
    assert_eq!(t.claim(&Key::new(vec![1, 2])), Some(3));
    assert_eq!(t.claim(&Key::new(vec![1, 2, 4])), Some(2));
    assert_eq!(t.claim(&Key::new(vec![1, 2, 3])), Some(1));
}

#[test]
fn key_helpers() {
    let a = Key::new(vec![1, 2]);
    assert!(a.same(&Key::new(vec![1, 2])));
    assert!(!a.same(&Key::new(vec![1, 3])));
    assert!(!a.same(&Key::new(vec![1])));
    assert_eq!(a.duplicate(), a);
}
