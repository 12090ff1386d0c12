use glide_core::protocol::ResponseType;
use glide_core::router::{RegisterError, RequestRouter};

#[test]
fn register_then_resolve_delivers_exactly_once() {
    let mut router = RequestRouter::new();
    router.register(1).unwrap();
    assert!(router.resolve(1));
    // the entry is gone: a second response for the same index is dropped
    assert!(!router.resolve(1));
}

#[test]
fn resolving_unknown_index_is_dropped() {
    let mut router = RequestRouter::new();
    router.register(5).unwrap();
    assert!(!router.resolve(99));
    // the unknown index disturbed nothing
    assert!(router.is_pending(5));
    assert!(router.resolve(5));
}

#[test]
fn duplicate_registration_is_refused() {
    let mut router = RequestRouter::new();
    router.register(4).unwrap();
    assert_eq!(router.register(4), Err(RegisterError::DuplicateIndex));
    // the index may be reused once its response was delivered
    assert!(router.resolve(4));
    router.register(4).unwrap();
}

#[test]
fn fail_all_synthesizes_closing_errors_for_every_pending_entry() {
    let mut router = RequestRouter::new();
    router.register(1).unwrap();
    router.register(2).unwrap();
    router.register(3).unwrap();
    assert!(router.resolve(2));
    let reason = b"connection lost".to_vec();
    let out = router.fail_all(&reason);
    assert_eq!(out.len(), 2);
    assert_eq!(out[0].callback_index, 1);
    assert_eq!(out[1].callback_index, 3);
    for resp in &out {
        assert_eq!(resp.response_type, ResponseType::ClosingError);
        assert_eq!(resp.payload, reason);
    }
}

#[test]
fn register_after_teardown_fails_immediately() {
    let mut router = RequestRouter::new();
    router.register(1).unwrap();
    let _ = router.fail_all(&b"going down".to_vec());
    assert_eq!(router.register(2), Err(RegisterError::Closed));
    // and the old entry was removed by teardown, not left hanging
    assert!(!router.resolve(1));
}
