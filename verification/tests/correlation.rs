use t2sdk::callback::{create_callback, on_received_biz_msg};
use t2sdk::connection::{
    CallbackRegistry, Connection, ConnectionStatus, RecvFlags, RequestError, RequestIdentity,
    SequenceCounter, WaitOutcome,
};

#[test]
fn cancelled_request_is_not_delivered() {
    let mut registry = CallbackRegistry::new();
    assert_eq!(registry.register(1, 42, 7), Ok(()));
    assert_eq!(registry.len(), 1);
    assert!(registry.cancel((1, 42)));
    assert_eq!(registry.len(), 0);
    assert!(!registry.is_registered((1, 42)));
    assert!(registry.invoke_callback((1, 42), vec![1u8, 2, 3]).is_none());
    assert!(!registry.cancel((1, 42)));
}

#[test]
fn each_identity_is_delivered_once() {
    let mut registry = CallbackRegistry::new();
    for handle in 1..=100 {
        assert_eq!(registry.register(3, handle, 1000 + handle as u64), Ok(()));
    }
    assert_eq!(registry.len(), 100);
    for handle in (1..=100).rev() {
        let d = registry.invoke_callback((3, handle), handle).unwrap();
        assert_eq!(d.sink, 1000 + handle as u64);
        assert_eq!(d.payload, handle);
        assert!(registry.invoke_callback((3, handle), handle).is_none());
    }
    assert_eq!(registry.len(), 0);
}

#[test]
fn duplicate_registration_is_refused_and_keeps_the_first_sink() {
    let mut registry = CallbackRegistry::new();
    assert_eq!(registry.register(1, 5, 10), Ok(()));
    assert_eq!(registry.register(1, 5, 11), Err(RequestError::DuplicateRegistration));
    assert_eq!(registry.register(2, 5, 12), Ok(()));
    assert_eq!(registry.invoke_callback((1, 5), ()).unwrap().sink, 10);
    assert_eq!(registry.invoke_callback((2, 5), ()).unwrap().sink, 12);
}

#[test]
fn send_registers_only_positive_handles() {
    let mut counter = SequenceCounter::new();
    let first = Connection::new(&mut counter);
    let second = Connection::new(&mut counter);
    assert_eq!((first.sequence, second.sequence), (0, 1));
    let mut registry = CallbackRegistry::new();
    assert_eq!(first.send_biz_msg(&mut registry, 0, 1), Err(RequestError::SendFailed));
    assert_eq!(first.send_biz_msg(&mut registry, -3, 1), Err(RequestError::SendFailed));
    assert_eq!(registry.len(), 0);
    let id = first.send_biz_msg(&mut registry, 9, 1).unwrap();
    assert_eq!(id, RequestIdentity { sequence: 0, handle: 9 });
    assert_eq!(
        first.send_biz_msg(&mut registry, 9, 2),
        Err(RequestError::DuplicateRegistration)
    );
    assert!(second.send_biz_msg(&mut registry, 9, 3).is_ok());
    assert_eq!(registry.len(), 2);
}

#[test]
fn timeout_removes_the_entry_before_it_is_reported() {
    let mut registry = CallbackRegistry::new();
    let conn = Connection { sequence: 8 };
    let id = conn.send_biz_msg(&mut registry, 4, 77).unwrap();
    let r: Result<u8, RequestError> = Connection::finish(&mut registry, id, WaitOutcome::TimedOut);
    assert_eq!(r, Err(RequestError::Timeout));
    assert_eq!(registry.len(), 0);
    let callback = create_callback(8);
    assert!(on_received_biz_msg(&callback, &mut registry, 4, 1u8).is_none());

    let id = conn.send_biz_msg(&mut registry, 5, 78).unwrap();
    let d = on_received_biz_msg(&callback, &mut registry, 5, 9u8).unwrap();
    assert_eq!((d.sink, d.payload), (78, 9));
    assert_eq!(Connection::finish(&mut registry, id, WaitOutcome::Delivered(d.payload)), Ok(9));
    let id = conn.send_biz_msg(&mut registry, 6, 79).unwrap();
    let r: Result<u8, RequestError> = Connection::finish(&mut registry, id, WaitOutcome::Closed);
    assert_eq!(r, Err(RequestError::ChannelClosed));
    assert!(!registry.is_registered((8, 6)));
}

#[test]
fn status_bits_name_one_status_each() {
    assert_eq!(ConnectionStatus::Registered.bits(), 0x20);
    assert_eq!(ConnectionStatus::from_bits(0x40), Some(ConnectionStatus::Rejected));
    assert_eq!(ConnectionStatus::from_bits(0x03), None);
    assert_eq!(ConnectionStatus::from_bits(0), Some(ConnectionStatus::Disconnected));
    assert_eq!(RecvFlags::JustRemoveHandle.bits(), 1);
}
