use chaoslab::chaos::client_store::ClientStore;
use chaoslab::chaos::error::StormError;
use chaoslab::chaos::event::{StormAction, StormEvent};
use chaoslab::chaos::handle::{ChannelHandle, ServiceHandle};
use chaoslab::chaos::service_collection::ServiceCollection;
use chaoslab::chaos::syscalls::{
    channel_destroy, channel_message, decode_event_reply, decode_handle_reply, decode_status_reply, event_wait,
    process_destroy, process_emit, process_set_info, service_connect, service_create, service_destroy, EmitType,
};

fn le32(v: i32) -> Vec<u8> {
    v.to_le_bytes().to_vec()
}

#[test]
fn error_codes_round_trip_and_unknown_codes_are_general() {
    let all = [
        StormError::NoError, StormError::NotFound, StormError::PermissionDenied, StormError::NotImplemented,
        StormError::Timeout, StormError::Cancelled, StormError::AlreadyExists, StormError::General,
    ];
    for (code, error) in all.iter().enumerate() {
        assert_eq!(StormError::to_i32(*error), code as i32);
        assert_eq!(StormError::from_i32(code as i32), *error);
    }
    assert_eq!(StormError::from_i32(8), StormError::General);
    assert_eq!(StormError::from_i32(-1), StormError::General);
}

#[test]
fn event_kinds_round_trip() {
    for (action, code) in [
        (StormAction::ServiceConnected, 100), (StormAction::ServiceAvailable, 101),
        (StormAction::ChannelSignalled, 200), (StormAction::ChannelDestroyed, 201),
        (StormAction::TimerFired, 300), (StormAction::ProcessExited, 400),
    ] {
        assert_eq!(action.to_i32(), code);
        assert_eq!(StormAction::from_i32(code), Some(action));
    }
    assert_eq!(StormAction::from_i32(102), None);
}

#[test]
fn kernel_events_name_their_handles() {
    assert_eq!(StormEvent::from_kernel(3, 9, StormAction::ServiceConnected), StormEvent::ServiceConnected(ServiceHandle(3), ChannelHandle(9)));
    assert_eq!(StormEvent::from_kernel(4, 0, StormAction::ChannelSignalled), StormEvent::ChannelSignalled(ChannelHandle(4)));
    assert_eq!(StormEvent::from_kernel(4, 0, StormAction::ChannelDestroyed), StormEvent::ChannelDestroyed(ChannelHandle(4)));
}

#[test]
fn requests_have_exact_bytes() {
    let mut expected = le32(11);
    expected.extend_from_slice(&5u64.to_le_bytes());
    assert_eq!(service_destroy(5), expected);

    let mut expected = le32(21);
    expected.extend_from_slice(&7u64.to_le_bytes());
    assert_eq!(channel_destroy(7), expected);

    let mut expected = le32(22);
    expected.extend_from_slice(&7u64.to_le_bytes());
    expected.extend_from_slice(&3u64.to_le_bytes());
    assert_eq!(channel_message(7, 3), expected);

    assert_eq!(process_destroy(), le32(41));

    let mut expected = le32(42);
    expected.push(1);
    expected.extend_from_slice(&4u32.to_le_bytes());
    expected.extend_from_slice(b"test");
    assert_eq!(process_set_info("test"), expected);

    let mut expected = le32(30);
    expected.push(1);
    expected.extend_from_slice(&9u64.to_le_bytes());
    expected.push(1);
    expected.extend_from_slice(&le32(200));
    expected.push(0);
    expected.extend_from_slice(&le32(-1));
    assert_eq!(event_wait(Some(9), Some(StormAction::ChannelSignalled), None, -1), expected);

    let mut expected = le32(43);
    expected.extend_from_slice(&le32(3));
    expected.extend_from_slice(&le32(0));
    expected.push(0);
    assert_eq!(process_emit(EmitType::Information, StormError::NoError, None), expected);
}

#[test]
fn service_requests_carry_texts_and_identifier() {
    let id = [7u8; 16];
    let request = service_create("console", "Chaos", "Console host server", id);
    let mut expected = le32(10);
    for text in ["console", "Chaos", "Console host server"] {
        expected.push(1);
        expected.extend_from_slice(&(text.len() as u32).to_le_bytes());
        expected.extend_from_slice(text.as_bytes());
    }
    expected.push(1);
    expected.extend_from_slice(&id);
    assert_eq!(request, expected);

    let request = service_connect("data", None, None, None);
    let mut expected = le32(12);
    expected.push(1);
    expected.extend_from_slice(&4u32.to_le_bytes());
    expected.extend_from_slice(b"data");
    expected.extend_from_slice(&[0, 0, 0]);
    assert_eq!(request, expected);
}

#[test]
fn replies_are_decoded() {
    assert_eq!(decode_status_reply(&[1, 0]), None);
    assert_eq!(decode_status_reply(&le32(4)), Some(StormError::Timeout));

    let mut reply = le32(0);
    reply.extend_from_slice(&42u64.to_le_bytes());
    assert_eq!(decode_handle_reply(&reply), Some(Ok(42)));
    assert_eq!(decode_handle_reply(&reply[..8]), None);
    assert_eq!(decode_handle_reply(&le32(6)), Some(Err(StormError::AlreadyExists)));

    let mut reply = le32(0);
    reply.extend_from_slice(&3u64.to_le_bytes());
    reply.extend_from_slice(&9u64.to_le_bytes());
    reply.extend_from_slice(&le32(100));
    reply.extend_from_slice(&0u64.to_le_bytes());
    assert_eq!(decode_event_reply(&reply), Some(Ok((3, 9, StormAction::ServiceConnected, 0))));
    reply[20] = 99;
    assert_eq!(decode_event_reply(&reply), Some(Err(StormError::General)));
    assert_eq!(decode_event_reply(&reply[..31]), None);
}

#[test]
fn service_collection_forgets_destroyed_services() {
    let mut services = ServiceCollection::new();
    assert_eq!(services.create(Ok(4)), Ok(4));
    assert_eq!(services.create(Err(StormError::PermissionDenied)), Err(StormError::PermissionDenied));
    assert_eq!(services.destroy(4), service_destroy(4));
}

#[test]
fn client_store_keeps_clients_in_key_order() {
    let mut store: ClientStore<&str> = ClientStore::new();
    store.add_client(ServiceHandle(2), ChannelHandle(5), "c");
    store.add_client(ServiceHandle(1), ChannelHandle(9), "b");
    store.add_client(ServiceHandle(1), ChannelHandle(3), "a");
    assert_eq!(store.client_count(), 3);
    let (s, c, v) = store.first().unwrap();
    assert_eq!((*s, *c, *v), (ServiceHandle(1), ChannelHandle(3), "a"));
    assert_eq!(store.get_client(ServiceHandle(2), ChannelHandle(5)), Some(&"c"));
    assert_eq!(store.get_client(ServiceHandle(2), ChannelHandle(9)), None);
    let found = store.first_matching(|_, channel, _| channel.0 > 4).unwrap();
    assert_eq!(*found.2, "b");

    store.for_each_mut(|index, value| if index == 0 { "first" } else { *value });
    assert_eq!(store.get_client(ServiceHandle(1), ChannelHandle(3)), Some(&"first"));

    store.remove_client(ServiceHandle(1), ChannelHandle(9));
    assert_eq!(store.client_count(), 2);
    assert_eq!(store.get_client(ServiceHandle(1), ChannelHandle(9)), None);

    // removing under a service that was never registered changes nothing
    store.remove_client(ServiceHandle(8), ChannelHandle(1));
    assert_eq!(store.client_count(), 2);

    // replacing a client counts it again, as the counter always rises on add
    store.add_client(ServiceHandle(2), ChannelHandle(5), "d");
    assert_eq!(store.client_count(), 3);
    assert_eq!(store.get_client(ServiceHandle(2), ChannelHandle(5)), Some(&"d"));
    assert!(store.update_client(ServiceHandle(2), ChannelHandle(5), "e"));
    assert!(!store.update_client(ServiceHandle(2), ChannelHandle(6), "f"));
    assert_eq!(store.client_count(), 3);
}
